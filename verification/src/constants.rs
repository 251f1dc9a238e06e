pub mod integers;
pub mod line_endings;
