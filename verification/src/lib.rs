//! Stateless primitives for locating and splitting sequences on a
//! sub-sequence delimiter, copying and transforming elements between
//! buffers, and parsing or concatenating decimal digit sequences into
//! unsigned 32-bit integers with overflow detection.

pub mod constants;
pub mod integer_parse;
pub mod math;
pub mod slice;
