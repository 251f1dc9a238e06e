//! The line-ending sequences, as strings, characters and bytes.

use vstd::prelude::*;

verus! {

pub struct LineEndings {}

impl LineEndings {
    pub const CRLF_STR: &'static str = "\r\n";

    pub const CRLF_BYTES: [u8; 2] = ['\r' as u8, '\n' as u8];

    pub const LF_STR: &'static str = "\n";

    pub const LF_CHAR: char = '\n';

    pub const LF_CHAR_BYTE: u8 = '\n' as u8;

    pub const LF_BYTES: [u8; 1] = ['\n' as u8];

    pub const CR_STR: &'static str = "\r";

    pub const CR_CHAR: char = '\r';

    pub const CR_CHAR_BYTE: u8 = '\r' as u8;

    pub const CR_BYTES: [u8; 1] = ['\r' as u8];
}

} // verus!
