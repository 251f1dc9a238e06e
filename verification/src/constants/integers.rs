//! Named numeric constants, grouped by the width of the integers they
//! are meant for.

use vstd::prelude::*;

verus! {

pub struct U8number {}

impl U8number {
    pub const ZERO: u32 = 0;

    pub const ONE: u32 = 1;

    pub const FIVE: u8 = 5;

    pub const SEVEN: u8 = 7;
}

pub struct U32number {}

impl U32number {
    pub const ZERO: u32 = 0;

    pub const ONE: u32 = 1;
}

pub struct U128number {}

impl U128number {
    pub const ZERO: u128 = 0;

    pub const ONE: u128 = 1;
}

pub struct U128PrimeNumbers {}

impl U128PrimeNumbers {
    pub const ZERO: u128 = 0;

    pub const ONE: u128 = 1;

    pub const FIVE: u128 = 5;

    pub const SEVEN: u128 = 7;
}

} // verus!
