//! The bits of the numbers that the library compares and computes with.

use vstd::prelude::*;

verus! {

pub const ZERO: u32 = 0x0000_0000;

pub const QUARTER: u32 = 0x3e80_0000;

pub const HALF: u32 = 0x3f00_0000;

pub const THREE_QUARTERS: u32 = 0x3f40_0000;

pub const ONE: u32 = 0x3f80_0000;

pub const TWO: u32 = 0x4000_0000;

pub const THREE: u32 = 0x4040_0000;

pub const MINUS_THREE: u32 = 0xc040_0000;

pub const FOUR: u32 = 0x4080_0000;

pub const FIVE: u32 = 0x40a0_0000;

pub const MINUS_FIVE: u32 = 0xc0a0_0000;

pub const NINE: u32 = 0x4110_0000;

pub const THIRTY_TWO: u32 = 0x4200_0000;

pub const FORTY_FIVE: u32 = 0x4234_0000;

pub const MINUS_FORTY_FIVE: u32 = 0xc234_0000;

pub const FIFTY: u32 = 0x4248_0000;

pub const HUNDRED: u32 = 0x42c8_0000;

pub const MINUS_HUNDRED: u32 = 0xc2c8_0000;

pub const THOUSAND: u32 = 0x447a_0000;

/// The distance from one to the next larger number.
pub const EPSILON: u32 = 0x3400_0000;

/// One hundredth.
pub const HUNDREDTH: u32 = 0x3c23_d70a;

/// One thousandth.
pub const THOUSANDTH: u32 = 0x3a83_126f;

/// One hundred-thousandth.
pub const TINY: u32 = 0x3727_c5ac;

} // verus!
