//! The bits of the wide numbers that the library computes with.

use vstd::prelude::*;

verus! {

pub const ZERO: u64 = 0x0000_0000_0000_0000;

pub const FIFTH: u64 = 0x3fc9_9999_9999_999a;

pub const HALF: u64 = 0x3fe0_0000_0000_0000;

pub const ONE: u64 = 0x3ff0_0000_0000_0000;

pub const ONE_AND_A_HALF: u64 = 0x3ff8_0000_0000_0000;

pub const TWO: u64 = 0x4000_0000_0000_0000;

pub const THIRTY_TWO: u64 = 0x4040_0000_0000_0000;

pub const HUNDRED: u64 = 0x4059_0000_0000_0000;

pub const THREE_HUNDRED: u64 = 0x4072_c000_0000_0000;

/// The distance from one to the next larger number.
pub const EPSILON: u64 = 0x3cb0_0000_0000_0000;

} // verus!
