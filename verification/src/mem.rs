//! Memory map of an SRIX4K tag.
//!
//! The regions differ in what the tag lets a writer do to them; the driver
//! treats every block alike.

use vstd::prelude::*;

verus! {

/// Total number of blocks.
pub const BLOCK_COUNT: usize = 128;

/// Size of a single block in bytes.
pub const BLOCK_SIZE: usize = 4;

/// Size of the UID in bytes.
pub const UID_SIZE: u8 = 8;

/// Entire EEPROM.
pub const EEPROM: core::ops::Range<usize> = 0..BLOCK_COUNT;

/// *Resettable OTP bits* region.
pub const OTP: core::ops::Range<usize> = 0..5;

/// *Count down counter* region.
pub const COUNTDOWN: core::ops::Range<usize> = 5..7;

/// *Lockable EEPROM* region.
pub const LOCKABLE: core::ops::Range<usize> = 7..16;

/// *EEPROM* region.
pub const GENERIC: core::ops::Range<usize> = 16..BLOCK_COUNT;

/// Address of the *System OTP bits* block.
pub const SYSTEM_ADDR: usize = 255;

} // verus!
