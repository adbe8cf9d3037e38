//! Register offsets of the MC146818 clock.

use vstd::prelude::*;

verus! {

pub const SECONDS: u8 = 0x00;

pub const MINUTES: u8 = 0x02;

pub const HOURS: u8 = 0x04;

pub const DAY_OF_WEEK: u8 = 0x06;

pub const DAY_OF_MONTH: u8 = 0x07;

pub const MONTH: u8 = 0x08;

pub const YEAR: u8 = 0x09;

pub const STATUS_A: u8 = 0x0A;

pub const STATUS_B: u8 = 0x0B;

pub const STATUS_C: u8 = 0x0C;

pub const STATUS_D: u8 = 0x0D;

} // verus!
