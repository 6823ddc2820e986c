//! Smallest 28-day totals with which each rank above `Iron` is entered.

use vstd::prelude::*;

verus! {

pub const BRONZE_MIN: u32 = 500;

pub const SILVER_MIN: u32 = 1000;

pub const GOLD_MIN: u32 = 2500;

pub const PLATINUM_MIN: u32 = 5000;

pub const DIAMAND_MIN: u32 = 10000;

pub const MASTER_MIN: u32 = 20000;

pub const GRANDMASTER_MIN: u32 = 35000;

} // verus!
