//! Type tags of the macros stored in a layout.
use vstd::prelude::*;

verus! {

pub const MODIFIER: u16 = 0;
pub const DUAL_ACTION: u16 = 1;
pub const TAP: u16 = 2;
pub const HOLD_RELEASE: u16 = 3;
pub const HOLD: u16 = 4;
pub const RELEASE: u16 = 5;
pub const DELAY: u16 = 6;
pub const TAPDANCE: u16 = 7;

} // verus!
