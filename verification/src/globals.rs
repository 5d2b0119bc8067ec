//! Indices and default values of the global settings stored in a layout.
use vstd::prelude::*;

verus! {

pub const MOUSE_PROFILE1: u16 = 0;
pub const MOUSE_PROFILE2: u16 = 1;
pub const MOUSE_PROFILE3: u16 = 2;

pub const DUAL_ACTION_TIMEOUT: u16 = 3;
pub const DUAL_ACTION_TIMEOUT2: u16 = 4;
pub const DEBOUNCE_SETTLE_TIME: u16 = 5;
pub const TAPDANCE_TAP_TIMEOUT: u16 = 6;
pub const LAST_TIMEOUT: u16 = 6;

/// 180 ms.
pub const DUAL_ACTION_TIMEOUT_DEFAULT: u16 = 180;
/// 20 ms.
pub const DUAL_ACTION_TIMEOUT2_DEFAULT: u16 = 20;
/// 20 ms in the compressed form `20 * 65535 / 2500`.
pub const DEBOUNCE_SETTLE_TIME_DEFAULT: u16 = 524;
/// 180 ms.
pub const TAPDANCE_TAP_TIMEOUT_DEFAULT: u16 = 180;

pub const COMPOSITE_BIT: u16 = 0x0100;
pub const COMPOSITE_PART_BIT: u16 = 0x0200;

/// The protocol version of a keyboard configuration object.
pub const PROTOCOL_VERSION: u16 = 1;

/// The settle time, in microseconds, that a compressed key settle time stands for.
pub open spec fn spec_key_settle_time_uncompress(m16: int) -> int {
    (m16 * 39063) / 1024
}

/// Uncompresses a key settle time compressed by `parse_key_settle_time`.
pub fn key_settle_time_uncompress(m16: u32) -> (r: u32)
    requires
        m16 * 39063 <= u32::MAX,
    ensures
        r == spec_key_settle_time_uncompress(m16 as int),
{
    let p: u32 = m16 * 39063;
    assert(p >> 10u32 == p / 1024) by (bit_vector);
    p >> 10
}

} // verus!
