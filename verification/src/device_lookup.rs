//! Choosing the keyboards to talk to: reading the hexadecimal ids given on the command line
//! and matching a device's ids and serial number against them.
use std::num::ParseIntError;
use vstd::prelude::*;

use crate::config::listing::{hex_pattern, spec_hex_u16, u16_from_hex};
use crate::config::text::{chars_eq, str_chars, to_lowercase, unicode_lowercase};

verus! {

broadcast use vstd::string::group_string_axioms;

/// The digits of the hexadecimal id `v`: without its `0x` prefix, of either case, where
/// it has one.
pub open spec fn hex_digits_of(v: Seq<char>) -> Seq<char> {
    if hex_pattern(unicode_lowercase(v)) {
        v.skip(2)
    } else {
        v
    }
}

/// Whether the hexadecimal id `v` can be cut after its prefix: where it has a prefix, its
/// first two characters are one byte each.
pub open spec fn hex_prefix_cuttable(v: Seq<char>) -> bool {
    hex_pattern(unicode_lowercase(v)) ==> v.len() >= 2 && (v[0] as u32) < 0x80 && (v[1] as u32) < 0x80
}

/// The id that `v` gives in hexadecimal, with or without a `0x` prefix; none where none is
/// given. An id that does not read as a 16-bit number is refused.
pub fn parse_hex(v: Option<&str>) -> (r: Result<Option<u16>, ParseIntError>)
    requires
        v matches Some(s) ==> hex_prefix_cuttable(s@),
    ensures
        v is None ==> r matches Ok(None),
        v matches Some(s) ==> {
            &&& r is Ok <==> spec_hex_u16(hex_digits_of(s@)) is Some
            &&& r matches Ok(x) ==> x == spec_hex_u16(hex_digits_of(s@))
        },
{
    match v {
        None => Ok(None),
        Some(s) => {
            let lowered = to_lowercase(s);
            let chars = str_chars(s);
            let mut digits: Vec<char> = Vec::new();
            let start: usize = if lowered.len() >= 2 && lowered[0] == '0' && lowered[1] == 'x' {
                2
            } else {
                0
            };
            let mut k: usize = start;
            while k < chars.len()
                invariant
                    start <= k <= chars@.len() || (start == 2 && chars@.len() < 2 && k == start),
                    start == 0 || chars@.len() >= 2,
                    digits@ == chars@.subrange(start as int, k as int),
                decreases chars@.len() - k,
            {
                digits.push(chars[k]);
                k = k + 1;
            }
            assert(digits@ =~= hex_digits_of(s@));
            let x = u16_from_hex(digits.as_slice())?;
            Ok(Some(x))
        },
    }
}

/// The serial number a device reports, empty where it reports none.
pub open spec fn serial_or_empty(serial: Option<Seq<char>>) -> Seq<char> {
    match serial {
        Some(s) => s,
        None => Seq::empty(),
    }
}

/// Whether a device is an RPK keyboard that the lookup asks for: its serial number starts
/// with `rpk:`, and its vendor id, product id and serial number are those asked for, where
/// the lookup asks for one (an empty serial number asks for none).
pub open spec fn spec_keyboard_matches(
    serial: Option<Seq<char>>,
    vendor: u16,
    product: u16,
    want_vendor: Option<u16>,
    want_product: Option<u16>,
    want_serial: Seq<char>,
) -> bool {
    &&& serial_or_empty(serial).len() >= 4
    &&& serial_or_empty(serial).subrange(0, 4) == "rpk:"@
    &&& (want_vendor matches Some(id) ==> vendor == id)
    &&& (want_product matches Some(id) ==> product == id)
    &&& (want_serial.len() == 0 || serial == Some(want_serial))
}

/// Whether a device with the serial number `serial` and ids `vendor` and `product` is an
/// RPK keyboard that the lookup asks for.
pub fn keyboard_matches(
    serial: Option<&str>,
    vendor: u16,
    product: u16,
    want_vendor: Option<u16>,
    want_product: Option<u16>,
    want_serial: &str,
) -> (r: bool)
    ensures
        r == spec_keyboard_matches(
            match serial {
                Some(s) => Some(s@),
                None => None,
            },
            vendor,
            product,
            want_vendor,
            want_product,
            want_serial@,
        ),
{
    proof {
        reveal_strlit("rpk:");
    }
    let s: Vec<char> = match serial {
        Some(t) => str_chars(t),
        None => Vec::new(),
    };
    if s.len() < 4 || s[0] != 'r' || s[1] != 'p' || s[2] != 'k' || s[3] != ':' {
        proof {
            if s@.len() >= 4 {
                assert(s@.subrange(0, 4)[0] == s@[0] && s@.subrange(0, 4)[1] == s@[1]);
                assert(s@.subrange(0, 4)[2] == s@[2] && s@.subrange(0, 4)[3] == s@[3]);
            }
        }
        return false;
    }
    assert(s@.subrange(0, 4) =~= "rpk:"@);
    if let Some(id) = want_vendor {
        if vendor != id {
            return false;
        }
    }
    if let Some(id) = want_product {
        if product != id {
            return false;
        }
    }
    let want = str_chars(want_serial);
    if want.len() == 0 {
        return true;
    }
    match serial {
        Some(_) => chars_eq(s.as_slice(), want.as_slice()),
        None => false,
    }
}

} // verus!
