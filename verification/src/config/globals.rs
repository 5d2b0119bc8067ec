//! The global settings of a keyboard config: their names, indices, ranges and defaults,
//! and how their values are read from text.
use vstd::prelude::*;
use crate::config::text::{eq_lit, push_decimal, spec_decimal, str_chars};
use crate::globals;

verus! {

broadcast use vstd::string::group_string_axioms;

/// The biggest whole part a decimal keeps; bigger ones are out of every range.
pub const DECIMAL_CAP: u64 = 1_000_000_000_000;

/// How many fraction digits a decimal keeps; further digits are dropped.
pub const MAX_FRACTION_DIGITS: u32 = 9;

/// A decimal number read from text: its sign, whole part, and fraction digits as a
/// number `frac` of `frac_digits` digits.
#[derive(Clone, Copy, PartialEq, Eq, Structural)]
pub struct Decimal {
    pub neg: bool,
    pub int_part: u64,
    pub frac: u64,
    pub frac_digits: u32,
    pub digits: bool,
    pub dot: bool,
    pub ok: bool,
}

/// Nothing read yet.
pub open spec fn decimal_start() -> Decimal {
    Decimal { neg: false, int_part: 0, frac: 0, frac_digits: 0, digits: false, dot: false, ok: true }
}

/// The decimal `st` after one more character `c`; `first` tells whether `c` is the first.
pub open spec fn decimal_step(st: Decimal, c: char, first: bool) -> Decimal {
    if !st.ok {
        st
    } else if first && (c == '+' || c == '-') {
        Decimal { neg: c == '-', ..st }
    } else if '0' <= c <= '9' {
        let d = c as int - '0' as int;
        if st.dot {
            if st.frac_digits < MAX_FRACTION_DIGITS {
                Decimal {
                    frac: (st.frac * 10 + d) as u64,
                    frac_digits: (st.frac_digits + 1) as u32,
                    digits: true,
                    ..st
                }
            } else {
                Decimal { digits: true, ..st }
            }
        } else {
            let v = st.int_part * 10 + d;
            Decimal {
                int_part: if v > DECIMAL_CAP {
                    DECIMAL_CAP
                } else {
                    v as u64
                },
                digits: true,
                ..st
            }
        }
    } else if c == '.' && !st.dot {
        Decimal { dot: true, ..st }
    } else {
        Decimal { ok: false, ..st }
    }
}

/// The decimal read from `t` from position `i` on, given what was read before.
pub open spec fn scan_decimal(t: Seq<char>, i: int, st: Decimal) -> Decimal
    decreases t.len() - i,
{
    if i >= t.len() || i < 0 {
        st
    } else {
        scan_decimal(t, i + 1, decimal_step(st, t[i], i == 0))
    }
}

/// The decimal the text `t` holds.
pub open spec fn spec_decimal_of(t: Seq<char>) -> Decimal {
    scan_decimal(t, 0, decimal_start())
}

/// Whether a decimal was read whole.
pub open spec fn decimal_valid(d: Decimal) -> bool {
    d.ok && d.digits
}

/// `10` to the power `n`.
pub open spec fn pow10(n: nat) -> nat
    decreases n,
{
    if n == 0 {
        1
    } else {
        10 * pow10((n - 1) as nat)
    }
}

fn pow10_exec(n: u32) -> (r: u64)
    requires
        n <= MAX_FRACTION_DIGITS,
    ensures
        r == pow10(n as nat),
        r <= 1_000_000_000,
{
    let mut r: u64 = 1;
    let mut i: u32 = 0;
    while i < n
        invariant
            i <= n <= MAX_FRACTION_DIGITS,
            r == pow10(i as nat),
            r <= pow10_bound(i),
        decreases n - i,
    {
        r = r * 10;
        i = i + 1;
    }
    r
}

/// A bound on `10` to the power `n` for `n` up to nine.
pub open spec fn pow10_bound(n: u32) -> u64 {
    if n == 0 {
        1
    } else if n == 1 {
        10
    } else if n == 2 {
        100
    } else if n == 3 {
        1000
    } else if n == 4 {
        10000
    } else if n == 5 {
        100000
    } else if n == 6 {
        1000000
    } else if n == 7 {
        10000000
    } else if n == 8 {
        100000000
    } else {
        1000000000
    }
}

/// Reads a decimal from the characters `t`.
pub fn decimal_of(t: &[char]) -> (r: Decimal)
    ensures
        r == spec_decimal_of(t@),
        r.int_part <= DECIMAL_CAP,
        r.frac_digits <= MAX_FRACTION_DIGITS,
        r.frac < pow10(r.frac_digits as nat),
{
    let mut st = Decimal {
        neg: false,
        int_part: 0,
        frac: 0,
        frac_digits: 0,
        digits: false,
        dot: false,
        ok: true,
    };
    let mut i: usize = 0;
    while i < t.len()
        invariant
            i <= t@.len(),
            scan_decimal(t@, i as int, st) == spec_decimal_of(t@),
            st.int_part <= DECIMAL_CAP,
            st.frac_digits <= MAX_FRACTION_DIGITS,
            st.frac < pow10(st.frac_digits as nat),
        decreases t@.len() - i,
    {
        let c = t[i];
        let first = i == 0;
        if !st.ok {
        } else if first && (c == '+' || c == '-') {
            st.neg = c == '-';
        } else if '0' <= c && c <= '9' {
            let d: u64 = (c as u32 - '0' as u32) as u64;
            if st.dot {
                if st.frac_digits < MAX_FRACTION_DIGITS {
                    proof {
                        assert(pow10((st.frac_digits + 1) as nat) == 10 * pow10(st.frac_digits as nat));
                        assert(st.frac * 10 + d < 10 * pow10(st.frac_digits as nat)) by (nonlinear_arith)
                            requires
                                st.frac < pow10(st.frac_digits as nat),
                                d < 10,
                        ;
                        lemma_pow10_bound(st.frac_digits);
                    }
                    st.frac = st.frac * 10 + d;
                    st.frac_digits = st.frac_digits + 1;
                }
                st.digits = true;
            } else {
                let v: u64 = st.int_part * 10 + d;
                st.int_part = if v > DECIMAL_CAP {
                    DECIMAL_CAP
                } else {
                    v
                };
                st.digits = true;
            }
        } else if c == '.' && !st.dot {
            st.dot = true;
        } else {
            st.ok = false;
        }
        i = i + 1;
    }
    st
}

proof fn lemma_pow10_bound(n: u32)
    requires
        n < MAX_FRACTION_DIGITS,
    ensures
        pow10(n as nat) <= 100_000_000,
    decreases n,
{
    reveal_with_fuel(pow10, 10);
}

/// The decimal `d` as a count of `10^-k` units, `k` its fraction digits.
pub open spec fn decimal_units(d: Decimal) -> int {
    d.int_part * pow10(d.frac_digits as nat) + d.frac
}

/// Whether `d` is below zero.
pub open spec fn decimal_negative(d: Decimal) -> bool {
    d.neg && decimal_units(d) > 0
}

/// `v` in units of `10^-dp`, as text with `dp` fraction digits.
pub open spec fn fixed_text(v: u16, dp: u8) -> Seq<char> {
    if dp == 0 {
        spec_decimal(v as nat)
    } else {
        spec_decimal((v / 10) as nat) + "."@ + spec_decimal((v % 10) as nat)
    }
}

/// The error for a duration outside `min` to `max`, in units of `10^-dp` milliseconds.
pub open spec fn duration_error(min: u16, max: u16, dp: u8) -> Seq<char> {
    "Invalid duration; only "@ + fixed_text(min, dp) + " to "@ + fixed_text(max, dp)
        + " milliseconds are valid"@
}

/// The duration the text `t` gives, in units of `10^-dp` milliseconds with the rest
/// dropped, where it is a number from `min` to `max` of those units. With no fraction
/// digits allowed (`dp` 0), the text is a whole number.
pub open spec fn spec_parse_duration(t: Seq<char>, min: u16, max: u16, dp: u8) -> Option<u16> {
    let d = spec_decimal_of(t);
    if dp == 0 {
        if decimal_valid(d) && !d.dot && !d.neg && d.int_part <= 0xffff && min <= d.int_part <= max {
            Some(d.int_part as u16)
        } else {
            None
        }
    } else {
        let k: int = pow10(d.frac_digits as nat) as int;
        let scaled: int = decimal_units(d) * pow10(dp as nat);
        if decimal_valid(d) && !decimal_negative(d) && min * k <= scaled <= max * k {
            Some((scaled / k) as u16)
        } else {
            None
        }
    }
}

/// Appends `v` in units of `10^-dp` to `s`, with `dp` fraction digits.
fn push_fixed(s: &mut String, v: u16, dp: u8)
    requires
        dp <= 1,
    ensures
        final(s)@ == old(s)@ + fixed_text(v, dp),
{
    if dp == 0 {
        push_decimal(s, v as u32);
    } else {
        push_decimal(s, (v / 10) as u32);
        s.append(".");
        push_decimal(s, (v % 10) as u32);
        assert(final(s)@ =~= old(s)@ + fixed_text(v, dp));
    }
}

/// The error message for a duration outside `min` to `max`.
pub fn duration_error_text(min: u16, max: u16, dp: u8) -> (r: String)
    requires
        dp <= 1,
    ensures
        r@ == duration_error(min, max, dp),
{
    let mut s = String::from_str("Invalid duration; only ");
    push_fixed(&mut s, min, dp);
    s.append(" to ");
    push_fixed(&mut s, max, dp);
    s.append(" milliseconds are valid");
    assert(s@ =~= duration_error(min, max, dp));
    s
}

/// Reads a duration from `t`: a whole number of milliseconds (`dp` 0) or milliseconds with
/// one fraction digit kept (`dp` 1), which must lie from `min` to `max` such units.
pub fn parse_duration_chars(t: &[char], min: u16, max: u16, dp: u8) -> (r: Result<u16, String>)
    requires
        dp <= 1,
    ensures
        r matches Ok(v) ==> spec_parse_duration(t@, min, max, dp) == Some(v),
        r matches Err(e) ==> spec_parse_duration(t@, min, max, dp) is None && e@ == duration_error(
            min,
            max,
            dp,
        ),
{
    let d = decimal_of(t);
    if dp == 0 {
        if d.ok && d.digits && !d.dot && !d.neg && d.int_part <= 0xffff && min as u64 <= d.int_part
            && d.int_part <= max as u64 {
            return Ok(d.int_part as u16);
        }
    } else {
        let k = pow10_exec(d.frac_digits);
        proof {
            assert(pow10(1) == 10) by {
                reveal_with_fuel(pow10, 2);
            }
            assert(d.int_part * k <= DECIMAL_CAP * 1_000_000_000) by (nonlinear_arith)
                requires
                    d.int_part <= DECIMAL_CAP,
                    k <= 1_000_000_000,
            ;
            assert(min * k <= 0xffff * 1_000_000_000 && max * k <= 0xffff * 1_000_000_000) by (nonlinear_arith)
                requires
                    k <= 1_000_000_000,
            ;
        }
        let units: u128 = d.int_part as u128 * k as u128 + d.frac as u128;
        let scaled: u128 = units * 10;
        let negative = d.neg && units > 0;
        if d.ok && d.digits && !negative && min as u128 * k as u128 <= scaled && scaled <= max as u128
            * k as u128 {
            proof {
                assert(scaled / (k as u128) <= max as int) by (nonlinear_arith)
                    requires
                        scaled <= max * k,
                        k >= 1,
                ;
            }
            return Ok((scaled / k as u128) as u16);
        }
    }
    Err(duration_error_text(min, max, dp))
}

/// Reads a duration from `text`; see `parse_duration_chars`.
pub fn parse_duration(text: &str, min: u16, max: u16, dp: u8) -> (r: Result<u16, String>)
    requires
        dp <= 1,
    ensures
        r matches Ok(v) ==> spec_parse_duration(text@, min, max, dp) == Some(v),
        r matches Err(e) ==> spec_parse_duration(text@, min, max, dp) is None && e@
            == duration_error(min, max, dp),
{
    let t = str_chars(text);
    parse_duration_chars(t.as_slice(), min, max, dp)
}

/// The compressed key settle time for the settle time `t` in milliseconds, if it lies
/// from 0 to 25000: the count of `39063 / 1024` microsecond steps that covers it, as a
/// 16-bit number.
pub open spec fn spec_parse_key_settle_time(t: Seq<char>) -> Option<u16> {
    let d = spec_decimal_of(t);
    let k: int = pow10(d.frac_digits as nat) as int;
    let units: int = decimal_units(d);
    if decimal_valid(d) && !decimal_negative(d) && units <= 25000 * k {
        let b: int = 39063 * k;
        Some((((units * 1024000 + b - 1) / b) % 0x10000) as u16)
    } else {
        None
    }
}

/// Compresses the key settle time `text`, in milliseconds, to the steps that
/// `key_settle_time_uncompress` expands.
pub fn parse_key_settle_time(text: &str) -> (r: Result<u16, String>)
    ensures
        r matches Ok(v) ==> spec_parse_key_settle_time(text@) == Some(v),
        r matches Err(e) ==> spec_parse_key_settle_time(text@) is None && e@ == duration_error(
            0,
            25000,
            0,
        ),
{
    let t = str_chars(text);
    let d = decimal_of(t.as_slice());
    let k = pow10_exec(d.frac_digits);
    proof {
        assert(d.int_part * k <= DECIMAL_CAP * 1_000_000_000) by (nonlinear_arith)
            requires
                d.int_part <= DECIMAL_CAP,
                k <= 1_000_000_000,
        ;
    }
    let units: u128 = d.int_part as u128 * k as u128 + d.frac as u128;
    let negative = d.neg && units > 0;
    if d.ok && d.digits && !negative && units <= 25000 * k as u128 {
        let b: u128 = 39063 * k as u128;
        let steps: u128 = (units * 1024000 + b - 1) / b;
        return Ok((steps % 0x10000) as u16);
    }
    Err(duration_error_text(0, 25000, 0))
}

} // verus!
