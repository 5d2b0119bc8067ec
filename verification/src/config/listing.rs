//! Listing key names: which names a listing shows, limited by a class of code and by a
//! pattern, in which order, and how names that share a code are grouped.
use std::num::ParseIntError;
use vstd::prelude::*;

use crate::config::keycodes::{key_table, keycodes_iter, KeycodeDescriptor};
use crate::config::text::{str_chars, to_lowercase, unicode_lowercase};
use crate::key_range::{
    BASIC_MAX, CONSUMER_MAX, CONSUMER_MIN, FIRMWARE_MIN, MOUSE_MAX, MOUSE_MIN, SYS_CTL_MAX,
    SYS_CTL_MIN,
};

verus! {

broadcast use vstd::string::group_string_axioms;

/// The classes of key code that a listing can be limited to.
#[derive(Debug, Clone, Copy, PartialEq, Eq, Structural)]
pub enum CodeType {
    Basic,
    Consumer,
    System,
    Mouse,
    Custom,
}

/// Whether `code` belongs to the class `t`; every code belongs to no class given.
pub open spec fn spec_in_code_type(t: Option<CodeType>, code: u16) -> bool {
    match t {
        None => true,
        Some(CodeType::Basic) => code <= BASIC_MAX,
        Some(CodeType::Consumer) => CONSUMER_MIN <= code <= CONSUMER_MAX,
        Some(CodeType::System) => SYS_CTL_MIN <= code <= SYS_CTL_MAX,
        Some(CodeType::Mouse) => MOUSE_MIN <= code <= MOUSE_MAX,
        Some(CodeType::Custom) => code >= FIRMWARE_MIN,
    }
}

/// Whether `code` belongs to the class `t`.
pub fn in_code_type(t: Option<CodeType>, code: u16) -> (r: bool)
    ensures
        r == spec_in_code_type(t, code),
{
    match t {
        None => true,
        Some(CodeType::Basic) => code <= BASIC_MAX,
        Some(CodeType::Consumer) => CONSUMER_MIN <= code && code <= CONSUMER_MAX,
        Some(CodeType::System) => SYS_CTL_MIN <= code && code <= SYS_CTL_MAX,
        Some(CodeType::Mouse) => MOUSE_MIN <= code && code <= MOUSE_MAX,
        Some(CodeType::Custom) => code >= FIRMWARE_MIN,
    }
}

/// Whether `p` occurs in `s` as a run of consecutive characters.
pub open spec fn has_substring(s: Seq<char>, p: Seq<char>) -> bool {
    exists|i: int| 0 <= i && i + p.len() <= s.len() && #[trigger] s.subrange(i, i + p.len()) == p
}

/// Whether `p` occurs in `s` starting at `i`.
fn occurs_at(s: &[char], p: &[char], i: usize) -> (r: bool)
    requires
        i + p@.len() <= s@.len(),
    ensures
        r == (s@.subrange(i as int, i + p@.len()) == p@),
{
    let mut j: usize = 0;
    let sl = s.len();
    while j < p.len()
        invariant
            sl == s@.len(),
            i + p@.len() <= s@.len(),
            j <= p@.len(),
            forall|k: int| 0 <= k < j ==> s@[i + k] == p@[k],
        decreases p@.len() - j,
    {
        if s[i + j] != p[j] {
            assert(s@.subrange(i as int, i + p@.len())[j as int] != p@[j as int]);
            return false;
        }
        j = j + 1;
    }
    assert(s@.subrange(i as int, i + p@.len()) =~= p@);
    true
}

/// Whether `p` occurs in `s`, as `str::contains` finds it.
pub fn contains_chars(s: &[char], p: &[char]) -> (r: bool)
    ensures
        r == has_substring(s@, p@),
{
    if p.len() > s.len() {
        return false;
    }
    let last = s.len() - p.len();
    let mut i: usize = 0;
    while i <= last
        invariant
            last == s@.len() - p@.len(),
            i <= last,
            forall|k: int| 0 <= k < i ==> #[trigger] s@.subrange(k, k + p@.len()) != p@,
        ensures
            forall|k: int| 0 <= k <= last ==> #[trigger] s@.subrange(k, k + p@.len()) != p@,
        decreases last + 1 - i,
    {
        if occurs_at(s, p, i) {
            return true;
        }
        if i == last {
            break;
        }
        i = i + 1;
    }
    assert forall|k: int| 0 <= k && k + p@.len() <= s@.len() implies #[trigger] s@.subrange(k, k + p@.len()) != p@ by {
        assert(k <= last);
    }
    false
}

/// The value of the hexadecimal digit `c`, of either case.
pub open spec fn hex_digit(c: char) -> Option<int> {
    if '0' <= c <= '9' {
        Some(c as int - '0' as int)
    } else if 'a' <= c <= 'f' {
        Some(c as int - 'a' as int + 10)
    } else if 'A' <= c <= 'F' {
        Some(c as int - 'A' as int + 10)
    } else {
        None
    }
}

/// The value of the hexadecimal digits `s`, most significant first.
pub open spec fn hex_digits(s: Seq<char>) -> Option<int>
    decreases s.len(),
{
    if s.len() == 0 {
        Some(0)
    } else {
        match (hex_digits(s.drop_last()), hex_digit(s.last())) {
            (Some(high), Some(d)) => Some(high * 16 + d),
            _ => None,
        }
    }
}

/// The number that `u16::from_str_radix` reads from `s` in base 16: an optional `+`, then
/// one or more hexadecimal digits whose value fits in 16 bits.
pub open spec fn spec_hex_u16(s: Seq<char>) -> Option<u16> {
    let digits = if s.len() > 0 && s[0] == '+' {
        s.drop_first()
    } else {
        s
    };
    if digits.len() == 0 {
        None
    } else {
        match hex_digits(digits) {
            Some(v) => if v < 0x10000 {
                Some(v as u16)
            } else {
                None
            },
            None => None,
        }
    }
}

/// The error of std's integer parsing, carried through as it is.
#[verifier::external_type_specification]
#[verifier::external_body]
pub struct ExParseIntError(std::num::ParseIntError);

/// `u16::from_str_radix` of std in base 16, on the characters `s`. Its documentation has
/// it accept an optional `+` followed by digits of the base, either case, and fail on
/// anything else, on no digits and on a value that does not fit.
#[verifier::external_body]
pub(crate) fn u16_from_hex(s: &[char]) -> (r: Result<u16, ParseIntError>)
    ensures
        r is Ok <==> spec_hex_u16(s@) is Some,
        r matches Ok(v) ==> spec_hex_u16(s@) == Some(v),
{
    let text: String = s.iter().collect();
    u16::from_str_radix(&text, 16)
}

/// Whether `p`, already in lower case, asks for a key code in hexadecimal.
pub open spec fn hex_pattern(p: Seq<char>) -> bool {
    p.len() >= 2 && p[0] == '0' && p[1] == 'x'
}

/// The pattern's characters, where a pattern is given.
pub open spec fn pattern_view(pattern: Option<&str>) -> Option<Seq<char>> {
    match pattern {
        Some(p) => Some(p@),
        None => None,
    }
}

/// Whether a listing refuses `pattern`: it asks for a code in hexadecimal that does not
/// read as one.
pub open spec fn pattern_fails(pattern: Option<Seq<char>>) -> bool {
    match pattern {
        Some(p) => hex_pattern(unicode_lowercase(p)) && spec_hex_u16(
            unicode_lowercase(p).skip(2),
        ) is None,
        None => false,
    }
}

/// Whether the table entry `e` is listed for the class `t` and the pattern: a pattern
/// `0x..` picks the code it spells; any other picks the names that hold it, case aside.
pub open spec fn entry_listed(e: (Seq<char>, u16), t: Option<CodeType>, pattern: Option<Seq<char>>) -> bool {
    &&& spec_in_code_type(t, e.1)
    &&& match pattern {
        None => true,
        Some(p) => if hex_pattern(unicode_lowercase(p)) {
            spec_hex_u16(unicode_lowercase(p).skip(2)) == Some(e.1)
        } else {
            has_substring(unicode_lowercase(e.0), unicode_lowercase(p))
        },
    }
}

/// The indices below `n` of the entries of `table` that are listed, in table order.
pub open spec fn listed(
    table: Seq<(Seq<char>, u16)>,
    t: Option<CodeType>,
    pattern: Option<Seq<char>>,
    n: int,
) -> Seq<usize>
    decreases n,
{
    if n <= 0 {
        Seq::empty()
    } else if entry_listed(table[n - 1], t, pattern) {
        listed(table, t, pattern, n - 1).push((n - 1) as usize)
    } else {
        listed(table, t, pattern, n - 1)
    }
}

/// Whether `a` comes before `b` when both are compared from position `i` on, character by
/// character, a proper prefix first.
pub open spec fn less_from(a: Seq<char>, b: Seq<char>, i: int) -> bool
    decreases a.len() - i,
{
    if i >= a.len() {
        i < b.len()
    } else if i >= b.len() {
        false
    } else if a[i] != b[i] {
        a[i] < b[i]
    } else {
        less_from(a, b, i + 1)
    }
}

/// Whether the name `a` sorts before the name `b`, as `str`'s order has it.
pub open spec fn name_less(a: Seq<char>, b: Seq<char>) -> bool {
    less_from(a, b, 0)
}

/// Whether the entry `x` sorts before the entry `y`: by code then name, or by name alone.
pub open spec fn entry_less(x: (Seq<char>, u16), y: (Seq<char>, u16), by_code: bool) -> bool {
    if by_code {
        x.1 < y.1 || (x.1 == y.1 && name_less(x.0, y.0))
    } else {
        name_less(x.0, y.0)
    }
}

/// Whether the indices `s` into `table` are in order, and entries that neither sort before
/// the other keep their table order.
pub open spec fn ordered(table: Seq<(Seq<char>, u16)>, s: Seq<usize>, by_code: bool) -> bool {
    forall|i: int, j: int|
        0 <= i < j < s.len() ==> !entry_less(
            #[trigger] table[s[j] as int],
            #[trigger] table[s[i] as int],
            by_code,
        ) && (!entry_less(table[s[i] as int], table[s[j] as int], by_code) ==> s[i] < s[j])
}

/// Sorting before is transitive.
proof fn lemma_less_from_trans(a: Seq<char>, b: Seq<char>, c: Seq<char>, i: int)
    requires
        0 <= i,
        less_from(a, b, i),
        less_from(b, c, i),
    ensures
        less_from(a, c, i),
    decreases a.len() - i,
{
    if i < a.len() && i < b.len() && i < c.len() && a[i] == b[i] && b[i] == c[i] {
        lemma_less_from_trans(a, b, c, i + 1);
    }
}

/// Of three names, where `a` sorts before `b`, `c` sorts after `a` or before `b`.
proof fn lemma_less_from_split(a: Seq<char>, b: Seq<char>, c: Seq<char>, i: int)
    requires
        0 <= i,
        less_from(a, b, i),
    ensures
        less_from(a, c, i) || less_from(c, b, i),
    decreases a.len() - i,
{
    if i < a.len() && i < b.len() && i < c.len() && a[i] == b[i] && b[i] == c[i] {
        lemma_less_from_split(a, b, c, i + 1);
    }
}

/// Sorting entries before is transitive, and splits any third entry.
proof fn lemma_entry_less(x: (Seq<char>, u16), y: (Seq<char>, u16), z: (Seq<char>, u16), by_code: bool)
    requires
        entry_less(x, y, by_code),
    ensures
        entry_less(y, z, by_code) ==> entry_less(x, z, by_code),
        entry_less(x, z, by_code) || entry_less(z, y, by_code),
{
    if entry_less(y, z, by_code) && (!by_code || (x.1 == y.1 && y.1 == z.1)) {
        lemma_less_from_trans(x.0, y.0, z.0, 0);
    }
    if !by_code || (x.1 == y.1 && y.1 == z.1) || (x.1 == z.1 && x.1 == y.1) {
        lemma_less_from_split(x.0, y.0, z.0, 0);
    } else if by_code && x.1 == y.1 {
        lemma_less_from_split(x.0, y.0, z.0, 0);
    }
}

/// No name sorts before itself.
proof fn lemma_less_from_irrefl(a: Seq<char>, i: int)
    requires
        0 <= i,
    ensures
        !less_from(a, a, i),
    decreases a.len() - i,
{
    if i < a.len() {
        lemma_less_from_irrefl(a, i + 1);
    }
}

/// No entry sorts before itself.
proof fn lemma_entry_irrefl(x: (Seq<char>, u16), by_code: bool)
    ensures
        !entry_less(x, x, by_code),
{
    lemma_less_from_irrefl(x.0, 0);
}

/// Whether the name `a` sorts before the name `b`.
fn name_less_exec(a: &[char], b: &[char]) -> (r: bool)
    ensures
        r == name_less(a@, b@),
{
    let mut i: usize = 0;
    while i < a.len() && i < b.len()
        invariant
            i <= a@.len(),
            i <= b@.len(),
            less_from(a@, b@, 0) == less_from(a@, b@, i as int),
        decreases a@.len() - i,
    {
        if a[i] != b[i] {
            return a[i] < b[i];
        }
        i = i + 1;
    }
    i < b.len()
}

/// Whether the entry `x` sorts before the entry `y`.
fn entry_less_exec(x: &KeycodeDescriptor, y: &KeycodeDescriptor, by_code: bool) -> (r: bool)
    ensures
        r == entry_less((x.name@, x.code), (y.name@, y.code), by_code),
{
    if by_code && x.code != y.code {
        return x.code < y.code;
    }
    let a = str_chars(x.name);
    let b = str_chars(y.name);
    name_less_exec(a.as_slice(), b.as_slice())
}

/// The descriptors of `table` as entries.
pub open spec fn entries(table: Seq<KeycodeDescriptor>) -> Seq<(Seq<char>, u16)> {
    Seq::new(table.len(), |k: int| (table[k].name@, table[k].code))
}

/// Inserting into a sequence adds one to what it holds.
proof fn lemma_insert_multiset(s: Seq<usize>, p: int, x: usize)
    requires
        0 <= p <= s.len(),
    ensures
        s.insert(p, x).to_multiset() =~= s.to_multiset().insert(x),
{
    broadcast use vstd::seq_lib::group_to_multiset_ensures;

    let t = s.insert(p, x);
    assert(t.remove(p) =~= s);
    assert(t.contains(x)) by {
        assert(t[p] == x);
    }
}

/// The indices into the key table of the names that a listing shows: those of class
/// `code_type` that match `pattern`, sorted by code then name where `sort_by_keycode` is
/// set and else by name, names that sort alike in table order. A pattern that starts with
/// `0x` (case aside) asks for the code it spells in hexadecimal, and is refused where it
/// does not read as one; any other asks for the names that hold it, case aside.
pub fn listed_keycodes(code_type: Option<CodeType>, pattern: Option<&str>, sort_by_keycode: bool) -> (r:
    Result<Vec<usize>, ParseIntError>)
    ensures
        r is Err <==> pattern_fails(pattern_view(pattern)),
        r matches Ok(s) ==> {
            &&& s@.to_multiset() == listed(
                key_table(),
                code_type,
                pattern_view(pattern),
                key_table().len() as int,
            ).to_multiset()
            &&& ordered(key_table(), s@, sort_by_keycode)
        },
{
    let all = keycodes_iter();
    let ghost table = key_table();
    proof {
        assert(entries(all@) =~= table);
    }
    let lowered: Option<Vec<char>> = match pattern {
        Some(p) => Some(to_lowercase(p)),
        None => None,
    };
    let mut hex: Option<u16> = None;
    if let Some(lp) = &lowered {
        if lp.len() >= 2 && lp[0] == '0' && lp[1] == 'x' {
            let mut digits: Vec<char> = Vec::new();
            let mut k: usize = 2;
            while k < lp.len()
                invariant
                    2 <= k <= lp@.len(),
                    digits@ == lp@.subrange(2, k as int),
                decreases lp@.len() - k,
            {
                digits.push(lp[k]);
                k = k + 1;
            }
            assert(digits@ =~= lp@.skip(2));
            hex = Some(u16_from_hex(digits.as_slice())?);
        }
    }
    // The listed indices, in table order.
    let mut picked: Vec<usize> = Vec::new();
    let mut i: usize = 0;
    while i < all.len()
        invariant
            entries(all@) == table,
            table == key_table(),
            i <= all@.len(),
            picked@ == listed(table, code_type, pattern_view(pattern), i as int),
            forall|k: int| 0 <= k < picked@.len() ==> picked@[k] < i,
            forall|a: int, b: int| 0 <= a < b < picked@.len() ==> picked@[a] < picked@[b],
            match pattern {
                Some(p) => lowered matches Some(lp) && lp@ == unicode_lowercase(p@) && (hex_pattern(lp@)
                    ==> hex is Some && hex == spec_hex_u16(lp@.skip(2))) && (!hex_pattern(lp@) ==> hex is None),
                None => lowered is None,
            },
        decreases all@.len() - i,
    {
        let d = &all[i];
        assert(table[i as int] == (d.name@, d.code));
        let mut keep = in_code_type(code_type, d.code);
        if keep {
            if let Some(lp) = &lowered {
                if let Some(h) = hex {
                    keep = d.code == h;
                } else {
                    let name = to_lowercase(d.name);
                    keep = contains_chars(name.as_slice(), lp.as_slice());
                }
            }
        }
        assert(keep == entry_listed(table[i as int], code_type, pattern_view(pattern)));
        if keep {
            picked.push(i);
        }
        i = i + 1;
    }
    // Insertion of each picked index after every index that does not sort after it.
    let mut sorted: Vec<usize> = Vec::new();
    let mut n: usize = 0;
    assert(sorted@ =~= picked@.subrange(0, 0));
    while n < picked.len()
        invariant
            entries(all@) == table,
            n <= picked@.len(),
            forall|k: int| 0 <= k < picked@.len() ==> picked@[k] < all@.len(),
            forall|a: int, b: int| 0 <= a < b < picked@.len() ==> picked@[a] < picked@[b],
            sorted@.to_multiset() == picked@.subrange(0, n as int).to_multiset(),
            forall|k: int| 0 <= k < sorted@.len() ==> sorted@[k] < all@.len(),
            n < picked@.len() ==> forall|k: int| 0 <= k < sorted@.len() ==> sorted@[k] < picked@[n as int],
            ordered(table, sorted@, sort_by_keycode),
        decreases picked@.len() - n,
    {
        let x = picked[n];
        let mut p: usize = 0;
        while p < sorted.len()
            invariant
                entries(all@) == table,
                p <= sorted@.len(),
                x < all@.len(),
                forall|k: int| 0 <= k < sorted@.len() ==> sorted@[k] < all@.len(),
                forall|k: int| 0 <= k < p ==> !entry_less(table[x as int], #[trigger] table[sorted@[k] as int], sort_by_keycode),
            ensures
                p <= sorted@.len(),
                forall|k: int| 0 <= k < p ==> !entry_less(table[x as int], #[trigger] table[sorted@[k] as int], sort_by_keycode),
                p < sorted@.len() ==> entry_less(table[x as int], table[sorted@[p as int] as int], sort_by_keycode),
            decreases sorted@.len() - p,
        {
            if entry_less_exec(&all[x], &all[sorted[p]], sort_by_keycode) {
                break;
            }
            p = p + 1;
        }
        let ghost before = sorted@;
        sorted.insert(p, x);
        proof {
            let t = sorted@;
            assert(t =~= before.insert(p as int, x));
            assert forall|i: int, j: int| 0 <= i < j < t.len() implies !entry_less(
                #[trigger] table[t[j] as int],
                #[trigger] table[t[i] as int],
                sort_by_keycode,
            ) && (!entry_less(table[t[i] as int], table[t[j] as int], sort_by_keycode) ==> t[i] < t[j]) by {
                if j < p {
                    assert(t[i] == before[i] && t[j] == before[j]);
                } else if j == p {
                    assert(t[i] == before[i] && t[j] == x);
                } else if i == p {
                    let y = table[before[j - 1] as int];
                    let q = table[before[p as int] as int];
                    let e = table[x as int];
                    assert(t[i] == x && t[j] == before[j - 1]);
                    lemma_entry_irrefl(q, sort_by_keycode);
                    lemma_entry_irrefl(e, sort_by_keycode);
                    lemma_entry_less(e, q, y, sort_by_keycode);
                    if entry_less(y, e, sort_by_keycode) {
                        lemma_entry_less(e, y, e, sort_by_keycode);
                    }
                } else if i < p {
                    assert(t[i] == before[i] && t[j] == before[j - 1]);
                } else {
                    assert(t[i] == before[i - 1] && t[j] == before[j - 1]);
                }
            }
            assert forall|k: int| 0 <= k < t.len() implies #[trigger] t[k] < all@.len() && t[k] <= x by {
                if k < p {
                    assert(t[k] == before[k]);
                } else if k > p {
                    assert(t[k] == before[k - 1]);
                }
            }
            lemma_insert_multiset(before, p as int, x);
            assert(picked@.subrange(0, n + 1) =~= picked@.subrange(0, n as int).push(x));
            picked@.subrange(0, n as int).to_multiset_ensures();
        }
        n = n + 1;
    }
    assert(picked@.subrange(0, n as int) =~= picked@);
    Ok(sorted)
}

/// The names that a listing shows, with their codes: those that `listed_keycodes` picks, in
/// its order. A pattern that does not read as the hexadecimal code it asks for is refused.
pub fn list_keycodes(code_type: Option<CodeType>, pattern: Option<&str>, sort_by_keycode: bool) -> (r:
    Result<Vec<KeycodeDescriptor>, ParseIntError>)
    ensures
        r is Err <==> pattern_fails(pattern_view(pattern)),
        r matches Ok(v) ==> exists|s: Seq<usize>|
            {
                &&& s.to_multiset() == listed(
                    key_table(),
                    code_type,
                    pattern_view(pattern),
                    key_table().len() as int,
                ).to_multiset()
                &&& ordered(key_table(), s, sort_by_keycode)
                &&& s.len() == v@.len()
                &&& forall|k: int| 0 <= k < s.len() ==> entries(v@)[k] == #[trigger] key_table()[s[k] as int]
            },
{
    let picked = listed_keycodes(code_type, pattern, sort_by_keycode)?;
    let all = keycodes_iter();
    let count = all.len();
    proof {
        assert(entries(all@) =~= key_table());
        broadcast use vstd::seq_lib::group_to_multiset_ensures;

        assert forall|k: int| 0 <= k < picked@.len() implies picked@[k] < all@.len() by {
            assert(picked@.to_multiset().count(picked@[k]) > 0);
            let l = listed(key_table(), code_type, pattern_view(pattern), key_table().len() as int);
            assert(l.contains(picked@[k]));
            lemma_listed_below(key_table(), code_type, pattern_view(pattern), key_table().len() as int);
        }
    }
    let mut out: Vec<KeycodeDescriptor> = Vec::new();
    let mut i: usize = 0;
    while i < picked.len()
        invariant
            entries(all@) == key_table(),
            i <= picked@.len(),
            out@.len() == i,
            forall|k: int| 0 <= k < picked@.len() ==> picked@[k] < all@.len(),
            forall|k: int| 0 <= k < i ==> entries(out@)[k] == #[trigger] key_table()[picked@[k] as int],
        decreases picked@.len() - i,
    {
        out.push(all[picked[i]]);
        proof {
            assert(entries(out@)[i as int] == entries(all@)[picked@[i as int] as int]);
        }
        i = i + 1;
    }
    Ok(out)
}

/// Every index that `listed` gives lies below its bound.
proof fn lemma_listed_below(
    table: Seq<(Seq<char>, u16)>,
    t: Option<CodeType>,
    pattern: Option<Seq<char>>,
    n: int,
)
    requires
        n <= usize::MAX,
    ensures
        forall|x: usize| listed(table, t, pattern, n).contains(x) ==> x < n,
    decreases n,
{
    if n > 0 {
        lemma_listed_below(table, t, pattern, n - 1);
        let l = listed(table, t, pattern, n - 1);
        let m = l.push((n - 1) as usize);
        assert forall|x: usize| #[trigger] m.contains(x) implies x < n by {
            if x != (n - 1) as usize {
                let k = choose|k: int| 0 <= k < m.len() && #[trigger] m[k] == x;
                assert(l[k] == x);
                assert(l.contains(x));
            }
        }
    }
}

/// The names `names` with the code `code` they share, as entries.
pub open spec fn run(code: u16, names: Seq<&'static str>) -> Seq<(Seq<char>, u16)> {
    Seq::new(names.len(), |k: int| (names[k]@, code))
}

/// The entries of the groups `gs`, group after group.
pub open spec fn group_entries(gs: Seq<(u16, Vec<&'static str>)>) -> Seq<(Seq<char>, u16)>
    decreases gs.len(),
{
    if gs.len() == 0 {
        Seq::empty()
    } else {
        group_entries(gs.drop_last()) + run(gs.last().0, gs.last().1@)
    }
}

/// The names of `codes` grouped in runs that share a code: each group holds at least one
/// name, two groups in a row have different codes, and the groups in turn hold `codes`.
pub fn group_by_code(codes: &Vec<KeycodeDescriptor>) -> (r: Vec<(u16, Vec<&'static str>)>)
    ensures
        group_entries(r@) == entries(codes@),
        forall|g: int| 0 <= g < r@.len() ==> (#[trigger] r@[g]).1@.len() > 0,
        forall|g: int| 0 < g < r@.len() ==> (#[trigger] r@[g]).0 != r@[g - 1].0,
{
    let mut groups: Vec<(u16, Vec<&'static str>)> = Vec::new();
    let mut cur: Vec<&'static str> = Vec::new();
    let mut prev: u16 = 0;
    let mut i: usize = 0;
    while i < codes.len()
        invariant
            i <= codes@.len(),
            group_entries(groups@) + run(prev, cur@) == entries(codes@.subrange(0, i as int)),
            i > 0 ==> cur@.len() > 0,
            i == 0 ==> cur@.len() == 0 && groups@.len() == 0,
            forall|g: int| 0 <= g < groups@.len() ==> (#[trigger] groups@[g]).1@.len() > 0,
            forall|g: int| 0 < g < groups@.len() ==> (#[trigger] groups@[g]).0 != groups@[g - 1].0,
            groups@.len() > 0 ==> groups@.last().0 != prev,
        decreases codes@.len() - i,
    {
        let d = codes[i];
        if cur.len() > 0 && d.code != prev {
            let ghost old_groups = groups@;
            let done = cur;
            cur = Vec::new();
            groups.push((prev, done));
            proof {
                assert(groups@.drop_last() =~= old_groups);
                assert(run(prev, cur@) =~= Seq::empty());
            }
        }
        let ghost before = run(prev, cur@);
        prev = d.code;
        proof {
            if cur@.len() > 0 {
                assert(run(prev, cur@) == before);
            }
        }
        cur.push(d.name);
        proof {
            assert(codes@.subrange(0, i + 1) =~= codes@.subrange(0, i as int).push(d));
            assert(entries(codes@.subrange(0, i + 1)) =~= entries(codes@.subrange(0, i as int)).push((d.name@, d.code)));
            assert(run(prev, cur@) =~= run(prev, cur@.drop_last()).push((d.name@, d.code)));
            assert(cur@.drop_last() =~= cur@.subrange(0, cur@.len() - 1));
        }
        i = i + 1;
    }
    if cur.len() > 0 {
        let ghost old_groups = groups@;
        groups.push((prev, cur));
        proof {
            assert(groups@.drop_last() =~= old_groups);
        }
    } else {
        proof {
            assert(run(prev, cur@) =~= Seq::empty());
        }
    }
    assert(codes@.subrange(0, i as int) =~= codes@);
    groups
}

} // verus!
