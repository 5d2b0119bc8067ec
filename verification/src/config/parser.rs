//! The parser of the config language: sections in square brackets, each a list of
//! `name = value` assignments, with `#` comments.
use vstd::prelude::*;
use core::ops::Range;
use crate::config::compiler::{
    alias_of_name, default_global, default_global_ok, is_global_name, composite_ensured, key_position, spec_key_position, AliasKey, GlobalProp, GlobalType, KeyboardConfig, MouseSetting,
    MAX_MACROS,
};
use crate::config::error::ConfigError;
use crate::config::globals::{parse_duration_chars, spec_decimal_of, spec_parse_duration};
use crate::config::keycodes::{
    action_code_chars, modifiers_to_bit_map_chars, modifiers_to_string, spec_action_code, spec_key_code,
    spec_modifiers_to_bit_map,
    unshifted_char_code, KeyTable, SHIFT_MOD,
};
use crate::config::layer::{spec_macro_binary, Macro};
use crate::config::text::{chars_eq, eq_lit, str_chars};
use crate::key_range;

verus! {

broadcast use vstd::string::group_string_axioms;

pub const TOO_MANY_RHS: &'static str = "Only one value may be assigned";
pub const TOO_MANY_MULTI_ALIAS_RHS: &'static str = "Only one value may be assigned to an multi-positioned alias";
pub const TOO_MANY_ROWS: &'static str = "Too many rows";
pub const TOO_MANY_COLS: &'static str = "Too many keys in row";
pub const UNKNOWN_ACTION: &'static str = "Unknown action/keycode";
pub const EOF: &'static str = "Unexpected end of file";

/// How deeply actions may nest in one another, as in a dual action of macros.
pub const MAX_NESTING: u32 = u32::MAX;

/// Whether `c` is white space in Unicode's terms.
pub open spec fn spec_is_whitespace(c: char) -> bool {
    ||| c == ' '
    ||| '\t' <= c <= '\r'
    ||| c == '\u{85}'
    ||| c == '\u{a0}'
    ||| c == '\u{1680}'
    ||| '\u{2000}' <= c <= '\u{200a}'
    ||| c == '\u{2028}'
    ||| c == '\u{2029}'
    ||| c == '\u{202f}'
    ||| c == '\u{205f}'
    ||| c == '\u{3000}'
}

/// Whether `c` is white space in Unicode's terms.
pub fn is_whitespace(c: char) -> (r: bool)
    ensures
        r == spec_is_whitespace(c),
{
    c == ' ' || ('\t' <= c && c <= '\r') || c == '\u{85}' || c == '\u{a0}' || c == '\u{1680}' || (
    '\u{2000}' <= c && c <= '\u{200a}') || c == '\u{2028}' || c == '\u{2029}' || c == '\u{202f}'
        || c == '\u{205f}' || c == '\u{3000}'
}

/// Whether `c` is alphabetic or numeric in Unicode's terms.
pub uninterp spec fn unicode_alphanumeric(c: char) -> bool;

/// `char::is_alphanumeric` of std: whether `c` is alphabetic or numeric, as its Unicode
/// properties say. Claimed of its result: that it is that function of `c`, and that it holds
/// of the ASCII letters and digits, which std documents as alphabetic and numeric.
#[verifier::external_body]
fn is_alphanumeric(c: char) -> (r: bool)
    ensures
        r == unicode_alphanumeric(c),
        ('a' <= c <= 'z' || 'A' <= c <= 'Z' || '0' <= c <= '9') ==> r,
{
    c.is_alphanumeric()
}

fn invalid_seq_char(c: char) -> (r: bool)
    ensures
        r == (spec_is_whitespace(c) || c == '(' || c == ')'),
{
    is_whitespace(c) || c == '(' || c == ')'
}

/// Whether `c` may not stand in the name of a section.
pub open spec fn spec_invalid_section_char(c: char) -> bool {
    c == '-' || c == '\\' || c == '.' || c == ':' || (!(c == '+' || c == '_') && !unicode_alphanumeric(c))
}

/// Whether `c` ends the name of a section.
fn invalid_section_char(c: char) -> (r: bool)
    ensures
        r == spec_invalid_section_char(c),
        ('a' <= c <= 'z' || 'A' <= c <= 'Z' || '0' <= c <= '9') ==> !r,
{
    c == '-' || c == '\\' || c == '.' || c == ':' || (!(c == '+' || c == '_') && !is_alphanumeric(c))
}

/// The closing bracket of the opening bracket `c`.
fn match_paren(c: char) -> (r: Option<(char, char)>)
    ensures
        r == (if c == '(' {
            Some(('(', ')'))
        } else if c == '[' {
            Some(('[', ']'))
        } else if c == '{' {
            Some(('{', '}'))
        } else {
            None
        }),
{
    if c == '(' {
        Some(('(', ')'))
    } else if c == '[' {
        Some(('[', ']'))
    } else if c == '{' {
        Some(('{', '}'))
    } else {
        None
    }
}

/// The characters a search stops at.
pub enum CharClass {
    NonWhitespace,
    Whitespace,
    Newline,
    NewlineOrWord,
    SectionEnd,
    Sequence,
    Argument,
    LayerEnd,
}

/// Whether the character `c` is of the class `k`.
pub open spec fn spec_class_matches(k: CharClass, c: char) -> bool {
    match k {
        CharClass::NonWhitespace => !spec_is_whitespace(c),
        CharClass::Whitespace => spec_is_whitespace(c),
        CharClass::Newline => c == '\n',
        CharClass::NewlineOrWord => c == '\n' || !spec_is_whitespace(c),
        CharClass::SectionEnd => c == ']' || c == '\n',
        CharClass::Sequence => spec_is_whitespace(c) || c == '(' || c == ')',
        CharClass::Argument => spec_is_whitespace(c) || c == '(' || c == ')' || c == ',',
        CharClass::LayerEnd => c == ')' || spec_is_whitespace(c),
    }
}

fn class_matches(k: &CharClass, c: char) -> (r: bool)
    ensures
        r == spec_class_matches(*k, c),
{
    match k {
        CharClass::NonWhitespace => !is_whitespace(c),
        CharClass::Whitespace => is_whitespace(c),
        CharClass::Newline => c == '\n',
        CharClass::NewlineOrWord => c == '\n' || !is_whitespace(c),
        CharClass::SectionEnd => c == ']' || c == '\n',
        CharClass::Sequence => invalid_seq_char(c),
        CharClass::Argument => invalid_seq_char(c) || c == ',',
        CharClass::LayerEnd => c == ')' || is_whitespace(c),
    }
}

/// An error about the source range `r`.
fn error_span(message: String, r: (usize, usize)) -> (e: ConfigError)
    ensures
        e.message@ == message@,
        e.span == Some(Range { start: r.0, end: r.1 }),
{
    ConfigError::new(message, Range { start: r.0, end: r.1 })
}

/// Where reading the source stands: the next position to read, the last character read
/// with its position, and a character put back to be read again.
pub struct SourceIter {
    pub pos: usize,
    pub current: (usize, char),
    pub next_item: Option<(usize, char)>,
    pub len: usize,
}

impl SourceIter {
    /// Reading a source of `len` characters from its start.
    pub fn new(len: usize) -> (r: Self)
        ensures
            r.pos == 0,
            r.next_item is None,
            r.len == len,
            r.current == (usize::MAX, '\0'),
    {
        SourceIter { pos: 0, current: (usize::MAX, '\0'), next_item: None, len }
    }
}

/// Where the next character read from `pos` of `s` lies: past the characters of a comment,
/// which runs from `#` to the end of its line; `in_comment` when one is open at `pos`. A
/// newline ends a comment and is read.
pub open spec fn scan_next(s: Seq<char>, pos: int, in_comment: bool) -> Option<int>
    decreases s.len() - pos,
{
    if pos < 0 || pos >= s.len() {
        None
    } else if s[pos] == '\n' {
        Some(pos)
    } else if s[pos] == '#' || in_comment {
        scan_next(s, pos + 1, true)
    } else {
        Some(pos)
    }
}

/// A character found lies at or after the place the search starts.
pub proof fn lemma_scan_next_range(s: Seq<char>, pos: int, in_comment: bool)
    ensures
        scan_next(s, pos, in_comment) matches Some(i) ==> pos <= i < s.len() && 0 <= i,
    decreases s.len() - pos,
{
    if 0 <= pos < s.len() && s[pos] != '\n' && (s[pos] == '#' || in_comment) {
        lemma_scan_next_range(s, pos + 1, true);
    }
}

/// A character found lies at or after the place the search starts.
pub proof fn lemma_find_from_range(s: Seq<char>, pos: int, in_comment: bool, k: CharClass)
    ensures
        find_from(s, pos, in_comment, k) matches Some(i) ==> pos <= i < s.len() && 0 <= i,
    decreases s.len() - pos,
{
    if 0 <= pos < s.len() {
        lemma_find_from_range(s, pos + 1, true, k);
        lemma_find_from_range(s, pos + 1, false, k);
    }
}

/// A character found is of the class searched for.
pub proof fn lemma_find_from_class(s: Seq<char>, pos: int, in_comment: bool, k: CharClass)
    ensures
        find_from(s, pos, in_comment, k) matches Some(i) ==> spec_class_matches(k, s[i]),
    decreases s.len() - pos,
{
    if 0 <= pos < s.len() {
        lemma_find_from_class(s, pos + 1, true, k);
        lemma_find_from_class(s, pos + 1, false, k);
    }
}

/// What a search finds from a parser state lies in the source and is of the class.
pub proof fn lemma_found_result<'a>(p: Parser<'a>, k: CharClass)
    requires
        p.wf(),
    ensures
        p.found_result(k) matches Some(y) ==> spec_class_matches(k, y.1),
        p.iter.next_item is None ==> (p.found_result(k) matches Some(y) ==> y.0 < p.chars@.len()
            && p.chars@[y.0 as int] == y.1),
{
    vstd::slice::axiom_spec_len(p.chars);
    lemma_find_from_class(p.chars@, p.iter.pos as int, p.iter.next_item is Some && p.iter.next_item.unwrap().1 == '#', k);
    lemma_find_from_range(p.chars@, p.iter.pos as int, p.iter.next_item is Some && p.iter.next_item.unwrap().1 == '#', k);
}

/// The bounds and decimal places of the timeout setting `name`, where it names one.
pub open spec fn timeout_bounds(name: Seq<char>) -> Option<(u16, u16, u8)> {
    if name == "overload_tap_timeout"@ || name == "dual_action_timeout"@ || name == "dual_action_timeout2"@
        || name == "tapdance_tap_timeout"@ {
        Some((0u16, 5000u16, 0u8))
    } else if name == "debounce_settle_time"@ {
        Some((1u16, 250u16, 1u8))
    } else {
        None
    }
}

/// The timeout settings are those whose defaults are timeouts, with the same bounds.
pub proof fn lemma_timeout_bounds(n: Seq<char>, g: GlobalProp)
    requires
        is_global_name(n),
        default_global_ok(n, g),
    ensures
        timeout_bounds(n) is Some <==> g.spec is Timeout,
        g.spec matches GlobalType::Timeout { min, max, dp, .. } ==> timeout_bounds(n) == Some((min, max, dp)),
{
    reveal_strlit("overload_tap_timeout");
    reveal_strlit("dual_action_timeout");
    reveal_strlit("dual_action_timeout2");
    reveal_strlit("debounce_settle_time");
    reveal_strlit("tapdance_tap_timeout");
    reveal_strlit("mouse_profile1");
    reveal_strlit("mouse_profile2");
    reveal_strlit("mouse_profile3");
    assert("overload_tap_timeout"@[0] != "debounce_settle_time"@[0]);
    assert("dual_action_timeout2"@[1] != "debounce_settle_time"@[1]);
    assert("tapdance_tap_timeout"@[0] != "debounce_settle_time"@[0]);
    assert("mouse_profile1"@[13] != "mouse_profile2"@[13]);
    assert("mouse_profile1"@[13] != "mouse_profile3"@[13]);
    assert("mouse_profile2"@[13] != "mouse_profile3"@[13]);
}

/// The hold action of a dual-action macro.
pub open spec fn spec_dual_hold(m: Macro) -> u16 {
    match m {
        Macro::DualAction(_, h) => h,
        Macro::TimedDualAction(_, h, _, _) => h,
        _ => 0,
    }
}

/// The first place of `c` in `t`.
pub open spec fn first_index(t: Seq<char>, c: char) -> Option<int> {
    if exists|k: int| 0 <= k < t.len() && t[k] == c {
        Some(choose|k: int| 0 <= k < t.len() && t[k] == c && forall|j: int| 0 <= j < k ==> t[j] != c)
    } else {
        None
    }
}

/// The byte that the decimal digits `t` spell, if they do.
pub open spec fn spec_parse_u8(t: Seq<char>) -> Option<u8> {
    let d = spec_decimal_of(t);
    if d.ok && d.digits && !d.dot && !d.neg && d.int_part <= 255 {
        Some(d.int_part as u8)
    } else {
        None
    }
}

/// The rows and columns a matrix section's suffix `rxc` gives: the number before the first
/// `x`, and the one after it up to the next `x` or the end.
pub open spec fn matrix_dims(t: Seq<char>) -> Option<(u8, u8)> {
    match first_index(t, 'x') {
        Some(k) => {
            let rest = t.subrange(k + 1, t.len() as int);
            let cols = match first_index(rest, 'x') {
                Some(j) => rest.subrange(0, j),
                None => rest,
            };
            match (spec_parse_u8(t.subrange(0, k)), spec_parse_u8(cols)) {
                (Some(r), Some(c)) => Some((r, c)),
                _ => None,
            }
        },
        None => None,
    }
}

/// A search for a character that is not white space from `pos` finds none where only white
/// space follows.
pub proof fn lemma_white_tail_finds_nothing(s: Seq<char>, pos: int)
    requires
        forall|j: int| pos <= j < s.len() ==> spec_is_whitespace(#[trigger] s[j]),
    ensures
        find_from(s, pos, false, CharClass::NonWhitespace) is None,
    decreases s.len() - pos,
{
    if 0 <= pos < s.len() {
        assert(spec_is_whitespace(s[pos]));
        assert(spec_is_whitespace('\n'));
        lemma_white_tail_finds_nothing(s, pos + 1);
    }
}

/// Whether the source `s` is a `[global]` section header with nothing but white space after
/// it.
pub open spec fn global_only(s: Seq<char>) -> bool {
    &&& s.len() >= 8
    &&& s.subrange(0, 8) == "[global]"@
    &&& blank(s.subrange(8, s.len() as int))
}

/// The characters of a source that `global_only` accepts.
proof fn lemma_global_only(s: Seq<char>)
    requires
        global_only(s),
    ensures
        s[0] == '[' && s[1] == 'g' && s[2] == 'l' && s[3] == 'o' && s[4] == 'b' && s[5] == 'a'
            && s[6] == 'l' && s[7] == ']',
        forall|i: int| 8 <= i < s.len() ==> spec_is_whitespace(#[trigger] s[i]),
        s.subrange(1, 7) == "global"@,
{
    reveal_strlit("[global]");
    reveal_strlit("global");
    assert forall|i: int| 0 <= i < 8 implies s[i] == "[global]"@[i] by {
        assert(s.subrange(0, 8)[i] == s[i]);
    }
    assert forall|i: int| 8 <= i < s.len() implies spec_is_whitespace(#[trigger] s[i]) by {
        assert(s.subrange(8, s.len() as int)[i - 8] == s[i]);
    }
    assert(s.subrange(1, 7) =~= "global"@);
}

/// Where an entry of `m` is named `name`, a first such entry is there.
pub proof fn lemma_first_match(m: Seq<(Vec<char>, GlobalProp)>, name: Seq<char>, j: int)
    requires
        0 <= j < m.len(),
        m[j].0@ == name,
    ensures
        exists|i: int| 0 <= i < m.len() && m[i].0@ == name && forall|k: int| 0 <= k < i ==> m[k].0@ != name,
    decreases j,
{
    if exists|k: int| 0 <= k < j && m[k].0@ == name {
        let k = choose|k: int| 0 <= k < j && m[k].0@ == name;
        lemma_first_match(m, name, k);
    } else {
        assert(forall|k: int| 0 <= k < j ==> m[k].0@ != name);
    }
}

/// Searching from `pos` reads the next character, and takes it or searches on after it.
pub proof fn lemma_find_via_next(s: Seq<char>, pos: int, in_comment: bool, k: CharClass)
    ensures
        match scan_next(s, pos, in_comment) {
            Some(i) => find_from(s, pos, in_comment, k) == if spec_class_matches(k, s[i]) {
                Some(i)
            } else {
                find_from(s, i + 1, false, k)
            },
            None => find_from(s, pos, in_comment, k) is None,
        },
    decreases s.len() - pos,
{
    if 0 <= pos < s.len() && s[pos] != '\n' && (s[pos] == '#' || in_comment) {
        lemma_find_via_next(s, pos + 1, true, k);
    }
}

/// Whether the characters `s` are all white space.
pub open spec fn blank(s: Seq<char>) -> bool {
    forall|i: int| 0 <= i < s.len() ==> spec_is_whitespace(#[trigger] s[i])
}

/// A search for a character that is not white space finds none in white space.
pub proof fn lemma_blank_finds_nothing(s: Seq<char>, pos: int)
    requires
        blank(s),
    ensures
        find_from(s, pos, false, CharClass::NonWhitespace) is None,
    decreases s.len() - pos,
{
    if 0 <= pos < s.len() {
        assert(spec_is_whitespace(s[pos]));
        assert(spec_is_whitespace('\n'));
        lemma_blank_finds_nothing(s, pos + 1);
    }
}

/// Where the first character of class `k` read from `pos` of `s` on lies, comments
/// skipped; `in_comment` when a comment is open at `pos`.
pub open spec fn find_from(s: Seq<char>, pos: int, in_comment: bool, k: CharClass) -> Option<int>
    decreases s.len() - pos,
{
    if pos < 0 || pos >= s.len() {
        None
    } else if s[pos] == '\n' {
        if spec_class_matches(k, '\n') {
            Some(pos)
        } else {
            find_from(s, pos + 1, false, k)
        }
    } else if s[pos] == '#' || in_comment {
        find_from(s, pos + 1, true, k)
    } else if spec_class_matches(k, s[pos]) {
        Some(pos)
    } else {
        find_from(s, pos + 1, false, k)
    }
}

/// The parser's state: the source, where reading it stands, and the configuration it
/// builds.
pub struct Parser<'a> {
    pub src: &'a str,
    pub chars: &'a [char],
    pub iter: SourceIter,
    pub config: KeyboardConfig,
    pub mark_idx: usize,
    pub table: KeyTable,
}

impl<'a> Parser<'a> {
    pub open spec fn wf(&self) -> bool {
        &&& self.chars@ == self.src@
        &&& self.iter.pos <= self.chars@.len()
        &&& self.config.wf()
        &&& self.table.wf()
    }

    /// How many characters are left to read.
    pub open spec fn remaining(&self) -> int {
        self.chars@.len() - self.iter.pos + if self.iter.next_item is Some {
            1int
        } else {
            0int
        }
    }

    /// Whether `self` came from `old` by reading on.
    pub open spec fn read_on(&self, old: &Self) -> bool {
        &&& self.wf()
        &&& self.src == old.src
        &&& self.chars == old.chars
        &&& self.remaining() <= old.remaining()
        &&& self.config.macros@.len() >= old.config.macros@.len()
        &&& self.config.layers@.len() >= old.config.layers@.len()
    }

    /// Where the search for a character of class `k` ends: past a first character read
    /// again, the place of the first such character in the source.
    pub open spec fn found_target(&self, k: CharClass) -> Option<int> {
        let first = self.iter.next_item;
        let ic = first is Some && first.unwrap().1 == '#';
        find_from(self.chars@, self.iter.pos as int, ic, k)
    }

    /// Whether a search for a character of class `k` from here finding `r` leaves the
    /// reading at `it`: a first character read again is taken when it is of the class, else
    /// the first of the class in the source, and the reading goes on after it.
    pub open spec fn found(&self, k: CharClass, r: Option<(usize, char)>, it: SourceIter) -> bool {
        let s = self.chars@;
        let first = self.iter.next_item;
        if first is Some && first.unwrap().1 != '#' && spec_class_matches(k, first.unwrap().1) {
            r == first && it.pos == self.iter.pos && it.current == first.unwrap()
        } else {
            match self.found_target(k) {
                Some(i) => r == Some((i as usize, s[i])) && it.pos == i + 1 && it.current == (i as usize, s[i]),
                None => r is None && it.pos == s.len() && it.current.0 == s.len(),
            }
        }
    }

    /// What a search for a character of class `k` from here finds; see `found`.
    pub open spec fn found_result(&self, k: CharClass) -> Option<(usize, char)> {
        let first = self.iter.next_item;
        if first is Some && first.unwrap().1 != '#' && spec_class_matches(k, first.unwrap().1) {
            first
        } else {
            match self.found_target(k) {
                Some(i) => Some((i as usize, self.chars@[i])),
                None => None,
            }
        }
    }

    /// The next character, skipping comments.
    fn next(&mut self) -> (r: Option<(usize, char)>)
        requires
            old(self).wf(),
        ensures
            final(self).read_on(old(self)),
            r is Some ==> final(self).remaining() < old(self).remaining(),
            final(self).config == old(self).config,
            final(self).mark_idx == old(self).mark_idx,
            final(self).iter.next_item is None,
            ({
                let s = old(self).chars@;
                let pos = old(self).iter.pos as int;
                if old(self).iter.next_item is Some && old(self).iter.next_item.unwrap().1 != '#' {
                    r == old(self).iter.next_item && final(self).iter.pos == pos && final(self).iter.current
                        == old(self).iter.next_item.unwrap()
                } else {
                    let ic = old(self).iter.next_item is Some;
                    match scan_next(s, pos, ic) {
                        Some(i) => r == Some((i as usize, s[i])) && final(self).iter.pos == i + 1
                            && final(self).iter.current == (i as usize, s[i]),
                        None => r is None && final(self).iter.pos == s.len() && final(self).iter.current.0 == s.len(),
                    }
                }
            }),
    {
        let mut in_comment = false;
        let ghost s = old(self).chars@;
        let ghost target = scan_next(s, old(self).iter.pos as int, old(self).iter.next_item is Some);
        proof {
            lemma_scan_next_range(s, old(self).iter.pos as int, old(self).iter.next_item is Some);
        }
        if let Some(it) = self.iter.next_item {
            self.iter.next_item = None;
            if it.1 == '#' {
                in_comment = true;
            } else {
                self.iter.current = it;
                return Some(it);
            }
        }
        loop
            invariant
                self.read_on(old(self)),
                s == self.chars@,
                target matches Some(i) ==> 0 <= i < s.len(),
                self.config == old(self).config,
                self.mark_idx == old(self).mark_idx,
                self.iter.next_item is None,
                scan_next(s, self.iter.pos as int, in_comment) == target,
                target == scan_next(old(self).chars@, old(self).iter.pos as int, old(self).iter.next_item is Some),
                old(self).iter.next_item is None || old(self).iter.next_item.unwrap().1 == '#',
            decreases self.remaining(),
        {
            if self.iter.pos >= self.chars.len() {
                self.iter.current.0 = self.chars.len();
                return None;
            }
            let i = self.iter.pos;
            let c = self.chars[i];
            self.iter.pos = self.iter.pos + 1;
            if c == '\n' {
            } else if c == '#' {
                in_comment = true;
                continue;
            } else if in_comment {
                continue;
            }
            self.iter.current = (i, c);
            return Some((i, c));
        }
    }

    /// Makes `item` the next character again.
    fn put_back(&mut self, item: (usize, char))
        requires
            old(self).wf(),
        ensures
            final(self).wf(),
            final(self).src == old(self).src,
            final(self).chars == old(self).chars,
            final(self).remaining() <= old(self).remaining() + 1,
            final(self).config == old(self).config,
            *final(self) == (Parser { iter: SourceIter { next_item: Some(item), ..old(self).iter }, ..*old(self) }),
    {
        self.iter.next_item = Some(item);
    }

    /// The next character of the class `k`.
    fn find(&mut self, k: CharClass) -> (r: Option<(usize, char)>)
        requires
            old(self).wf(),
        ensures
            final(self).read_on(old(self)),
            r is Some ==> final(self).remaining() < old(self).remaining(),
            final(self).config == old(self).config,
            final(self).mark_idx == old(self).mark_idx,
            final(self).iter.next_item is None,
            old(self).found(k, r, final(self).iter),
    {
        let ghost k0 = k;
        loop
            invariant
                self.read_on(old(self)),
                k == k0,
                self.chars == old(self).chars,
                self.config == old(self).config,
                self.mark_idx == old(self).mark_idx,
                self.iter.next_item is Some ==> self.iter == old(self).iter,
                self.iter.next_item is None ==> old(self).found_target(k) == find_from(
                    self.chars@,
                    self.iter.pos as int,
                    false,
                    k,
                ) && !(old(self).iter.next_item is Some && old(self).iter.next_item.unwrap().1 != '#'
                    && spec_class_matches(k, old(self).iter.next_item.unwrap().1)),
            decreases self.remaining(),
        {
            let ghost before = *self;
            proof {
                lemma_find_via_next(self.chars@, self.iter.pos as int, before.iter.next_item is Some, k);
            }
            match self.next() {
                Some(item) => {
                    if class_matches(&k, item.1) {
                        return Some(item);
                    }
                },
                None => {
                    return None;
                },
            }
        }
    }

    /// The bracket `close` that closes an opened `open`, skipping nested pairs.
    fn find_close_paren(&mut self, open: char, close: char) -> (r: Option<(usize, char)>)
        requires
            old(self).wf(),
        ensures
            final(self).read_on(old(self)),
            final(self).config == old(self).config,
            final(self).mark_idx == old(self).mark_idx,
            r matches Some(it) ==> it.1 == close,
    {
        let mut count: u128 = 1;
        loop
            invariant
                self.read_on(old(self)),
                self.config == old(self).config,
                self.mark_idx == old(self).mark_idx,
                1 <= count <= old(self).remaining() - self.remaining() + 1,
                old(self).remaining() <= old(self).chars@.len() + 1,
            decreases self.remaining(),
        {
            match self.next() {
                Some(item) => {
                    if item.1 == open {
                        count = count + 1;
                    } else if item.1 == close {
                        if count == 1 {
                            return Some(item);
                        } else {
                            count = count - 1;
                        }
                    }
                },
                None => {
                    return None;
                },
            }
        }
    }

    fn next_non_ws(&mut self) -> (r: Option<(usize, char)>)
        requires
            old(self).wf(),
        ensures
            final(self).read_on(old(self)),
            r is Some ==> final(self).remaining() < old(self).remaining(),
            final(self).config == old(self).config,
            final(self).mark_idx == old(self).mark_idx,
            final(self).iter.next_item is None,
            old(self).found(CharClass::NonWhitespace, r, final(self).iter),
            r == old(self).found_result(CharClass::NonWhitespace),
    {
        self.find(CharClass::NonWhitespace)
    }

    /// The next character that is not white space, left to be read again.
    fn skip_whitespace(&mut self) -> (r: Option<(usize, char)>)
        requires
            old(self).wf(),
        ensures
            final(self).read_on(old(self)),
            final(self).config == old(self).config,
            final(self).mark_idx == old(self).mark_idx,
            r == old(self).found_result(CharClass::NonWhitespace),
            final(self).iter.next_item == r,
            old(self).found(CharClass::NonWhitespace, r, SourceIter { next_item: None, ..final(self).iter }),
    {
        match self.next_non_ws() {
            Some(item) => {
                self.put_back(item);
                Some(item)
            },
            None => None,
        }
    }

    fn mark_start(&mut self)
        requires
            old(self).wf(),
        ensures
            final(self).read_on(old(self)),
            final(self).remaining() == old(self).remaining(),
            *final(self) == (Parser { mark_idx: old(self).iter.current.0, ..*old(self) }),
    {
        self.mark_idx = self.iter.current.0;
    }

    /// An error with `message` about the source from the mark to the current character.
    fn error(&self, message: &str) -> (e: ConfigError)
        ensures
            e.message@ == message@,
            e.span == Some(Range { start: self.mark_idx, end: self.iter.current.0 }),
    {
        ConfigError::new(String::from_str(message), Range { start: self.mark_idx, end: self.iter.current.0 })
    }

    /// `r` cut to the source: the start at most its length, the end between the start and
    /// its length.
    pub open spec fn spec_clamp(&self, r: (usize, usize)) -> (int, int) {
        let n = self.chars@.len() as int;
        let s = if r.0 < n {
            r.0 as int
        } else {
            n
        };
        let e = if r.1 < s {
            s
        } else if r.1 < n {
            r.1 as int
        } else {
            n
        };
        (s, e)
    }

    /// The range of the name that the source range `r` holds: without a leading
    /// backslash, which escapes a name of more than one character.
    pub open spec fn spec_name_span(&self, r: (usize, usize)) -> (int, int) {
        let (s, e) = self.spec_clamp(r);
        if e - s > 1 && self.chars@[s] == '\\' {
            (s + 1, e)
        } else {
            (s, e)
        }
    }

    /// The name that the source range `r` holds.
    pub open spec fn spec_name(&self, r: (usize, usize)) -> Seq<char> {
        self.chars@.subrange(self.spec_name_span(r).0, self.spec_name_span(r).1)
    }

    /// The characters of the source range `r`.
    pub open spec fn spec_raw(&self, r: (usize, usize)) -> Seq<char> {
        self.chars@.subrange(self.spec_clamp(r).0, self.spec_clamp(r).1)
    }

    /// `r` within the source.
    fn clamp(&self, r: (usize, usize)) -> (c: (usize, usize))
        ensures
            c.0 <= c.1 <= self.chars@.len(),
            c.0 == self.spec_clamp(r).0 && c.1 == self.spec_clamp(r).1,
    {
        let n = self.chars.len();
        let s = if r.0 < n {
            r.0
        } else {
            n
        };
        let e = if r.1 < s {
            s
        } else if r.1 < n {
            r.1
        } else {
            n
        };
        (s, e)
    }

    /// The range of the name that the source range `r` holds: without a leading backslash,
    /// which escapes a name of more than one character.
    fn name_span(&self, r: (usize, usize)) -> (c: (usize, usize))
        ensures
            c.0 <= c.1 <= self.chars@.len(),
            c.0 == self.spec_name_span(r).0 && c.1 == self.spec_name_span(r).1,
    {
        let (s, e) = self.clamp(r);
        if e - s > 1 && self.chars[s] == '\\' {
            (s + 1, e)
        } else {
            (s, e)
        }
    }

    /// The name that the source range `r` holds.
    fn name(&self, r: (usize, usize)) -> (n: &'a [char])
        ensures
            n@ == self.spec_name(r),
    {
        let (s, e) = self.name_span(r);
        vstd::slice::slice_subrange(self.chars, s, e)
    }

    /// The name that the source range `r` holds, as text.
    fn name_str(&self, r: (usize, usize)) -> (n: &'a str)
        requires
            self.wf(),
        ensures
            n@ == self.spec_name(r),
    {
        let (s, e) = self.name_span(r);
        self.src.substring_char(s, e)
    }

    /// The characters of the source range `r`.
    fn raw(&self, r: (usize, usize)) -> (n: &'a [char])
        ensures
            n@ == self.spec_raw(r),
    {
        let (s, e) = self.clamp(r);
        vstd::slice::slice_subrange(self.chars, s, e)
    }

    /// The characters of the source range `r`, as text.
    fn raw_str(&self, r: (usize, usize)) -> (n: &'a str)
        requires
            self.wf(),
        ensures
            n@ == self.spec_raw(r),
    {
        let (s, e) = self.clamp(r);
        self.src.substring_char(s, e)
    }

    /// The next word: the range to the next white space, where a line holds one.
    fn read_word(&mut self) -> (r: Result<Option<(usize, usize)>, ConfigError>)
        requires
            old(self).wf(),
        ensures
            final(self).read_on(old(self)),
            final(self).config == old(self).config,
            r matches Ok(Some(_)) ==> final(self).remaining() < old(self).remaining(),
            (r matches Ok(None)) <==> (old(self).found_result(CharClass::NewlineOrWord) matches None
                || old(self).found_result(CharClass::NewlineOrWord).unwrap().1 == '\n'),
            r matches Ok(Some(w)) ==> w.0 == old(self).found_result(CharClass::NewlineOrWord).unwrap().0
                && w.1 < old(self).chars@.len() && spec_is_whitespace(old(self).chars@[w.1 as int]),
            r matches Err(e) ==> e.message@ == "Expected word"@,
    {
        match self.find(CharClass::NewlineOrWord) {
            None => Ok(None),
            Some(start) => {
                self.mark_start();
                if start.1 == '\n' {
                    return Ok(None);
                }
                let ghost mid = *self;
                proof {
                    lemma_found_result(mid, CharClass::Whitespace);
                }
                match self.find(CharClass::Whitespace) {
                    Some(end) => {
                        if end.1 == '\n' {
                            self.put_back(end);
                        }
                        Ok(Some((start.0, end.0)))
                    },
                    None => Err(self.error("Expected word")),
                }
            },
        }
    }

    /// Whether the next character that is not white space is `c`.
    fn match_char(&mut self, c: char) -> (r: bool)
        requires
            old(self).wf(),
        ensures
            final(self).read_on(old(self)),
            final(self).config == old(self).config,
            r == (old(self).found_result(CharClass::NonWhitespace) matches Some(y) && y.1 == c),
            old(self).found(CharClass::NonWhitespace, old(self).found_result(CharClass::NonWhitespace), final(self).iter),
    {
        match self.next_non_ws() {
            None => false,
            Some(start) => start.1 == c,
        }
    }

    /// The next value on the line: a bracketed group or a run of characters up to white
    /// space or a bracket.
    fn next_assignment_value(&mut self) -> (r: Option<(usize, usize)>)
        requires
            old(self).wf(),
        ensures
            final(self).read_on(old(self)),
            final(self).config == old(self).config,
            r is Some ==> final(self).remaining() < old(self).remaining(),
            r is None <==> (old(self).found_result(CharClass::NewlineOrWord) matches None
                || old(self).found_result(CharClass::NewlineOrWord).unwrap().1 == '\n'),
            r matches Some(v) ==> v.0 == old(self).found_result(CharClass::NewlineOrWord).unwrap().0,
    {
        let start = match self.find(CharClass::NewlineOrWord) {
            Some(s) => s,
            None => {
                return None;
            },
        };
        self.mark_start();
        if start.1 == '\n' {
            return None;
        }
        match match_paren(start.1) {
            Some((open, close)) => match self.find_close_paren(open, close) {
                Some(end) => Some((start.0, end.0)),
                None => Some((start.0, self.iter.current.0)),
            },
            None => match self.find(CharClass::Sequence) {
                Some(end) => {
                    self.put_back(end);
                    Some((start.0, end.0))
                },
                None => Some((start.0, self.iter.current.0)),
            },
        }
    }

    /// The next `name = value` assignment, as the ranges of the name and the first value.
    fn parse_assignment(&mut self) -> (r: Result<Option<((usize, usize), (usize, usize))>, ConfigError>)
        requires
            old(self).wf(),
        ensures
            final(self).read_on(old(self)),
            final(self).config == old(self).config,
            r matches Ok(Some(_)) ==> final(self).remaining() < old(self).remaining(),
            (r matches Ok(None)) <==> (old(self).found_result(CharClass::NewlineOrWord) matches None
                || old(self).found_result(CharClass::NewlineOrWord).unwrap().1 == '\n'),
            r matches Ok(Some(a)) ==> a.0.0 == old(self).found_result(CharClass::NewlineOrWord).unwrap().0,
            r matches Err(e) ==> e.message@ == "Expected word"@ || e.message@ == "Missing ="@
                || e.message@ == "Missing RHS"@,
    {
        match self.read_word()? {
            Some(left) => {
                if self.match_char('=') {
                    match self.next_assignment_value() {
                        Some(right) => Ok(Some((left, right))),
                        None => Err(self.error("Missing RHS")),
                    }
                } else {
                    Err(self.error("Missing ="))
                }
            },
            None => Ok(None),
        }
    }

    /// Fails with `message` where the line holds another value.
    fn assert_no_more_values(&mut self, message: &str) -> (r: Result<(), ConfigError>)
        requires
            old(self).wf(),
        ensures
            final(self).read_on(old(self)),
            final(self).config == old(self).config,
            r is Ok <==> (old(self).found_result(CharClass::NewlineOrWord) matches None
                || old(self).found_result(CharClass::NewlineOrWord).unwrap().1 == '\n'),
            r matches Err(e) ==> e.message@ == message@,
    {
        self.mark_start();
        if self.next_assignment_value().is_some() {
            Err(self.error(message))
        } else {
            Ok(())
        }
    }

    /// The next run of characters up to one of the class `k`.
    fn read(&mut self, k: CharClass) -> (r: (usize, usize))
        requires
            old(self).wf(),
        ensures
            final(self).read_on(old(self)),
            final(self).config == old(self).config,
            r.0 != r.1 ==> final(self).remaining() < old(self).remaining(),
            old(self).found_result(CharClass::NonWhitespace) is None ==> r.0 == old(self).chars@.len()
                && r.1 == old(self).chars@.len(),
            old(self).found_result(CharClass::NonWhitespace) matches Some(y) ==> r.0 == y.0 && (if y.1
                == '(' || y.1 == ')' {
                r.1 == y.0
            } else {
                r.1 == old(self).chars@.len() || (r.1 < old(self).chars@.len() && spec_class_matches(
                    k,
                    old(self).chars@[r.1 as int],
                ))
            }),
            old(self).iter.next_item is None ==> (old(self).found_result(CharClass::NonWhitespace) matches Some(y)
                ==> (y.1 != '(' && y.1 != ')' ==> r.0 < r.1 <= old(self).chars@.len())),
    {
        proof {
            lemma_found_result(*old(self), CharClass::NonWhitespace);
        }
        match self.next_non_ws() {
            Some(start) => {
                if invalid_seq_char(start.1) {
                    self.put_back(start);
                    return (start.0, start.0);
                }
                self.mark_start();
                let ghost mid = *self;
                proof {
                    lemma_found_result(mid, k);
                    lemma_find_from_range(mid.chars@, mid.iter.pos as int, false, k);
                }
                match self.find(k) {
                    Some(end) => {
                        self.put_back(end);
                        (start.0, end.0)
                    },
                    None => (start.0, self.iter.current.0),
                }
            },
            None => (self.iter.current.0, self.iter.current.0),
        }
    }

    fn read_arg(&mut self) -> (r: (usize, usize))
        requires
            old(self).wf(),
        ensures
            final(self).read_on(old(self)),
            final(self).config == old(self).config,
            old(self).found_result(CharClass::NonWhitespace) is None ==> r.0 == old(self).chars@.len()
                && r.1 == old(self).chars@.len(),
            old(self).found_result(CharClass::NonWhitespace) matches Some(y) ==> r.0 == y.0 && (if y.1
                == '(' || y.1 == ')' {
                r.1 == y.0
            } else {
                r.1 == old(self).chars@.len() || (r.1 < old(self).chars@.len() && spec_class_matches(
                    CharClass::Argument,
                    old(self).chars@[r.1 as int],
                ))
            }),
    {
        self.read(CharClass::Argument)
    }

    fn read_sequence(&mut self) -> (r: (usize, usize))
        requires
            old(self).wf(),
        ensures
            final(self).read_on(old(self)),
            final(self).config == old(self).config,
            r.0 != r.1 ==> final(self).remaining() < old(self).remaining(),
            old(self).found_result(CharClass::NonWhitespace) is None ==> r.0 == old(self).chars@.len()
                && r.1 == old(self).chars@.len(),
            old(self).found_result(CharClass::NonWhitespace) matches Some(y) ==> r.0 == y.0 && (if y.1
                == '(' || y.1 == ')' {
                r.1 == y.0
            } else {
                r.1 == old(self).chars@.len() || (r.1 < old(self).chars@.len() && spec_class_matches(
                    CharClass::Sequence,
                    old(self).chars@[r.1 as int],
                ))
            }),
            old(self).iter.next_item is None ==> (old(self).found_result(CharClass::NonWhitespace) matches Some(y)
                ==> (y.1 != '(' && y.1 != ')' ==> r.0 < r.1 <= old(self).chars@.len())),
    {
        self.read(CharClass::Sequence)
    }

    /// Reads the character `c`, failing with `message` where another comes.
    fn expect(&mut self, c: char, message: &str) -> (r: Result<(), ConfigError>)
        requires
            old(self).wf(),
        ensures
            final(self).read_on(old(self)),
            final(self).config == old(self).config,
            r is Ok <==> (old(self).found_result(CharClass::NonWhitespace) matches Some(y) && y.1 == c),
            r matches Err(e) ==> e.message@ == message@ && e.span == Some(Range {
                start: old(self).iter.current.0,
                end: final(self).iter.current.0,
            }),
    {
        self.mark_start();
        if let Some(start) = self.next_non_ws() {
            if start.1 == c {
                return Ok(());
            }
        }
        Err(self.error(message))
    }

    /// A duration from the source range `r`, in units of `10^-dp` milliseconds.
    fn parse_duration(&self, r: (usize, usize), min: u16, max: u16, dp: u8) -> (v: Result<u16, ConfigError>)
        requires
            dp <= 1,
        ensures
            v matches Ok(x) ==> spec_parse_duration(self.spec_name(r), min, max, dp) == Some(x),
            v matches Err(e) ==> spec_parse_duration(self.spec_name(r), min, max, dp) is None
                && e.span == Some(Range { start: r.0, end: r.1 }),
    {
        let text = self.name(r);
        match parse_duration_chars(text, min, max, dp) {
            Ok(v) => Ok(v),
            Err(message) => Err(error_span(message, r)),
        }
    }

    fn read_timeout(&mut self) -> (r: Result<u16, ConfigError>)
        requires
            old(self).wf(),
        ensures
            final(self).read_on(old(self)),
            final(self).config == old(self).config,
            r matches Ok(x) ==> x <= 5000 && exists|w: (usize, usize)|
                spec_parse_duration(#[trigger] old(self).spec_name(w), 0, 5000, 0) == Some(x),
    {
        let nr = self.read_arg();
        let v = self.parse_duration(nr, 0, 5000, 0);
        proof {
            if let Ok(x) = v {
                assert(old(self).spec_name(nr) == self.spec_name(nr));
                assert(spec_parse_duration(old(self).spec_name(nr), 0, 5000, 0) == Some(x));
            }
        }
        v
    }

    /// Adds `mac` to the macros, unless a macro with the same binary form is there, and
    /// returns its number.
    fn add_macro(&mut self, mac: Macro) -> (r: Result<u16, ConfigError>)
        requires
            old(self).wf(),
        ensures
            final(self).read_on(old(self)),
            final(self).remaining() == old(self).remaining(),
            final(self).config.layers == old(self).config.layers,
            final(self).config.composites == old(self).config.composites,
            r matches Ok(id) ==> id < MAX_MACROS,
            r matches Ok(id) ==> {
                &&& id < final(self).config.macros@.len()
                &&& spec_macro_binary(final(self).config.macros@[id as int]) == spec_macro_binary(mac)
                &&& forall|k: int| 0 <= k < id ==> spec_macro_binary(old(self).config.macros@[k])
                    != spec_macro_binary(mac)
                &&& final(self).config.macros@ == if id < old(self).config.macros@.len() {
                    old(self).config.macros@
                } else {
                    old(self).config.macros@.push(mac)
                }
            },
            r is Err ==> old(self).config.macros@.len() >= MAX_MACROS && forall|k: int|
                0 <= k < old(self).config.macros@.len() ==> spec_macro_binary(
                    old(self).config.macros@[k],
                ) != spec_macro_binary(mac),
    {
        let bin = mac.serialize();
        let mut i: usize = 0;
        while i < self.config.macros.len()
            invariant
                self.wf(),
                *self == *old(self),
                bin@ == spec_macro_binary(mac),
                i <= self.config.macros@.len(),
                forall|k: int| 0 <= k < i ==> spec_macro_binary(self.config.macros@[k]) != bin@,
            decreases self.config.macros@.len() - i,
        {
            let other = self.config.macros[i].serialize();
            if u16s_eq(other.as_slice(), bin.as_slice()) {
                return Ok(i as u16);
            }
            i = i + 1;
        }
        let id = self.config.macros.len();
        if id >= MAX_MACROS {
            return Err(ConfigError::from_message("Too many macros"));
        }
        self.config.macros.push(mac);
        Ok(id as u16)
    }

    /// The macro with code `code`, if it is a macro code and there is such a macro.
    fn get_macro(&self, code: u16) -> (r: Option<&Macro>)
        ensures
            (key_range::MACROS_MIN <= code <= key_range::MACROS_MAX && code - key_range::MACROS_MIN
                < self.config.macros@.len()) ==> r == Some(&self.config.macros@[code - key_range::MACROS_MIN]),
            !(key_range::MACROS_MIN <= code <= key_range::MACROS_MAX && code - key_range::MACROS_MIN
                < self.config.macros@.len()) ==> r is None,
    {
        if key_range::MACROS_MIN <= code && code <= key_range::MACROS_MAX {
            let i = (code - key_range::MACROS_MIN) as usize;
            if i < self.config.macros.len() {
                return Some(&self.config.macros[i]);
            }
        }
        None
    }

    /// The directory index of the layer named by the source range `r`.
    fn get_layer_index(&self, r: (usize, usize)) -> (v: Result<u16, ConfigError>)
        requires
            self.wf(),
        ensures
            v is Err <==> forall|i: int| 0 <= i < self.config.layers@.len() ==> self.config.layers@[i].0@ != self.spec_raw(r),
            v matches Err(e) ==> e.span == Some(Range { start: r.0, end: r.1 }),
            v matches Ok(x) ==> exists|i: int|
                #![trigger self.config.layers@[i]]
                0 <= i < self.config.layers@.len() && self.config.layers@[i].0@ == self.spec_raw(r) && (forall|k: int|
                    0 <= k < i ==> self.config.layers@[k].0@ != self.spec_raw(r)) && x == self.config.layers@[i].1.index,
    {
        let name = self.raw(r);
        match self.config.get_layer_index(name) {
            Some(index) => Ok(index),
            None => {
                let mut m = String::from_str("Unknown layer name ");
                m.append(self.raw_str(r));
                Err(error_span(m, r))
            },
        }
    }

    /// The code of a layer action with base `base_code`: the layer named up to `)`.
    fn parse_layer_code(&mut self, base_code: u16) -> (r: Result<u16, ConfigError>)
        requires
            old(self).wf(),
        ensures
            final(self).read_on(old(self)),
            final(self).config == old(self).config,
            r matches Ok(x) ==> exists|i: int|
                #![trigger old(self).config.layers@[i]]
                0 <= i < old(self).config.layers@.len() && x as int == (base_code as int
                    + old(self).config.layers@[i].1.index as int) % 0x10000,
    {
        self.mark_start();
        if let Some(start) = self.next_non_ws() {
            self.mark_idx = start.0;
            if let Some(end) = self.find(CharClass::LayerEnd) {
                let end_mark = if self.iter.current.0 > 0 {
                    self.iter.current.0 - 1
                } else {
                    0
                };
                let closed = if end.1 == ')' {
                    true
                } else {
                    match self.next_non_ws() {
                        Some(c) => c.1 == '(',
                        None => false,
                    }
                };
                if closed {
                    let index = self.get_layer_index((start.0, end.0))?;
                    let code = base_code.wrapping_add(index);
                    assert(code as int == (base_code as int + index as int) % 0x10000);
                    return Ok(code);
                }
                self.iter.current.0 = end_mark;
            }
        }
        Err(self.error("Invalid layer(...) action"))
    }

    /// The unicode character written as hexadecimal digits up to `)`.
    fn read_hex_codes(&mut self) -> (r: Result<u32, ConfigError>)
        requires
            old(self).wf(),
        ensures
            final(self).read_on(old(self)),
            final(self).config == old(self).config,
            r matches Ok(x) ==> x <= 0x10ffff && !(0xd800 <= x <= 0xdfff),
            r matches Err(e) ==> e.message@ == "Invalid unicode digit"@ || e.message@ == "Invalid unicode"@,
    {
        let mut result: u32 = 0;
        let start = self.iter.current.0;
        loop
            invariant
                self.read_on(old(self)),
                self.config == old(self).config,
            decreases self.remaining(),
        {
            match self.next() {
                Some(ic) => {
                    let c = ic.1;
                    if 'a' <= c && c <= 'f' {
                        result = (result << 4).wrapping_add(10 + (c as u32 - 'a' as u32));
                    } else if 'A' <= c && c <= 'F' {
                        result = (result << 4).wrapping_add(10 + (c as u32 - 'A' as u32));
                    } else if '0' <= c && c <= '9' {
                        result = (result << 4).wrapping_add(c as u32 - '0' as u32);
                    } else if c == ' ' {
                    } else if c == ')' {
                        self.put_back(ic);
                        break;
                    } else {
                        let at = self.iter.current.0;
                        return Err(error_span(String::from_str("Invalid unicode digit"), (at, at.wrapping_add(1))));
                    }
                },
                None => {
                    break;
                },
            }
        }
        if result <= 0x10ffff && !(0xd800 <= result && result <= 0xdfff) {
            Ok(result)
        } else {
            Err(error_span(String::from_str("Invalid unicode"), (start, self.iter.current.0.wrapping_add(1))))
        }
    }

    /// The action code of the action named by the source range `r`: a key name, a layer
    /// action or a macro.
    fn read_action(&mut self, r: (usize, usize), depth: u32) -> (v: Result<u16, ConfigError>)
        requires
            old(self).wf(),
        ensures
            final(self).read_on(old(self)),
            spec_key_code(old(self).spec_name(r)) matches Some(c) ==> v == Ok::<u16, ConfigError>(c) && *final(self)
                == *old(self),
            spec_key_code(old(self).spec_name(r)) is None && old(self).iter.current.1 == '(' && !(spec_action_code(
                old(self).spec_name(r),
            ) matches Some(b) && ((key_range::LAYER_MIN <= b && b <= key_range::REPLACE_LAYERS_MIN) || b
                == key_range::MACROS_MIN)) ==> *final(self) == *old(self) && (v matches Err(e) && e.message@
                == UNKNOWN_ACTION@ && e.span == Some(Range { start: r.0, end: r.1 })),
            ({
                let n = old(self).spec_name(r);
                forall|k: int|
                    spec_key_code(n) is None && old(self).iter.current.1 != '(' && !(n == "macro"@ || n == "hold"@
                        || n == "release"@ || n == "overload"@ || n == "dualaction"@ || n == "unicode"@ || n
                        == "delay"@) && 0 <= k < n.len() && #[trigger] n[k] == '-' && (forall|j: int|
                        k < j < n.len() ==> n[j] != '-') && spec_modifiers_to_bit_map(n.subrange(0, k)) is Some
                        && spec_key_code(n.subrange(k + 1, n.len() as int)) is Some
                        && old(self).config.macros@.len() < MAX_MACROS ==> (v matches Ok(code)
                        && spec_macro_binary(final(self).config.macros@[code - key_range::MACROS_MIN])
                        == spec_macro_binary(Macro::Modifier {
                            keycode: spec_key_code(n.subrange(k + 1, n.len() as int))->0,
                            modifiers: spec_modifiers_to_bit_map(n.subrange(0, k))->0,
                        }))
            }),
        decreases depth, 3int,
    {
        let name = self.name(r);
        if let Some(code) = self.table.key_code(name) {
            return Ok(code);
        }
        let base = if self.iter.current.1 == '(' {
            action_code_chars(name)
        } else {
            Some(key_range::MACROS_MIN)
        };
        match base {
            Some(b) => {
                if key_range::LAYER_MIN <= b && b <= key_range::REPLACE_LAYERS_MIN {
                    self.next();
                    self.parse_layer_code(b)
                } else if b == key_range::MACROS_MIN {
                    self.parse_macro(r, depth)
                } else {
                    Err(error_span(String::from_str(UNKNOWN_ACTION), r))
                }
            },
            None => Err(error_span(String::from_str(UNKNOWN_ACTION), r)),
        }
    }

    /// The rest of a dual action whose hold action is `hold`: its tap action and timeouts.
    fn dualaction(&mut self, hold: u16, depth: u32) -> (v: Result<u16, ConfigError>)
        requires
            old(self).wf(),
        ensures
            final(self).read_on(old(self)),
            v matches Ok(id) ==> id < MAX_MACROS && id < final(self).config.macros@.len(),
            v matches Ok(id) ==> exists|m: Macro|
                (m is DualAction || m is TimedDualAction) && spec_dual_hold(m) == hold && #[trigger] spec_macro_binary(m)
                    == spec_macro_binary(final(self).config.macros@[id as int]),
            depth == 0 ==> *final(self) == *old(self) && (v matches Err(e) && e.message@ == "Actions nest too deeply"@),
            depth > 0 && !(old(self).found_result(CharClass::NonWhitespace) matches Some(y) && y.1 == ',') ==> (v matches Err(
                e,
            ) && e.message@ == "Expected , "@) && final(self).config == old(self).config,
        decreases depth, 1int,
    {
        if depth == 0 {
            return Err(self.error("Actions nest too deeply"));
        }
        self.expect(',', "Expected , ")?;
        let tap_name = self.read_arg();
        let tap = self.read_action(tap_name, depth - 1)?;
        let c = match self.next_non_ws() {
            Some(c) => c,
            None => {
                return Err(self.error(EOF));
            },
        };
        let id = if c.1 == ')' {
            self.add_macro(Macro::DualAction(tap, hold))?
        } else {
            let t1 = self.read_timeout()?;
            let c = match self.next_non_ws() {
                Some(c) => c,
                None => {
                    return Err(self.error(EOF));
                },
            };
            if c.1 == ')' {
                self.add_macro(Macro::TimedDualAction(tap, hold, t1, u16::MAX))?
            } else {
                let t2 = self.read_timeout()?;
                self.expect(')', "Expected ) ")?;
                self.add_macro(Macro::TimedDualAction(tap, hold, t1, t2))?
            }
        };
        Ok(id)
    }

    /// The macro named by the source range `r`, up to its closing `)`; returns its code.
    fn parse_macro(&mut self, r: (usize, usize), depth: u32) -> (v: Result<u16, ConfigError>)
        requires
            old(self).wf(),
        ensures
            final(self).read_on(old(self)),
            v matches Ok(code) ==> key_range::MACROS_MIN <= code && code - key_range::MACROS_MIN
                < final(self).config.macros@.len(),
            ({
                let n = old(self).spec_name(r);
                &&& n == "dualaction"@ && depth == 0 ==> *final(self) == *old(self) && (v matches Err(e)
                    && e.message@ == "Actions nest too deeply"@)
                &&& !(n == "macro"@ || n == "hold"@ || n == "release"@ || n == "overload"@ || n == "dualaction"@
                    || n == "unicode"@ || n == "delay"@) && (forall|j: int| 0 <= j < n.len() ==> n[j] != '-')
                    ==> *final(self) == *old(self) && (v matches Err(e) && e.message@ == UNKNOWN_ACTION@
                    && e.span == Some(Range { start: r.0, end: r.1 }))
                &&& forall|k: int|
                    !(n == "macro"@ || n == "hold"@ || n == "release"@ || n == "overload"@ || n == "dualaction"@
                        || n == "unicode"@ || n == "delay"@) && 0 <= k < n.len() && #[trigger] n[k] == '-'
                        && (forall|j: int| k < j < n.len() ==> n[j] != '-')
                        && spec_modifiers_to_bit_map(n.subrange(0, k)) is Some
                        && spec_key_code(n.subrange(k + 1, n.len() as int)) is Some
                        && old(self).config.macros@.len() < MAX_MACROS ==> (v matches Ok(code)
                        && spec_macro_binary(final(self).config.macros@[code - key_range::MACROS_MIN])
                        == spec_macro_binary(Macro::Modifier {
                            keycode: spec_key_code(n.subrange(k + 1, n.len() as int))->0,
                            modifiers: spec_modifiers_to_bit_map(n.subrange(0, k))->0,
                        }))
            }),
        decreases depth, 2int,
    {
        proof {
            reveal_strlit("dualaction");
            reveal_strlit("macro");
            reveal_strlit("hold");
            reveal_strlit("release");
            reveal_strlit("overload");
            assert("dualaction"@.len() == 10);
            assert("macro"@.len() == 5 && "hold"@.len() == 4 && "release"@.len() == 7 && "overload"@.len() == 8);
        }
        let name = self.name(r);
        let id = if eq_lit(name, "macro") {
            self.next();
            let seq = self.macro_sequence(depth)?;
            self.expect(')', "Expected ) ")?;
            let hold_release = seq.len() == 2 && match (self.get_macro(seq[0]), self.get_macro(seq[1])) {
                (Some(Macro::Hold(_)), Some(Macro::Release(_))) => true,
                _ => false,
            };
            if hold_release {
                let hold = seq[0];
                let release = seq[1];
                self.add_macro(Macro::HoldRelease { hold, release })?
            } else {
                self.add_macro(Macro::Tap(seq))?
            }
        } else if eq_lit(name, "hold") {
            self.next();
            let seq = self.macro_sequence(depth)?;
            self.expect(')', "Expected ) ")?;
            self.add_macro(Macro::Hold(seq))?
        } else if eq_lit(name, "release") {
            self.next();
            let seq = self.macro_sequence(depth)?;
            self.expect(')', "Expected ) ")?;
            self.add_macro(Macro::Release(seq))?
        } else if eq_lit(name, "overload") {
            self.next();
            let nm = self.read_arg();
            if nm.0 == nm.1 {
                return Err(self.error("Missing name"));
            }
            let hold = self.get_layer_index(nm)?.wrapping_add(key_range::LAYER_MIN);
            self.dualaction(hold, depth)?
        } else if eq_lit(name, "dualaction") {
            if depth == 0 {
                return Err(self.error("Actions nest too deeply"));
            }
            self.next();
            let hold_name = self.read_arg();
            let hold = self.read_action(hold_name, depth - 1)?;
            self.dualaction(hold, depth)?
        } else if eq_lit(name, "unicode") {
            self.next();
            let uc = self.read_hex_codes()?;
            self.expect(')', "Expected ) ")?;
            let seq = self.config.unicode_to_seq(uc);
            self.add_macro(Macro::Tap(seq))?
        } else if eq_lit(name, "delay") {
            self.next();
            let nr = self.read_arg();
            let d = self.parse_duration(nr, 0, 5000, 0)?;
            self.expect(')', "Expected ) ")?;
            self.add_macro(Macro::Delay(d))?
        } else {
            let (ns, ne) = self.name_span(r);
            let split = match last_dash(name) {
                Some(k) => k,
                None => {
                    return Err(error_span(String::from_str(UNKNOWN_ACTION), r));
                },
            };
            assert(split < name.len());
            let modifiers = vstd::slice::slice_subrange(name, 0, split);
            let after = split + 1;
            let keyname = vstd::slice::slice_subrange(name, after, name.len());
            proof {
                assert forall|k: int| 0 <= k < name@.len() && #[trigger] name@[k] == '-' && (forall|j: int|
                    k < j < name@.len() ==> name@[j] != '-') implies k == split by {
                    if k < split {
                        assert(name@[split as int] == '-');
                    }
                }
            }
            let bits = match modifiers_to_bit_map_chars(modifiers) {
                Some(b) => b,
                None => {
                    let mut m = String::from_str("Invalid modifiers '");
                    m.append(self.raw_str((ns, ns.wrapping_add(split))));
                    m.append("'");
                    return Err(error_span(m, (r.0, r.0.wrapping_add(split))));
                },
            };
            let keycode = match self.table.key_code(keyname) {
                Some(k) => k,
                None => {
                    return Err(error_span(String::from_str(UNKNOWN_ACTION), r));
                },
            };
            self.add_macro(Macro::Modifier { keycode, modifiers: bits })?
        };
        Ok(id + key_range::MACROS_MIN)
    }

    /// The actions of a macro sequence up to its closing `)`.
    fn macro_sequence(&mut self, depth: u32) -> (v: Result<Vec<u16>, ConfigError>)
        requires
            old(self).wf(),
        ensures
            final(self).read_on(old(self)),
            depth == 0 ==> *final(self) == *old(self) && (v matches Err(e) && e.message@ == "Actions nest too deeply"@),
            depth > 0 && (old(self).found_result(CharClass::NonWhitespace) matches None || old(self).found_result(
                CharClass::NonWhitespace,
            ).unwrap().1 == '(' || old(self).found_result(CharClass::NonWhitespace).unwrap().1 == ')') ==> final(self).config == old(self).config && (v matches Ok(q) && q@.len() == 0),
            depth > 0 && old(self).iter.next_item is None && !(old(self).found_result(CharClass::NonWhitespace) matches None || old(self).found_result(
                CharClass::NonWhitespace,
            ).unwrap().1 == '(' || old(self).found_result(CharClass::NonWhitespace).unwrap().1 == ')') ==> (v matches Ok(q) ==> q@.len() > 0),
        decreases depth, 1int,
    {
        if depth == 0 {
            return Err(self.error("Actions nest too deeply"));
        }
        let mut seq: Vec<u16> = Vec::new();
        let ghost mut at_start = true;
        loop
            invariant_except_break
                at_start ==> *self == *old(self) && seq@.len() == 0,
            invariant
                self.read_on(old(self)),
                depth > 0,
                !at_start ==> !(old(self).found_result(CharClass::NonWhitespace) matches None || old(self).found_result(
                CharClass::NonWhitespace,
            ).unwrap().1 == '(' || old(self).found_result(CharClass::NonWhitespace).unwrap().1 == ')'),
                !at_start && old(self).iter.next_item is None ==> seq@.len() > 0,
                at_start ==> seq@.len() == 0,
            ensures
                self.read_on(old(self)),
                old(self).iter.next_item is None && !(old(self).found_result(CharClass::NonWhitespace) matches None || old(self).found_result(
                CharClass::NonWhitespace,
            ).unwrap().1 == '(' || old(self).found_result(CharClass::NonWhitespace).unwrap().1 == ')') ==> seq@.len() > 0,
                (old(self).found_result(CharClass::NonWhitespace) matches None || old(self).found_result(
                CharClass::NonWhitespace,
            ).unwrap().1 == '(' || old(self).found_result(CharClass::NonWhitespace).unwrap().1 == ')') ==> self.config == old(self).config && seq@.len() == 0,
            decreases self.remaining(),
        {
            let range = self.read_sequence();
            if range.0 == range.1 {
                break;
            }
            let ghost was_start = at_start;
            proof {
                at_start = false;
            }
            let ghost bound = self.remaining();
            let name = self.name(range);
            assert(was_start && old(self).iter.next_item is None ==> name@.len() > 0);
            let code = if name.len() > 1 {
                self.table.key_code(name)
            } else {
                None
            };
            if let Some(code) = code {
                seq.push(code);
            } else if action_code_chars(name).is_some() && self.iter.current.1 == '(' {
                let a = self.read_action(range, depth - 1)?;
                seq.push(a);
            } else {
                let mod_mac = match last_dash(name) {
                    Some(k) => {
                        k > 0 && modifiers_to_bit_map_chars(vstd::slice::slice_subrange(name, 0, k)).is_some()
                            && self.table.key_code(vstd::slice::slice_subrange(name, k + 1, name.len())).is_some()
                    },
                    None => false,
                };
                if mod_mac {
                    let a = self.parse_macro(range, depth - 1)?;
                    seq.push(a);
                } else {
                    let mut i: usize = 0;
                    let ghost n0 = seq@.len();
                    while i < name.len()
                        invariant
                            self.read_on(old(self)),
                            self.remaining() <= bound,
                            i <= name@.len(),
                            seq@.len() == n0 + i,
                            depth > 0,
                            !(old(self).found_result(CharClass::NonWhitespace) matches None || old(self).found_result(
                                CharClass::NonWhitespace,
                            ).unwrap().1 == '(' || old(self).found_result(CharClass::NonWhitespace).unwrap().1 == ')'),
                        decreases name@.len() - i,
                    {
                        let c = name[i];
                        let u = unshifted_char_code(c);
                        if u != c {
                            let keycode = self.table.char_to_code(u);
                            let id = self.add_macro(Macro::Modifier { keycode, modifiers: SHIFT_MOD })?;
                            seq.push(key_range::MACROS_MIN + id);
                        } else {
                            let code = self.table.char_to_code(c);
                            if code != 0 {
                                seq.push(code);
                            } else {
                                let useq = self.config.unicode_to_seq(c as u32);
                                let id = self.add_macro(Macro::Tap(useq))?;
                                seq.push(key_range::MACROS_MIN + id);
                            }
                        }
                        i = i + 1;
                    }
                }
            }
        }
        Ok(seq)
    }
}

/// Whether the words `a` and `b` are the same.
fn u16s_eq(a: &[u16], b: &[u16]) -> (r: bool)
    ensures
        r == (a@ == b@),
{
    if a.len() != b.len() {
        return false;
    }
    let mut i: usize = 0;
    while i < a.len()
        invariant
            a@.len() == b@.len(),
            i <= a@.len(),
            forall|k: int| 0 <= k < i ==> a@[k] == b@[k],
        decreases a@.len() - i,
    {
        if a[i] != b[i] {
            return false;
        }
        i = i + 1;
    }
    assert(a@ =~= b@);
    true
}

/// The position of the last `-` in `name`.
fn last_dash(name: &[char]) -> (r: Option<usize>)
    ensures
        r matches Some(k) ==> k < name@.len() && name@[k as int] == '-' && forall|j: int|
            k < j < name@.len() ==> name@[j] != '-',
        r is None ==> forall|j: int| 0 <= j < name@.len() ==> name@[j] != '-',
{
    let mut i = name.len();
    while i > 0
        invariant
            i <= name@.len(),
            forall|j: int| i <= j < name@.len() ==> name@[j] != '-',
        decreases i,
    {
        i = i - 1;
        if name[i] == '-' {
            return Some(i);
        }
    }
    None
}

/// What the scan for section names is reading.
enum ScanState {
    Ready,
    Read(usize, usize),
    Search,
}

/// The number the decimal digits `t` spell, if it fits a byte.
fn parse_u8(t: &[char]) -> (r: Option<u8>)
    ensures
        r == (if spec_decimal_of(t@).ok && spec_decimal_of(t@).digits && !spec_decimal_of(t@).dot
            && !spec_decimal_of(t@).neg && spec_decimal_of(t@).int_part <= 255 {
            Some(spec_decimal_of(t@).int_part as u8)
        } else {
            None
        }),
{
    let d = crate::config::globals::decimal_of(t);
    if d.ok && d.digits && !d.dot && !d.neg && d.int_part <= 255 {
        Some(d.int_part as u8)
    } else {
        None
    }
}

/// The position of the first `c` in `t`.
fn find_char(t: &[char], c: char) -> (r: Option<usize>)
    ensures
        r matches Some(k) ==> k < t@.len() && t@[k as int] == c && forall|j: int| 0 <= j < k ==> t@[j] != c,
        r is None ==> forall|j: int| 0 <= j < t@.len() ==> t@[j] != c,
{
    let mut i: usize = 0;
    while i < t.len()
        invariant
            i <= t@.len(),
            forall|j: int| 0 <= j < i ==> t@[j] != c,
        decreases t@.len() - i,
    {
        if t[i] == c {
            return Some(i);
        }
        i = i + 1;
    }
    None
}

impl<'a> Parser<'a> {
    /// The source range `s..e` as text.
    fn text_of(&self, s: usize, e: usize) -> (t: &'a str)
        requires
            self.wf(),
        ensures
            t@ == self.spec_raw((s, e)),
    {
        self.raw_str((s, e))
    }

    /// Reads every section header first, to make the matrix size and the layer names known
    /// before the sections are read.
    fn scan_layer_names(&mut self) -> (r: Result<(), ConfigError>)
        requires
            old(self).wf(),
        ensures
            final(self).read_on(old(self)),
            final(self).remaining() == old(self).remaining(),
            final(self).iter == old(self).iter,
            blank(old(self).chars@) ==> r is Ok && final(self).config == old(self).config,
            (forall|j: int| 0 <= j < old(self).chars@.len() ==> old(self).chars@[j] != '[') ==> r is Ok
                && final(self).config == old(self).config,
            global_only(old(self).chars@) ==> r is Ok && final(self).config == old(self).config,
    {
        proof {
            if global_only(self.chars@) {
                lemma_global_only(self.chars@);
            }
        }
        let mut in_comment = false;
        let mut escaped = false;
        let mut paren: usize = 0;
        let mut parens: (char, char) = ('(', ')');
        let mut state = ScanState::Ready;
        let n = self.chars.len();
        let mut i: usize = 0;
        while i < n
            invariant
                self.read_on(old(self)),
                self.remaining() == old(self).remaining(),
                self.iter == old(self).iter,
                blank(self.chars@) ==> state is Ready && !in_comment && !escaped && paren == 0
                    && self.config == old(self).config,
                (forall|j: int| 0 <= j < self.chars@.len() ==> self.chars@[j] != '[') ==> !(state is Read)
                    && self.config == old(self).config,
                global_only(self.chars@) ==> {
                    &&& self.config == old(self).config
                    &&& !in_comment && !escaped && paren == 0
                    &&& i == 0 ==> state is Ready
                    &&& 1 <= i <= 7 ==> state == ScanState::Read(1, 1)
                    &&& i >= 8 ==> !(state is Read)
                    &&& self.chars@[0] == '[' && self.chars@[1] == 'g' && self.chars@[2] == 'l' && self.chars@[3]
                        == 'o' && self.chars@[4] == 'b' && self.chars@[5] == 'a' && self.chars@[6] == 'l'
                        && self.chars@[7] == ']'
                    &&& forall|j: int| 8 <= j < self.chars@.len() ==> spec_is_whitespace(#[trigger] self.chars@[j])
                    &&& self.chars@.subrange(1, 7) == "global"@
                },
                n == self.chars@.len(),
                i <= n,
                paren <= i,
            decreases n - i,
        {
            let c = self.chars[i];
            if escaped {
                escaped = false;
            } else if c == '\n' && paren == 0 {
                state = ScanState::Ready;
                in_comment = false;
            } else if in_comment {
            } else if c == '#' {
                in_comment = true;
            } else if c == '\\' {
                escaped = true;
            } else if paren > 0 {
                if c == parens.0 {
                    paren = paren + 1;
                } else if c == parens.1 {
                    paren = paren - 1;
                }
            } else {
                match state {
                    ScanState::Read(s, e) => {
                        if c == ':' && s == e {
                            state = ScanState::Read(s, i);
                        } else if c == ']' {
                            self.ensure_section(s, e, i)?;
                            state = ScanState::Search;
                        }
                    },
                    ScanState::Ready => {
                        if c == '[' {
                            state = ScanState::Read(i + 1, i + 1);
                        } else if is_whitespace(c) {
                        } else {
                            state = ScanState::Search;
                            if let Some(p) = match_paren(c) {
                                parens = p;
                                paren = 1;
                            }
                        }
                    },
                    ScanState::Search => {},
                }
            }
            i = i + 1;
        }
        Ok(())
    }

    /// Takes note of the section header `[name]` or `[name:suffix]` found at `s`, whose
    /// suffix starts after `e` unless `e` is `s`, and which ends at `i`.
    fn ensure_section(&mut self, s: usize, e: usize, i: usize) -> (r: Result<(), ConfigError>)
        requires
            old(self).wf(),
        ensures
            final(self).read_on(old(self)),
            final(self).remaining() == old(self).remaining(),
            final(self).iter == old(self).iter,
            r is Err ==> *final(self) == *old(self),
            ({
                let name = old(self).spec_raw(if s == e { (s, i) } else { (s, e) });
                &&& name == "matrix"@ ==> final(self).config == (KeyboardConfig {
                    row_count: final(self).config.row_count,
                    col_count: final(self).config.col_count,
                    ..old(self).config
                }) && (r is Ok <==> matrix_dims(old(self).spec_raw(if s == e { (s, e) } else { (e.wrapping_add(1), i) })) is Some)
                    && (r is Ok ==> matrix_dims(old(self).spec_raw(if s == e { (s, e) } else { (e.wrapping_add(1), i) }))
                    == Some((final(self).config.row_count, final(self).config.col_count)))
                &&& name == "aliases"@ || name == "global"@ || (name.len() >= 7 && name.subrange(0, 7)
                    == "global."@) ==> r is Ok && *final(self) == *old(self)
            }),
    {
        proof {
            reveal_strlit("matrix");
            reveal_strlit("global");
            reveal_strlit("global.");
            reveal_strlit("aliases");
            assert("matrix"@[0] != "global"@[0]);
        }
        let (name_r, suffix_r) = if s == e {
            ((s, i), (s, e))
        } else {
            ((s, e), (e.wrapping_add(1), i))
        };
        let name = self.raw(name_r);
        let suffix = self.raw(suffix_r);
        if eq_lit(name, "matrix") {
            let sizes = match find_char(suffix, 'x') {
                Some(k) => {
                    assert(k < suffix.len());
                    assert(first_index(suffix@, 'x') == Some(k as int)) by {
                        let w = choose|w: int| 0 <= w < suffix@.len() && suffix@[w] == 'x' && forall|j: int| 0 <= j < w ==> suffix@[j] != 'x';
                        assert(suffix@[k as int] == 'x');
                        if w < k {
                        } else if w > k {
                        }
                    }
                    let rows = vstd::slice::slice_subrange(suffix, 0, k);
                    let after = k + 1;
                    let rest = vstd::slice::slice_subrange(suffix, after, suffix.len());
                    let cols = match find_char(rest, 'x') {
                        Some(j) => {
                            assert(first_index(rest@, 'x') == Some(j as int)) by {
                                let w = choose|w: int| 0 <= w < rest@.len() && rest@[w] == 'x' && forall|q: int| 0 <= q < w ==> rest@[q] != 'x';
                                assert(rest@[j as int] == 'x');
                            }
                            vstd::slice::slice_subrange(rest, 0, j)
                        },
                        None => rest,
                    };
                    match (parse_u8(rows), parse_u8(cols)) {
                        (Some(r), Some(c)) => Some((r, c)),
                        _ => None,
                    }
                },
                None => None,
            };
            match sizes {
                Some((r, c)) => {
                    self.config.row_count = r;
                    self.config.col_count = c;
                    return Ok(());
                },
                None => {
                    return Err(error_span(
                        String::from_str("expected [matrix:rxc] where r and c are row column size"),
                        (s, i),
                    ));
                },
            }
        } else if eq_lit(name, "aliases") || eq_lit(name, "global") {
        } else if name.len() >= 7 && eq_lit(vstd::slice::slice_subrange(name, 0, 7), "global.") {
        } else {
            let mut k: usize = 0;
            while k < name.len()
                invariant
                    self.read_on(old(self)),
                    self.remaining() == old(self).remaining(),
                    *self == *old(self),
                    name@ == old(self).spec_raw(if s == e { (s, i) } else { (s, e) }),
                    !(name@ == "matrix"@ || name@ == "aliases"@ || name@ == "global"@ || (name@.len() >= 7
                        && name@.subrange(0, 7) == "global."@)),
                    k <= name@.len(),
                decreases name@.len() - k,
            {
                if invalid_section_char(name[k]) {
                    let at = name_r.0.wrapping_add(k);
                    let mut m = String::from_str("Invalid layer name: '");
                    m.append(self.text_of(at, at.wrapping_add(1)));
                    m.append("' not allowed");
                    return Err(error_span(m, (s, i)));
                }
                k = k + 1;
            }
            let code = match modifiers_to_bit_map_chars(suffix) {
                Some(code) => code,
                None => {
                    let mut m = String::from_str("Invalid layer suffix '");
                    m.append(self.text_of(suffix_r.0, suffix_r.1));
                    m.append("'");
                    return Err(error_span(m, (e.wrapping_add(1), i)));
                },
            };
            match self.config.find_layer(name) {
                Some(l) => {
                    let current = self.config.layers[l].1.suffix;
                    if current != code && code != 0 {
                        let mut m = String::from_str("layer suffix may not be changed; ");
                        let names = modifiers_to_string(current);
                        m.append(names.as_str());
                        m.append(" != ");
                        m.append(self.text_of(suffix_r.0, suffix_r.1));
                        return Err(error_span(m, (s, i)));
                    }
                },
                None => {
                    if find_char(name, '+').is_none() {
                        self.config.new_layer(name, code);
                    }
                },
            }
        }
        Ok(())
    }

    /// Reads the sections of the source.
    fn parse_sections(&mut self) -> (r: Result<(), ConfigError>)
        requires
            old(self).wf(),
        ensures
            final(self).read_on(old(self)),
            blank(old(self).chars@) && old(self).iter.next_item is None ==> r is Ok && final(self).config
                == old(self).config,
            (old(self).iter.next_item is None && forall|j: int| 0 <= j < old(self).chars@.len() ==> old(self).chars@[j] != '[') ==> final(self).config == old(self).config && (r is Ok
                <==> old(self).found_result(CharClass::NonWhitespace) is None) && (r matches Err(e) ==> e.message@
                == "expected '['"@),
            (global_only(old(self).chars@) && old(self).iter.next_item is None && old(self).iter.pos == 0) ==> r is Ok && final(self).config == old(self).config,
    {
        proof {
            lemma_found_result(*old(self), CharClass::NonWhitespace);
        }
        self.scan_layer_names()?;
        let ghost mut at_start = true;
        proof {
            if blank(self.chars@) {
                lemma_blank_finds_nothing(self.chars@, self.iter.pos as int);
            }
        }
        loop
            invariant
                self.read_on(old(self)),
                blank(old(self).chars@) && old(self).iter.next_item is None ==> self.iter == old(self).iter
                    && find_from(self.chars@, self.iter.pos as int, false, CharClass::NonWhitespace) is None
                    && self.config == old(self).config,
                at_start && (old(self).iter.next_item is None && forall|j: int| 0 <= j < old(self).chars@.len() ==> old(self).chars@[j] != '[') ==> self.iter == old(self).iter && self.config == old(self).config,
                !at_start ==> !(old(self).iter.next_item is None && forall|j: int| 0 <= j < old(self).chars@.len() ==> old(self).chars@[j] != '['),
                (global_only(old(self).chars@) && old(self).iter.next_item is None && old(self).iter.pos == 0) && at_start ==> self.iter == old(self).iter && self.config == old(self).config,
                (global_only(old(self).chars@) && old(self).iter.next_item is None && old(self).iter.pos == 0) && !at_start ==> self.config == old(self).config && self.found_result(CharClass::NonWhitespace) is None,
            decreases self.remaining(),
        {
            let ghost first = at_start;
            proof {
                if (global_only(old(self).chars@) && old(self).iter.next_item is None && old(self).iter.pos == 0) {
                    lemma_global_only(old(self).chars@);
                    if at_start {
                        reveal_with_fuel(find_from, 2);
                        assert(find_from(self.chars@, 0, false, CharClass::NonWhitespace) == Some(0int));
                    }
                }
            }
            let start = match self.next_non_ws() {
                None => {
                    return Ok(());
                },
                Some(start) => start,
            };
            if start.1 != '[' {
                return Err(error_span(String::from_str("expected '['"), (start.0, start.0.wrapping_add(1))));
            }
            proof {
                at_start = false;
            }
            let ghost bound = self.remaining();
            self.mark_start();
            proof {
                if (global_only(old(self).chars@) && old(self).iter.next_item is None && old(self).iter.pos == 0) && first {
                    assert(self.iter.pos == 1 && self.iter.next_item is None);
                    reveal_with_fuel(find_from, 8);
                    assert(find_from(self.chars@, 1, false, CharClass::SectionEnd) == Some(7int));
                }
            }
            let tag_end = match self.find(CharClass::SectionEnd) {
                Some(t) => {
                    if t.1 == ']' {
                        t
                    } else {
                        return Err(error_span(
                            String::from_str("Missing section end delimiter ']'"),
                            (start.0, t.0),
                        ));
                    }
                },
                None => {
                    return Err(error_span(
                        String::from_str("Missing section end delimiter ']'"),
                        (start.0, self.chars.len()),
                    ));
                },
            };
            let tag_start = start.0.wrapping_add(1);
            let full = self.raw((tag_start, tag_end.0));
            let ghost gfirst = (global_only(old(self).chars@) && old(self).iter.next_item is None && old(self).iter.pos == 0) && first;
            proof {
                if gfirst {
                    assert(tag_start == 1 && tag_end.0 == 7);
                    assert(full@ == "global"@);
                    reveal_strlit("global");
                    lemma_white_tail_finds_nothing(self.chars@, 8);
                }
            }
            let mut tag_len: usize = 0;
            while tag_len < full.len() && !invalid_section_char(full[tag_len])
                invariant
                    tag_len <= full@.len(),
                    gfirst ==> full@ == "global"@ && full@ == seq!['g', 'l', 'o', 'b', 'a', 'l'],
                decreases full@.len() - tag_len,
            {
                tag_len = tag_len + 1;
            }
            proof {
                if gfirst {
                    assert(tag_len == 6);
                    assert(full@.subrange(0, 6) =~= full@);
                }
            }
            let tag_name = vstd::slice::slice_subrange(full, 0, tag_len);
            let rem = (tag_start.wrapping_add(tag_len), tag_end.0);
            if eq_lit(tag_name, "global") {
                self.parse_global(rem)?;
            } else if eq_lit(tag_name, "matrix") {
                self.parse_matrix()?;
            } else if eq_lit(tag_name, "firmware") {
                self.assert_no_suffix(rem)?;
                self.parse_firmware()?;
            } else if eq_lit(tag_name, "aliases") {
                self.assert_no_suffix(rem)?;
                self.parse_aliases()?;
            } else {
                self.parse_layer((tag_start, rem.0))?;
            }
            assert(self.remaining() <= bound);
        }
    }

    fn assert_no_suffix(&self, r: (usize, usize)) -> (v: Result<(), ConfigError>)
        ensures
            v is Ok <==> r.0 >= r.1,
            v matches Err(e) ==> e.span == Some(Range { start: r.0, end: r.1 }),
    {
        if r.0 >= r.1 {
            Ok(())
        } else {
            Err(error_span(String::from_str("suffix not allowed here"), r))
        }
    }

    /// The global setting `name`, taken out of the configuration, or its defaults.
    fn take_global(&mut self, name: &[char], name_text: &str) -> (r: Result<GlobalProp, ConfigError>)
        requires
            old(self).wf(),
        ensures
            final(self).read_on(old(self)),
            final(self).remaining() == old(self).remaining(),
            final(self).config == (KeyboardConfig { global_map: final(self).config.global_map, ..old(self).config }),
            (forall|k: int| 0 <= k < old(self).config.global_map@.len() ==> old(self).config.global_map@[k].0@ != name@)
                ==> final(self).config == old(self).config && (r is Err <==> !is_global_name(name@)) && (r matches Ok(
                g) ==> default_global_ok(name@, g)),
            forall|i: int|
                #![trigger old(self).config.global_map@[i]]
                0 <= i < old(self).config.global_map@.len() && old(self).config.global_map@[i].0@ == name@ && (forall|k: int|
                    0 <= k < i ==> old(self).config.global_map@[k].0@ != name@) ==> r == Ok::<GlobalProp, ConfigError>(
                    old(self).config.global_map@[i].1,
                ) && final(self).config.global_map@ == old(self).config.global_map@.remove(i),
    {
        match self.config.find_global(name) {
            Some(i) => {
                let (_, g) = self.config.global_map.remove(i);
                Ok(g)
            },
            None => match default_global(name) {
                Some(g) => Ok(g),
                None => {
                    let mut m = String::from_str("Invalid global '");
                    m.append(name_text);
                    m.append("'");
                    Err(ConfigError::new(m, Range { start: 0, end: 0 }))
                },
            },
        }
    }

    /// Reads a `[global]` section, or a `[global.name.field]` section of a mouse profile.
    fn parse_global(&mut self, suffix: (usize, usize)) -> (r: Result<(), ConfigError>)
        requires
            old(self).wf(),
        ensures
            final(self).read_on(old(self)),
            suffix.0 < suffix.1 && (old(self).spec_name(suffix).len() == 0 || old(self).spec_name(suffix)[0] != '.')
                ==> *final(self) == *old(self) && (r matches Err(e) && e.message@ == "Invalid global name"@),
            suffix.0 >= suffix.1 && (old(self).found_result(CharClass::NonWhitespace) matches None || old(self).found_result(
                CharClass::NonWhitespace,
            ).unwrap().1 == '[') ==> r is Ok && final(self).config == old(self).config,
            suffix.0 >= suffix.1 && old(self).found_result(CharClass::NonWhitespace) is None ==> final(self).found_result(
                CharClass::NonWhitespace,
            ) is None,
    {
        if suffix.0 < suffix.1 {
            let (ns, ne) = self.name_span(suffix);
            let name = self.name(suffix);
            if name.len() == 0 || name[0] != '.' {
                return Err(error_span(String::from_str("Invalid global name"), suffix));
            }
            let rest = vstd::slice::slice_subrange(name, 1, name.len());
            let (gname_r, field_r) = match find_char(rest, '.') {
                Some(k) => (
                    (ns.wrapping_add(1), ns.wrapping_add(1).wrapping_add(k)),
                    (ns.wrapping_add(2).wrapping_add(k), ne),
                ),
                None => ((ns, ne), (ne, ne)),
            };
            let gname = self.raw(gname_r);
            let field = self.raw(field_r);
            let gname_text = self.raw_str(gname_r);
            let mut g = match self.take_global(gname, gname_text) {
                Ok(g) => g,
                Err(err) => {
                    return Err(error_span(err.message, suffix));
                },
            };
            loop
                invariant
                    self.read_on(old(self)),
                    suffix.0 < suffix.1,
                    !(old(self).spec_name(suffix).len() == 0 || old(self).spec_name(suffix)[0] != '.'),
                decreases self.remaining(),
            {
                let pos = match self.skip_whitespace() {
                    Some(pos) => pos,
                    None => {
                        break;
                    },
                };
                if pos.1 == '[' {
                    break;
                }
                let (left, right) = match self.parse_assignment()? {
                    None => {
                        return Ok(());
                    },
                    Some(a) => a,
                };
                let eol = match self.find(CharClass::Newline) {
                    Some(e) => e.0,
                    None => self.chars.len(),
                };
                self.set_sub_field(&g, field_r, left, (right.0, eol))?;
            }
            self.config.insert_global(gname, g);
            return Ok(());
        }
        let ghost mut at_start = true;
        loop
            invariant
                self.read_on(old(self)),
                suffix.0 >= suffix.1,
                at_start ==> *self == *old(self),
                !at_start ==> !(old(self).found_result(CharClass::NonWhitespace) matches None || old(
                    self,
                ).found_result(CharClass::NonWhitespace).unwrap().1 == '['),
            decreases self.remaining(),
        {
            let pos = match self.skip_whitespace() {
                Some(pos) => pos,
                None => {
                    return Ok(());
                },
            };
            if pos.1 == '[' {
                return Ok(());
            }
            proof {
                at_start = false;
            }
            match self.parse_assignment()? {
                None => {
                    return Ok(());
                },
                Some((left, right)) => {
                    let ghost bound = self.remaining();
                    self.assign_global(left, right)?;
                    self.assert_no_more_values(TOO_MANY_RHS)?;
                    assert(self.remaining() <= bound);
                },
            }
        }
    }

    /// Records the setting `name = value` of the field `field` of the mouse profile `g`.
    fn set_sub_field(&mut self, g: &GlobalProp, field: (usize, usize), name: (usize, usize), value: (usize, usize)) -> (r: Result<(), ConfigError>)
        requires
            old(self).wf(),
        ensures
            final(self).read_on(old(self)),
            final(self).remaining() == old(self).remaining(),
            r is Ok <==> (g.spec is MouseProfile && (old(self).spec_raw(field) == "movement"@ || old(self).spec_raw(
                field,
            ) == "scroll"@) && (old(self).spec_name(name) == "curve"@ || old(self).spec_name(name) == "max_time"@
                || old(self).spec_name(name) == "min_ticks_per_ms"@ || old(self).spec_name(name)
                == "max_ticks_per_ms"@)),
            r is Err ==> *final(self) == *old(self),
            r matches Err(e) ==> e.span == Some(Range { start: name.0, end: value.1 }),
            r is Ok ==> final(self).config == (KeyboardConfig {
                mouse_settings: final(self).config.mouse_settings,
                ..old(self).config
            }) && final(self).config.mouse_settings@.len() == old(self).config.mouse_settings@.len() + 1
                && final(self).config.mouse_settings@.drop_last() == old(self).config.mouse_settings@ && ({
                let m = final(self).config.mouse_settings@.last();
                &&& m.index == g.index
                &&& m.field@ == old(self).spec_raw(field)
                &&& m.name@ == old(self).spec_name(name)
                &&& m.value@ == old(self).spec_name(value)
                &&& m.span == Range { start: name.0, end: value.1 }
            }),
    {
        let f = self.raw(field);
        let nm = self.name(name);
        let span = (name.0, value.1);
        match &g.spec {
            GlobalType::MouseProfile(_) => {
                if !(eq_lit(f, "movement") || eq_lit(f, "scroll")) {
                    let mut m = String::from_str("unknown field ");
                    m.append(self.raw_str(field));
                    return Err(error_span(m, span));
                }
                if !(eq_lit(nm, "curve") || eq_lit(nm, "max_time") || eq_lit(nm, "min_ticks_per_ms")
                    || eq_lit(nm, "max_ticks_per_ms")) {
                    let mut m = String::from_str("unknown field ");
                    m.append(self.raw_str(field));
                    m.append(".");
                    m.append(self.name_str(name));
                    return Err(error_span(m, span));
                }
                let setting = MouseSetting {
                    index: g.index,
                    field: vstd::slice::slice_to_vec(f),
                    name: vstd::slice::slice_to_vec(nm),
                    value: vstd::slice::slice_to_vec(self.name(value)),
                    span: Range { start: span.0, end: span.1 },
                };
                self.config.mouse_settings.push(setting);
                Ok(())
            },
            _ => {
                let mut m = String::from_str("unknown field ");
                m.append(self.raw_str(field));
                Err(error_span(m, span))
            },
        }
    }

    /// Sets the global setting named by the range `name_r` to the value in `value_r`.
    fn assign_global(&mut self, name_r: (usize, usize), value_r: (usize, usize)) -> (r: Result<(), ConfigError>)
        requires
            old(self).wf(),
        ensures
            final(self).read_on(old(self)),
            ({
                let n = old(self).spec_name(name_r);
                let v = old(self).spec_name(value_r);
                !(n == "unicode_prefix"@ || n == "unicode_suffix"@) ==> {
                    &&& r is Ok <==> (timeout_bounds(n) matches Some(b) && spec_parse_duration(v, b.0, b.1, b.2) is Some)
                    &&& r is Err ==> *final(self) == *old(self)
                    &&& r is Ok ==> final(self).config == (KeyboardConfig {
                        global_map: final(self).config.global_map,
                        ..old(self).config
                    }) && exists|i: int|
                        0 <= i < final(self).config.global_map@.len() && (#[trigger] final(self).config.global_map@[i]).0@
                            == n && (final(self).config.global_map@[i].1.spec matches GlobalType::Timeout { value, .. }
                            && spec_parse_duration(v, timeout_bounds(n).unwrap().0, timeout_bounds(n).unwrap().1, timeout_bounds(n).unwrap().2) == Some(value))
                }
            }),
    {
        let name = self.name(name_r);
        if eq_lit(name, "unicode_prefix") || eq_lit(name, "unicode_suffix") {
            let action = self.read_action(value_r, MAX_NESTING)?;
            let key = vstd::slice::slice_to_vec(name);
            self.config.temp_map.push((key, action));
            return Ok(());
        }
        let invalid = {
            let mut m = String::from_str("Invalid global '");
            m.append(self.name_str(name_r));
            m.append("'");
            m
        };
        match default_global(name) {
            Some(p) => match p.spec {
                GlobalType::Timeout { min, max, dp, .. } => {
                    proof {
                        lemma_timeout_bounds(name@, p);
                    }
                    if dp > 1 {
                        return Err(error_span(invalid, name_r));
                    }
                    let value = self.parse_duration(value_r, min, max, dp)?;
                    let ghost before = self.config;
                    self.config.insert_global(
                        name,
                        GlobalProp { index: p.index, spec: GlobalType::Timeout { value, min, max, dp } },
                    );
                    proof {
                        let gm0 = before.global_map@;
                        let gm1 = self.config.global_map@;
                        assert(spec_parse_duration(old(self).spec_name(value_r), min, max, dp) == Some(value));
                        assert(name@ == old(self).spec_name(name_r));
                        assert(timeout_bounds(name@) == Some((min, max, dp)));
                        if forall|i: int| 0 <= i < gm0.len() ==> gm0[i].0@ != name@ {
                            assert(gm1[gm1.len() - 1].0@ == name@);
                            assert(gm1[gm1.len() - 1].1.spec == GlobalType::Timeout { value, min, max, dp });
                        } else {
                            let j = choose|j: int| 0 <= j < gm0.len() && gm0[j].0@ == name@;
                            lemma_first_match(gm0, name@, j);
                            let i = choose|i: int| 0 <= i < gm0.len() && gm0[i].0@ == name@ && forall|k: int| 0 <= k < i ==> gm0[k].0@ != name@;
                            assert(gm1[i].0@ == name@);
                            assert(gm1[i].1.spec == GlobalType::Timeout { value, min, max, dp });
                        }

                    }
                    Ok(())
                },
                GlobalType::MouseProfile(_) => {
                    proof {
                        lemma_timeout_bounds(name@, p);
                    }
                    Err(error_span(invalid, name_r))
                },
            },
            None => Err(error_span(invalid, name_r)),
        }
    }

    /// Adds key position `pos` to the aliases of `name`: the code of a key name, or the
    /// name.
    fn assign_position_name(&mut self, pos: u16, name: &[char])
        requires
            old(self).wf(),
        ensures
            final(self).read_on(old(self)),
            final(self).remaining() == old(self).remaining(),
            final(self).iter == old(self).iter,
            final(self).config.layers == old(self).config.layers,
            (forall|i: int| 0 <= i < old(self).config.matrix_map@.len() ==> !alias_of_name(old(self).config.matrix_map@[i].0, name@))
                ==> final(self).config.matrix_map@.len() == old(self).config.matrix_map@.len() + 1
                && alias_of_name(final(self).config.matrix_map@.last().0, name@)
                && final(self).config.matrix_map@.last().1@ == seq![pos],
            (exists|i: int| 0 <= i < old(self).config.matrix_map@.len() && alias_of_name(old(self).config.matrix_map@[i].0, name@))
                ==> final(self).config.matrix_map@.len() == old(self).config.matrix_map@.len() && exists|i: int|
                #![trigger final(self).config.matrix_map@[i]]
                0 <= i < old(self).config.matrix_map@.len() && alias_of_name(old(self).config.matrix_map@[i].0, name@)
                    && final(self).config.matrix_map@[i].1@ == old(self).config.matrix_map@[i].1@.push(pos),
    {
        let key = match self.table.key_code(name) {
            Some(code) => AliasKey::Code(code),
            None => AliasKey::Name(vstd::slice::slice_to_vec(name)),
        };
        self.config.push_alias(key, pos);
    }

    /// The key positions aliased by `name`.
    fn get_aliases(&self, name: &[char]) -> (r: Option<usize>)
        requires
            self.wf(),
        ensures
            r matches Some(i) ==> i < self.config.matrix_map@.len() && alias_of_name(
                self.config.matrix_map@[i as int].0,
                name@,
            ) && forall|k: int| 0 <= k < i ==> !alias_of_name(self.config.matrix_map@[k].0, name@),
            r is None ==> forall|k: int|
                0 <= k < self.config.matrix_map@.len() ==> !alias_of_name(self.config.matrix_map@[k].0, name@),
    {
        let key = match self.table.key_code(name) {
            Some(code) => AliasKey::Code(code),
            None => AliasKey::Name(vstd::slice::slice_to_vec(name)),
        };
        self.config.find_alias(&key)
    }

    /// Reads the `[matrix]` section: the key names of each key position, which also become
    /// the codes of the main layer.
    fn parse_matrix(&mut self) -> (r: Result<(), ConfigError>)
        requires
            old(self).wf(),
        ensures
            final(self).read_on(old(self)),
            (old(self).found_result(CharClass::NonWhitespace) matches None || old(self).found_result(
                CharClass::NonWhitespace,
            ).unwrap().1 == '[') ==> r is Ok && final(self).config == old(self).config,
    {
        let ghost mut first = true;
        loop
            invariant
                self.read_on(old(self)),
                first ==> *self == *old(self),
                !first ==> !(old(self).found_result(CharClass::NonWhitespace) matches None || old(
                    self,
                ).found_result(CharClass::NonWhitespace).unwrap().1 == '['),
            decreases self.remaining(),
        {
            let pos = match self.skip_whitespace() {
                Some(pos) => pos,
                None => {
                    return Ok(());
                },
            };
            if pos.1 == '[' {
                return Ok(());
            }
            proof {
                first = false;
            }
            self.skip_whitespace();
            let mark = self.iter.current.0;
            let (left, right) = match self.parse_assignment()? {
                None => {
                    return Ok(());
                },
                Some(a) => a,
            };
            let ghost bound = self.remaining();
            self.mark_idx = mark;
            let mut kp = match key_position(self.name(left)) {
                Some(p) => p,
                None => {
                    return Err(self.error("Invalid key code"));
                },
            };
            if kp >> 8 >= self.config.row_count as u16 {
                return Err(self.error(TOO_MANY_ROWS));
            }
            let mut value = Some(right);
            while value.is_some()
                invariant
                    self.read_on(old(self)),
                    self.remaining() <= bound,
                    !(old(self).found_result(CharClass::NonWhitespace) matches None || old(self).found_result(
                        CharClass::NonWhitespace,
                    ).unwrap().1 == '['),
                decreases self.remaining() + if value is Some {
                    1int
                } else {
                    0int
                },
            {
                let v = value.unwrap();
                let name = self.name(v);
                if kp & 0xff >= self.config.col_count as u16 {
                    return Err(self.error(TOO_MANY_COLS));
                }
                self.assign_position_name(kp, name);
                if let Some(code) = self.table.key_code(name) {
                    let main: [char; 4] = ['m', 'a', 'i', 'n'];
                    self.config.assign_layer_code(main.as_slice(), kp, code);
                }
                proof {
                    lemma_next_column(kp);
                }
                kp = kp + 1;
                value = self.next_assignment_value();
            }
        }
    }

    /// Reads the `[aliases]` section: more names for key positions.
    fn parse_aliases(&mut self) -> (r: Result<(), ConfigError>)
        requires
            old(self).wf(),
        ensures
            final(self).read_on(old(self)),
            final(self).config.layers == old(self).config.layers,
            (old(self).found_result(CharClass::NonWhitespace) matches None || old(self).found_result(
                CharClass::NonWhitespace,
            ).unwrap().1 == '[') ==> r is Ok && final(self).config == old(self).config,
            r matches Err(e) ==> e.message@ == "Expected word"@ || e.message@ == "Missing ="@
                || e.message@ == "Missing RHS"@ || e.message@ == "Unknown key name"@ || e.message@
                == TOO_MANY_RHS@,
    {
        let ghost mut first = true;
        loop
            invariant
                self.read_on(old(self)),
                first ==> *self == *old(self),
                !first ==> !(old(self).found_result(CharClass::NonWhitespace) matches None || old(
                    self,
                ).found_result(CharClass::NonWhitespace).unwrap().1 == '['),
                self.config.layers == old(self).config.layers,
            decreases self.remaining(),
        {
            let pos = match self.skip_whitespace() {
                Some(pos) => pos,
                None => {
                    return Ok(());
                },
            };
            if pos.1 == '[' {
                return Ok(());
            }
            proof {
                first = false;
            }
            self.skip_whitespace();
            match self.parse_assignment()? {
                None => {
                    return Ok(());
                },
                Some((key, right)) => {
                    let ghost bound = self.remaining();
                    let value = self.name(right);
                    let key_name = self.name(key);
                    if !self.assign_aliases(key_name, value) {
                        return Err(error_span(String::from_str("Unknown key name"), key));
                    }
                    self.assert_no_more_values(TOO_MANY_RHS)?;
                    assert(self.remaining() <= bound);
                },
            }
        }
    }

    /// Gives the key positions that `key` names also the name `value`.
    fn assign_aliases(&mut self, key: &[char], value: &[char]) -> (r: bool)
        requires
            old(self).wf(),
        ensures
            final(self).read_on(old(self)),
            final(self).remaining() == old(self).remaining(),
            final(self).config.layers == old(self).config.layers,
            r <==> (spec_key_position(key@) is Some || exists|i: int|
                0 <= i < old(self).config.matrix_map@.len() && alias_of_name(
                    #[trigger] old(self).config.matrix_map@[i].0,
                    key@,
                )),
            !r ==> *final(self) == *old(self),
    {
        if let Some(pos) = key_position(key) {
            self.assign_position_name(pos, value);
            return true;
        }
        match self.get_aliases(key) {
            Some(i) => {
                let positions = self.config.matrix_map[i].1.clone();
                let mut k: usize = 0;
                while k < positions.len()
                    invariant
                        self.read_on(old(self)),
                        self.remaining() == old(self).remaining(),
                        self.config.layers == old(self).config.layers,
                        k <= positions@.len(),
                    decreases positions@.len() - k,
                {
                    self.assign_position_name(positions[k], value);
                    k = k + 1;
                }
                true
            },
            None => false,
        }
    }

    /// Reads the `[firmware]` section: settings of the firmware build, kept as text.
    fn parse_firmware(&mut self) -> (r: Result<(), ConfigError>)
        requires
            old(self).wf(),
        ensures
            final(self).read_on(old(self)),
            final(self).config == (KeyboardConfig { firmware_map: final(self).config.firmware_map, ..old(self).config }),
            old(self).config.firmware_map@.len() <= final(self).config.firmware_map@.len(),
            final(self).config.firmware_map@.subrange(0, old(self).config.firmware_map@.len() as int)
                == old(self).config.firmware_map@,
            (old(self).found_result(CharClass::NonWhitespace) matches None || old(self).found_result(
                CharClass::NonWhitespace,
            ).unwrap().1 == '[') ==> r is Ok && final(self).config == old(self).config,
            r matches Err(e) ==> e.message@ == "Expected word"@ || e.message@ == "Missing ="@
                || e.message@ == "Missing RHS"@,
    {
        let ghost mut first = true;
        loop
            invariant
                self.read_on(old(self)),
                first ==> *self == *old(self),
                !first ==> !(old(self).found_result(CharClass::NonWhitespace) matches None || old(
                    self,
                ).found_result(CharClass::NonWhitespace).unwrap().1 == '['),
                self.config == (KeyboardConfig { firmware_map: self.config.firmware_map, ..old(self).config }),
                old(self).config.firmware_map@.len() <= self.config.firmware_map@.len(),
                self.config.firmware_map@.subrange(0, old(self).config.firmware_map@.len() as int)
                    == old(self).config.firmware_map@,
            decreases self.remaining(),
        {
            let pos = match self.skip_whitespace() {
                Some(pos) => pos,
                None => {
                    return Ok(());
                },
            };
            if pos.1 == '[' {
                return Ok(());
            }
            proof {
                first = false;
            }
            self.skip_whitespace();
            match self.parse_assignment()? {
                None => {
                    return Ok(());
                },
                Some((key, right)) => {
                    let ghost bound = self.remaining();
                    let eol = match self.find(CharClass::Newline) {
                        Some(e) => e.0,
                        None => self.chars.len(),
                    };
                    let key_name = vstd::slice::slice_to_vec(self.name(key));
                    self.config.firmware_map.push((key_name, Range { start: right.0, end: eol }));
                    assert(self.remaining() <= bound);
                },
            }
        }
    }

    /// Makes sure the composite layer of the `+`-separated layers `name` exists; returns its
    /// key, a bit for each of its layers.
    fn ensure_composite(&mut self, name: &[char], at: usize) -> (r: Result<u32, ConfigError>)
        requires
            old(self).wf(),
        ensures
            final(self).read_on(old(self)),
            final(self).remaining() == old(self).remaining(),
            final(self).config.macros == old(self).config.macros,
            r is Err ==> final(self).config.composites == old(self).config.composites,
            r matches Ok(c) ==> c != 0 && (final(self).config.composites@.len() < 0xffff ==> exists|j: int|
                0 <= j < final(self).config.composites@.len() && (#[trigger] final(self).config.composites@[j]).0 == c),
    {
        let mut composite: u32 = 0;
        let mut start: usize = 0;
        let n = name.len();
        let ghost mut any = false;
        loop
            invariant
                self.read_on(old(self)),
                self.remaining() == old(self).remaining(),
                self.config.macros == old(self).config.macros,
                self.config.composites == old(self).config.composites,
                n == name@.len(),
                start <= n,
                start > 0 ==> any,
                any ==> composite != 0,
            ensures
                self.read_on(old(self)),
                self.remaining() == old(self).remaining(),
                self.config.macros == old(self).config.macros,
                self.config.composites == old(self).config.composites,
                composite != 0,
            decreases n - start,
        {
            let rest = vstd::slice::slice_subrange(name, start, n);
            let len = match find_char(rest, '+') {
                Some(k) => k,
                None => rest.len(),
            };
            let part = vstd::slice::slice_subrange(name, start, start + len);
            let span = (at.wrapping_add(start), at.wrapping_add(start + len));
            match self.config.find_layer(part) {
                None => {
                    let mut m = String::from_str("Unknown layer name ");
                    m.append(self.raw_str(span));
                    return Err(error_span(m, span));
                },
                Some(l) => {
                    let index = self.config.layers[l].1.index;
                    if index > 31 {
                        return Err(error_span(
                            String::from_str("Only 32 layers can be used as part of a composite layer"),
                            span,
                        ));
                    }
                    self.config.mark_composite_part(l);
                    let shifted: u32 = 1u32 << index;
                    assert(shifted != 0 && (composite | shifted) != 0) by (bit_vector)
                        requires
                            index <= 31,
                            shifted == 1u32 << index,
                    ;
                    composite = composite | shifted;
                    proof {
                        any = true;
                    }
                },
            }
            if start + len >= n {
                break;
            }
            start = start + len + 1;
        }
        self.config.ensure_composite_layer(composite);
        proof {
            let i = choose|i: int| composite_ensured(old(self).config.composites@, self.config.composites@, composite, i);
            if self.config.composites@.len() < 0xffff {
                assert(self.config.composites@[i].0 == composite);
            }
        }
        Ok(composite)
    }

    /// Reads a layer section named by the range `name_r`: the actions it gives key positions,
    /// by position or alias.
    fn parse_layer(&mut self, name_r: (usize, usize)) -> (r: Result<(), ConfigError>)
        requires
            old(self).wf(),
        ensures
            final(self).read_on(old(self)),
            (forall|i: int| 0 <= i < old(self).spec_name(name_r).len() ==> old(self).spec_name(name_r)[i] != '+')
                && (old(self).found_result(CharClass::NonWhitespace) matches None || old(self).found_result(
                CharClass::NonWhitespace,
            ).unwrap().1 == '[') ==> r is Ok && final(self).config == old(self).config,
    {
        let name = self.name(name_r);
        let (ns, _) = self.name_span(name_r);
        let composite: u32 = if find_char(name, '+').is_some() {
            self.ensure_composite(name, ns)?
        } else {
            0
        };
        let ghost plain = forall|i: int| 0 <= i < name@.len() ==> name@[i] != '+';
        let ghost mut at_start = true;
        loop
            invariant
                self.read_on(old(self)),
                at_start && plain ==> *self == *old(self),
                plain == (forall|i: int| 0 <= i < old(self).spec_name(name_r).len() ==> old(self).spec_name(name_r)[i] != '+'),
                !at_start && plain ==> !(old(self).found_result(CharClass::NonWhitespace) matches None || old(
                    self,
                ).found_result(CharClass::NonWhitespace).unwrap().1 == '['),
            decreases self.remaining(),
        {
            let pos = match self.skip_whitespace() {
                Some(pos) => pos,
                None => {
                    return Ok(());
                },
            };
            if pos.1 == '[' {
                return Ok(());
            }
            proof {
                at_start = false;
            }
            self.skip_whitespace();
            let mark = self.iter.current.0;
            let (left_r, right) = match self.parse_assignment()? {
                None => {
                    return Ok(());
                },
                Some(a) => a,
            };
            let ghost bound = self.remaining();
            self.mark_idx = mark;
            let left = self.name(left_r);
            let alias = self.get_aliases(left);
            let keypos = match alias {
                Some(i) => {
                    if self.config.matrix_map[i].1.len() == 1 {
                        Some(self.config.matrix_map[i].1[0])
                    } else {
                        None
                    }
                },
                None => key_position(left),
            };
            if let Some(first) = keypos {
                let mut kp = first;
                if kp >> 8 >= self.config.row_count as u16 {
                    return Err(self.error(TOO_MANY_ROWS));
                }
                let mut value = Some(right);
                while value.is_some()
                    invariant
                        self.read_on(old(self)),
                        self.remaining() <= bound,
                        plain == (forall|i: int| 0 <= i < old(self).spec_name(name_r).len() ==> old(self).spec_name(name_r)[i] != '+'),
                        plain ==> !(old(self).found_result(CharClass::NonWhitespace) matches None || old(self).found_result(
                        CharClass::NonWhitespace,
                    ).unwrap().1 == '['),
                    decreases self.remaining() + if value is Some {
                        1int
                    } else {
                        0int
                    },
                {
                    let v = value.unwrap();
                    if kp & 0xff >= self.config.col_count as u16 {
                        return Err(self.error(TOO_MANY_COLS));
                    }
                    let code = self.read_action(v, MAX_NESTING)?;
                    if composite == 0 {
                        self.config.assign_layer_code(name, kp, code);
                    } else {
                        self.config.assign_composite_code(composite, kp, code);
                    }
                    value = self.next_assignment_value();
                    proof {
                    lemma_next_column(kp);
                }
                    kp = kp + 1;
                }
            } else if let Some(i) = alias {
                let positions = self.config.matrix_map[i].1.clone();
                let code = self.read_action(right, MAX_NESTING)?;
                let mut k: usize = 0;
                while k < positions.len()
                    invariant
                        self.read_on(old(self)),
                        self.remaining() <= bound,
                        k <= positions@.len(),
                    decreases positions@.len() - k,
                {
                    if composite == 0 {
                        self.config.assign_layer_code(name, positions[k], code);
                    } else {
                        self.config.assign_composite_code(composite, positions[k], code);
                    }
                    k = k + 1;
                }
                self.assert_no_more_values(TOO_MANY_MULTI_ALIAS_RHS)?;
            } else {
                let mut m = String::from_str("key not found! ");
                m.append(self.name_str(left_r));
                return Err(error_span(m, left_r));
            }
        }
    }
}

/// A key position whose column byte is below its largest value has a next position.
proof fn lemma_next_column(kp: u16)
    by (bit_vector)
    ensures
        (kp & 0xffu16) < 255u16 ==> kp < 0xffffu16,
{
}

/// Compiles the config text `source` into a keyboard configuration.
pub fn compile(source: &str) -> (r: Result<KeyboardConfig, ConfigError>)
    ensures
        r matches Ok(config) ==> config.wf() && config.source@ == source@,
        blank(source@) ==> (r matches Ok(config) && config.mouse_settings@.len() == 0
            && config.layers@.len() == 6 && config.macros@.len() == 0 && config.global_map@.len() == 0),
        (forall|j: int| 0 <= j < source@.len() ==> source@[j] != '[') ==> {
            &&& r is Ok <==> find_from(source@, 0, false, CharClass::NonWhitespace) is None
            &&& r matches Ok(config) ==> config.mouse_settings@.len() == 0 && config.layers@.len() == 6
                && config.macros@.len() == 0 && config.global_map@.len() == 0
            &&& r matches Err(e) ==> e.message@ == "expected '['"@
        },
        global_only(source@) ==> (r matches Ok(config) && config.mouse_settings@.len() == 0
            && config.layers@.len() == 6 && config.macros@.len() == 0 && config.global_map@.len() == 0),
{
    let chars = str_chars(source);
    let mut parser = Parser {
        src: source,
        chars: chars.as_slice(),
        iter: SourceIter::new(chars.len()),
        config: KeyboardConfig::new(),
        mark_idx: 0,
        table: KeyTable::new(),
    };
    match parser.parse_sections() {
        Ok(()) => {
            let mut config = parser.config;
            config.source = chars;
            Ok(config)
        },
        Err(e) => {
            let offsets = crate::config::text::byte_offsets(chars.as_slice());
            Err(byte_span(e, &offsets))
        },
    }
}

/// `e` with its span of characters made a span of bytes, by the byte offsets `offsets` of
/// the characters and of the end.
fn byte_span(e: ConfigError, offsets: &Vec<usize>) -> (r: ConfigError)
    requires
        offsets@.len() > 0,
    ensures
        r.message@ == e.message@,
        e.span is None ==> r.span is None,
        e.span matches Some(s) ==> r.span matches Some(b) && b.start == offsets@[if s.start
            < offsets@.len() { s.start as int } else { offsets@.len() - 1 }] && b.end == offsets@[if s.end
            < offsets@.len() { s.end as int } else { offsets@.len() - 1 }],
{
    let last = offsets.len() - 1;
    match e.span {
        Some(s) => {
            let a = if s.start < offsets.len() {
                s.start
            } else {
                last
            };
            let b = if s.end < offsets.len() {
                s.end
            } else {
                last
            };
            ConfigError { message: e.message, span: Some(Range { start: offsets[a], end: offsets[b] }) }
        },
        None => e,
    }
}

/// The layout binary of the config text `source`. A config with mouse profile settings is
/// refused: their values are floating point numbers, which `compile` leaves to the host to
/// encode before `KeyboardConfig::serialize`.
pub fn text_to_binary(source: &str) -> (r: Result<Vec<u16>, ConfigError>)
    ensures
        r matches Ok(bin) ==> exists|c: KeyboardConfig| c.wf() && c.source@ == source@ && bin@ == c.spec_binary(),
        blank(source@) ==> r is Ok,
        r matches Ok(bin) ==> bin@.len() >= 6 && bin@[0] == crate::globals::PROTOCOL_VERSION,
        (forall|j: int| 0 <= j < source@.len() ==> source@[j] != '[') ==> (r is Ok <==> find_from(
            source@,
            0,
            false,
            CharClass::NonWhitespace,
        ) is None),
        global_only(source@) ==> r is Ok,
{
    let config = compile(source)?;
    if config.mouse_settings.len() > 0 {
        return Err(ConfigError::from_message(
            "Mouse profile settings are floating point numbers; encode them before serializing",
        ));
    }
    Ok(config.serialize())
}

} // verus!
