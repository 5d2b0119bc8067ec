//! The keyboard configuration a config text describes, and its layout binary.
use vstd::prelude::*;
use core::ops::Range;
use crate::config::error::ConfigError;
use crate::config::globals::{duration_error_text, parse_duration_chars, spec_parse_duration};
use crate::config::keycodes::{KeyTable, modifiers_to_bit_map_chars, spec_key_code};
use crate::config::layer::{spec_code_at, spec_layer_binary, spec_macro_binary, ConfigLayer, Macro};
use crate::config::parser::{is_whitespace, spec_is_whitespace};
use crate::config::text::{chars_eq, eq_lit, to_uppercase, unicode_uppercase};
use crate::globals;
use crate::key_range;

verus! {

broadcast use vstd::string::group_string_axioms;

/// The key of an alias list: the code of a key name, or another name.
#[derive(Debug)]
pub enum AliasKey {
    Code(u16),
    Name(Vec<char>),
}

/// Whether the alias keys `a` and `b` are the same key.
pub open spec fn same_alias(a: AliasKey, b: AliasKey) -> bool {
    match (a, b) {
        (AliasKey::Code(x), AliasKey::Code(y)) => x == y,
        (AliasKey::Name(x), AliasKey::Name(y)) => x@ == y@,
        _ => false,
    }
}

/// Whether `a` is the alias key of the name `name`: its key code when it is a key name,
/// else the name.
pub open spec fn alias_of_name(a: AliasKey, name: Seq<char>) -> bool {
    match spec_key_code(name) {
        Some(c) => a matches AliasKey::Code(x) && x == c,
        None => a matches AliasKey::Name(n) && n@ == name,
    }
}

/// The kind and value of a global setting.
#[derive(Debug)]
pub enum GlobalType {
    /// A duration in units of `10^-dp` milliseconds, from `min` to `max` of them.
    Timeout { value: u16, min: u16, max: u16, dp: u8 },
    /// A mouse profile, as the words of its settings.
    MouseProfile(Vec<u16>),
}

impl GlobalType {
    /// The setting of this kind that `text` gives: a duration within the same bounds. Only
    /// durations are set from one value.
    pub fn parse(&self, text: &str) -> (r: Result<GlobalType, String>)
        requires
            *self matches GlobalType::Timeout { dp, .. } && dp <= 1,
        ensures
            *self matches GlobalType::Timeout { min, max, dp, .. } ==> {
                &&& r matches Ok(g) ==> (spec_parse_duration(text@, min, max, dp) matches Some(v)
                    && g == (GlobalType::Timeout { value: v, min, max, dp }))
                &&& r is Err ==> spec_parse_duration(text@, min, max, dp) is None
            },
    {
        match self {
            GlobalType::Timeout { min, max, dp, .. } => {
                let t = crate::config::text::str_chars(text);
                match parse_duration_chars(t.as_slice(), *min, *max, *dp) {
                    Ok(value) => Ok(GlobalType::Timeout { value, min: *min, max: *max, dp: *dp }),
                    Err(e) => Err(e),
                }
            },
            GlobalType::MouseProfile(_) => Err(String::from_str("Unsupported")),
        }
    }
}

/// A global setting: its index in the layout and its value.
#[derive(Debug)]
pub struct GlobalProp {
    pub index: u16,
    pub spec: GlobalType,
}

/// A mouse profile setting as written: profile, field, name and value text, and the
/// characters of the source from its name to the end of its line. Its value is a floating
/// point number, which the host encodes.
#[derive(Debug)]
pub struct MouseSetting {
    pub index: u16,
    pub field: Vec<char>,
    pub name: Vec<char>,
    pub value: Vec<char>,
    pub span: Range<usize>,
}

/// The words of a global setting in a layout.
pub open spec fn spec_global_binary(g: GlobalProp) -> Seq<u16> {
    match g.spec {
        GlobalType::Timeout { value, .. } => seq![g.index, value],
        GlobalType::MouseProfile(words) => seq![g.index] + words@,
    }
}

impl GlobalProp {
    pub fn serialize(&self) -> (r: Vec<u16>)
        ensures
            r@ == spec_global_binary(*self),
    {
        match &self.spec {
            GlobalType::Timeout { value, .. } => {
                let v = vec![self.index, *value];
                assert(v@ =~= spec_global_binary(*self));
                v
            },
            GlobalType::MouseProfile(words) => crate::config::layer::binary_seq(self.index, words.as_slice()),
        }
    }
}

/// The number of macros a layout can hold: their codes follow `MACROS_MIN` within 16 bits.
pub const MAX_MACROS: usize = 0xefff;

/// The layers every config has, with their modifier suffixes.
pub open spec fn default_layer_name(i: int) -> Seq<char> {
    if i == 0 {
        "control"@
    } else if i == 1 {
        "shift"@
    } else if i == 2 {
        "alt"@
    } else if i == 3 {
        "gui"@
    } else if i == 4 {
        "altgr"@
    } else {
        "main"@
    }
}

/// A keyboard configuration.
pub struct KeyboardConfig {
    /// The characters of the config text.
    pub source: Vec<char>,
    pub global_map: Vec<(Vec<char>, GlobalProp)>,
    pub temp_map: Vec<(Vec<char>, u16)>,
    pub firmware_map: Vec<(Vec<char>, Range<usize>)>,
    pub matrix_map: Vec<(AliasKey, Vec<u16>)>,
    pub layers: Vec<(Vec<char>, ConfigLayer)>,
    pub composites: Vec<(u32, ConfigLayer)>,
    pub macros: Vec<Macro>,
    pub mouse_settings: Vec<MouseSetting>,
    pub next_layer: u16,
    pub row_count: u8,
    pub col_count: u8,
}

impl KeyboardConfig {
    pub open spec fn wf(&self) -> bool {
        &&& forall|i: int| 0 <= i < self.layers@.len() ==> (#[trigger] self.layers@[i]).1.wf()
        &&& forall|i: int| 0 <= i < self.composites@.len() ==> (#[trigger] self.composites@[i]).1.wf()
        &&& self.layers@.len() <= 0xffff
        &&& self.composites@.len() <= 0xffff
        &&& self.macros@.len() <= MAX_MACROS
    }

    /// The configuration of an empty config: the default layers and nothing else.
    pub fn new() -> (r: Self)
        ensures
            r.wf(),
            r.layers@.len() == 6,
            forall|i: int| 0 <= i < 6 ==> (#[trigger] r.layers@[i]).0@ == default_layer_name(i),
            r.macros@.len() == 0,
            r.global_map@.len() == 0,
            r.mouse_settings@.len() == 0,
            r.composites@.len() == 0,
            r.row_count == 0,
            r.col_count == 0,
    {
        let mut layers: Vec<(Vec<char>, ConfigLayer)> = Vec::new();
        let names: [&'static str; 6] = ["control", "shift", "alt", "gui", "altgr", "main"];
        let codes: [u8; 6] = [1, 2, 4, 8, 0x40, 0];
        let mut i: usize = 0;
        while i < 6
            invariant
                i <= 6,
                layers@.len() == i,
                names@ == seq!["control", "shift", "alt", "gui", "altgr", "main"],
                forall|k: int| 0 <= k < i ==> (#[trigger] layers@[k]).1.wf(),
                forall|k: int| 0 <= k < i ==> (#[trigger] layers@[k]).0@ == default_layer_name(k),
            decreases 6 - i,
        {
            let name = crate::config::text::str_chars(names[i]);
            layers.push((name, ConfigLayer::new(i as u16, codes[i])));
            i = i + 1;
        }
        KeyboardConfig {
            source: Vec::new(),
            global_map: Vec::new(),
            temp_map: Vec::new(),
            firmware_map: Vec::new(),
            matrix_map: Vec::new(),
            layers,
            composites: Vec::new(),
            macros: Vec::new(),
            mouse_settings: Vec::new(),
            next_layer: 6,
            row_count: 0,
            col_count: 0,
        }
    }

    /// The position of the layer named `name`.
    pub fn find_layer(&self, name: &[char]) -> (r: Option<usize>)
        ensures
            r matches Some(i) ==> i < self.layers@.len() && self.layers@[i as int].0@ == name@
                && forall|k: int| 0 <= k < i ==> self.layers@[k].0@ != name@,
            r is None ==> forall|i: int| 0 <= i < self.layers@.len() ==> self.layers@[i].0@ != name@,
    {
        let mut i: usize = 0;
        while i < self.layers.len()
            invariant
                i <= self.layers@.len(),
                forall|k: int| 0 <= k < i ==> self.layers@[k].0@ != name@,
            decreases self.layers@.len() - i,
        {
            if chars_eq(self.layers[i].0.as_slice(), name) {
                return Some(i);
            }
            i = i + 1;
        }
        None
    }

    /// The directory index of the layer named `name`.
    pub fn get_layer_index(&self, name: &[char]) -> (r: Option<u16>)
        ensures
            r is Some <==> exists|i: int| 0 <= i < self.layers@.len() && self.layers@[i].0@ == name@,
            r matches Some(x) ==> exists|i: int|
                #![trigger self.layers@[i]]
                0 <= i < self.layers@.len() && self.layers@[i].0@ == name@ && (forall|k: int|
                    0 <= k < i ==> self.layers@[k].0@ != name@) && x == self.layers@[i].1.index,
    {
        match self.find_layer(name) {
            Some(i) => Some(self.layers[i].1.index),
            None => None,
        }
    }

    /// The code the layer named `name` gives key position `rowcol`; 0 for none.
    pub fn code_at(&self, name: &[char], rowcol: u16) -> (r: u16)
        requires
            self.wf(),
        ensures
            (forall|i: int| 0 <= i < self.layers@.len() ==> self.layers@[i].0@ != name@) ==> r == 0,
            forall|i: int|
                #![trigger self.layers@[i]]
                0 <= i < self.layers@.len() && self.layers@[i].0@ == name@ && (forall|k: int|
                    0 <= k < i ==> self.layers@[k].0@ != name@) ==> r == spec_code_at(
                    self.layers@[i].1.codes@,
                    rowcol,
                ),
    {
        match self.find_layer(name) {
            Some(i) => self.layers[i].1.code_at(rowcol),
            None => 0,
        }
    }

    /// Gives key position `pos` of the layer named `name` the code `code`, where there is
    /// such a layer.
    pub fn assign_layer_code(&mut self, name: &[char], pos: u16, code: u16)
        requires
            old(self).wf(),
        ensures
            final(self).wf(),
            final(self).layers@.len() == old(self).layers@.len(),
            final(self).macros@.len() == old(self).macros@.len(),
            final(self).macros == old(self).macros,
            final(self).composites == old(self).composites,
            final(self).global_map == old(self).global_map,
            forall|i: int|
                #![trigger final(self).layers@[i]]
                0 <= i < old(self).layers@.len() ==> {
                    let first = old(self).layers@[i].0@ == name@ && forall|k: int|
                        0 <= k < i ==> old(self).layers@[k].0@ != name@;
                    &&& final(self).layers@[i].0 == old(self).layers@[i].0
                    &&& final(self).layers@[i].1.index == old(self).layers@[i].1.index
                    &&& final(self).layers@[i].1.suffix == old(self).layers@[i].1.suffix
                    &&& final(self).layers@[i].1.composite_part == old(self).layers@[i].1.composite_part
                    &&& !first ==> final(self).layers@[i] == old(self).layers@[i]
                    &&& first ==> spec_code_at(final(self).layers@[i].1.codes@, pos) == code
                        && forall|p: u16|
                        p != pos ==> spec_code_at(final(self).layers@[i].1.codes@, p) == spec_code_at(
                            old(self).layers@[i].1.codes@,
                            p,
                        )
                },
    {
        if let Some(i) = self.find_layer(name) {
            let mut entry = self.layers.remove(i);
            entry.1.set_code(pos, code);
            self.layers.insert(i, entry);
            assert forall|k: int| 0 <= k < self.layers@.len() implies (#[trigger] self.layers@[k]).1.wf() by {
                if k != i {
                    assert(self.layers@[k] == old(self).layers@[k]);
                }
            }
        }
    }

    /// The position of the composite layer of the layers `key`.
    fn find_composite(&self, key: u32) -> (r: Option<usize>)
        ensures
            r matches Some(i) ==> i < self.composites@.len() && self.composites@[i as int].0 == key
                && forall|k: int| 0 <= k < i ==> self.composites@[k].0 != key,
            r is None ==> forall|k: int| 0 <= k < self.composites@.len() ==> self.composites@[k].0 != key,
    {
        let mut i: usize = 0;
        while i < self.composites.len()
            invariant
                i <= self.composites@.len(),
                forall|k: int| 0 <= k < i ==> self.composites@[k].0 != key,
            decreases self.composites@.len() - i,
        {
            if self.composites[i].0 == key {
                return Some(i);
            }
            i = i + 1;
        }
        None
    }

    /// Gives key position `pos` of the composite layer `key` the code `code`.
    pub fn assign_composite_code(&mut self, key: u32, pos: u16, code: u16)
        requires
            old(self).wf(),
        ensures
            final(self).wf(),
            final(self).layers@.len() == old(self).layers@.len(),
            final(self).macros@.len() == old(self).macros@.len(),
            final(self).layers == old(self).layers,
            final(self).macros == old(self).macros,
            final(self).composites@.len() == old(self).composites@.len(),
            forall|i: int|
                #![trigger final(self).composites@[i]]
                0 <= i < old(self).composites@.len() ==> {
                    let first = old(self).composites@[i].0 == key && forall|k: int|
                        0 <= k < i ==> old(self).composites@[k].0 != key;
                    &&& final(self).composites@[i].0 == old(self).composites@[i].0
                    &&& final(self).composites@[i].1.index == old(self).composites@[i].1.index
                    &&& final(self).composites@[i].1.suffix == old(self).composites@[i].1.suffix
                    &&& !first ==> final(self).composites@[i] == old(self).composites@[i]
                    &&& first ==> spec_code_at(final(self).composites@[i].1.codes@, pos) == code
                        && forall|p: u16|
                        p != pos ==> spec_code_at(final(self).composites@[i].1.codes@, p)
                        == spec_code_at(old(self).composites@[i].1.codes@, p)
                },
    {
        if let Some(i) = self.find_composite(key) {
            let mut entry = self.composites.remove(i);
            entry.1.set_code(pos, code);
            self.composites.insert(i, entry);
            assert forall|k: int| 0 <= k < self.composites@.len() implies (#[trigger] self.composites@[k]).1.wf() by {
                if k != i {
                    assert(self.composites@[k] == old(self).composites@[k]);
                }
            }
        }
    }

    /// Adds a layer named `name` with modifier suffix `code`, as the next layer.
    pub fn new_layer(&mut self, name: &[char], code: u8)
        requires
            old(self).wf(),
        ensures
            final(self).wf(),
            final(self).macros == old(self).macros,
            final(self).composites == old(self).composites,
            final(self).row_count == old(self).row_count,
            final(self).col_count == old(self).col_count,
            old(self).layers@.len() < 0xffff ==> {
                &&& final(self).layers@.len() == old(self).layers@.len() + 1
                &&& final(self).layers@.last().0@ == name@
                &&& final(self).layers@.last().1.codes@.len() == 0
                &&& final(self).layers@.last().1.index == old(self).next_layer
                &&& final(self).layers@.last().1.suffix == code
            },
            old(self).layers@.len() >= 0xffff ==> final(self).layers == old(self).layers,
            forall|k: int| 0 <= k < old(self).layers@.len() ==> final(self).layers@[k] == old(self).layers@[k],
    {
        if self.layers.len() < 0xffff {
            let index = self.next_layer;
            self.layers.push((vstd::slice::slice_to_vec(name), ConfigLayer::new(index, code)));
            self.next_layer = if self.next_layer < u16::MAX {
                self.next_layer + 1
            } else {
                self.next_layer
            };
            assert forall|k: int| 0 <= k < self.layers@.len() implies (#[trigger] self.layers@[k]).1.wf() by {
                if k < old(self).layers@.len() {
                    assert(self.layers@[k] == old(self).layers@[k]);
                }
            }
        }
    }

    /// The key position that `name` gives: `0x` and two hexadecimal digits, row then
    /// column, or three or four, the row in the high byte.
    pub fn key_position(&self, name: &[char]) -> (r: Option<u16>)
        ensures
            r == spec_key_position(name@),
    {
        key_position(name)
    }

    /// The text of `range` of the source, without a backslash that escapes it.
    pub fn text(&self, range: Range<usize>) -> (r: Vec<char>)
        requires
            range.start <= range.end <= self.source@.len(),
        ensures
            r@ == spec_text(self.source@, range.start as int, range.end as int),
    {
        let start = if range.end - range.start > 1 && self.source[range.start] == '\\' {
            range.start + 1
        } else {
            range.start
        };
        vstd::slice::slice_to_vec(vstd::slice::slice_subrange(self.source.as_slice(), start, range.end))
    }

    /// The value in `range` of the source: up to its last `#`, without the whitespace around
    /// it.
    pub fn trim_value(&self, range: Range<usize>) -> (r: Vec<char>)
        requires
            range.start <= range.end <= self.source@.len(),
        ensures
            r@ == spec_trim(spec_before_comment(self.source@.subrange(range.start as int, range.end as int))),
    {
        let value = vstd::slice::slice_subrange(self.source.as_slice(), range.start, range.end);
        let mut i = value.len();
        let mut end = value.len();
        while i > 0
            invariant_except_break
                i <= value@.len(),
                end == value@.len(),
                hash_cut(value@, value@.len() as int) == hash_cut(value@, i as int),
            ensures
                end == hash_cut(value@, value@.len() as int),
                end <= value@.len(),
            decreases i,
        {
            if value[i - 1] == '#' {
                end = i - 1;
                break;
            }
            i = i - 1;
        }
        let cut = vstd::slice::slice_subrange(value, 0, end);
        let mut s: usize = 0;
        while s < cut.len() && is_whitespace(cut[s])
            invariant
                s <= cut@.len(),
                lead_ws(cut@, 0) == lead_ws(cut@, s as int),
            decreases cut@.len() - s,
        {
            s = s + 1;
        }
        let mut e = cut.len();
        while e > s && is_whitespace(cut[e - 1])
            invariant
                s <= e <= cut@.len(),
                s == lead_ws(cut@, 0),
                trail_ws(cut@, s as int, cut@.len() as int) == trail_ws(cut@, s as int, e as int),
            decreases e,
        {
            e = e - 1;
        }
        assert(cut@ == spec_before_comment(value@));
        assert(cut@.subrange(s as int, e as int) == spec_trim(cut@));
        vstd::slice::slice_to_vec(vstd::slice::slice_subrange(cut, s, e))
    }

    /// The global setting named `name`, when it is set.
    pub fn global(&self, name: &[char]) -> (r: Option<&GlobalProp>)
        ensures
            r matches Some(g) ==> exists|i: int|
                0 <= i < self.global_map@.len() && self.global_map@[i].0@ == name@ && *g
                    == self.global_map@[i].1,
            r is None ==> forall|i: int| 0 <= i < self.global_map@.len() ==> self.global_map@[i].0@ != name@,
    {
        let mut i: usize = 0;
        while i < self.global_map.len()
            invariant
                i <= self.global_map@.len(),
                forall|k: int| 0 <= k < i ==> self.global_map@[k].0@ != name@,
            decreases self.global_map@.len() - i,
        {
            if chars_eq(self.global_map[i].0.as_slice(), name) {
                return Some(&self.global_map[i].1);
            }
            i = i + 1;
        }
        None
    }

    /// The key positions that the alias `name` stands for: a key name's code, or a name.
    pub fn get_aliases(&self, name: &[char]) -> (r: Option<&Vec<u16>>)
        ensures
            r matches Some(v) ==> exists|i: int|
                0 <= i < self.matrix_map@.len() && *v == self.matrix_map@[i].1 && alias_of_name(self.matrix_map@[i].0, name@),
            r is None ==> forall|i: int|
                0 <= i < self.matrix_map@.len() ==> !alias_of_name(self.matrix_map@[i].0, name@),
    {
        let table = KeyTable::new();
        let key = match table.key_code(name) {
            Some(code) => AliasKey::Code(code),
            None => AliasKey::Name(vstd::slice::slice_to_vec(name)),
        };
        match self.find_alias(&key) {
            Some(i) => Some(&self.matrix_map[i].1),
            None => None,
        }
    }

    /// The firmware setting `arg`, the latest set: as written, or else in upper case.
    pub open spec fn spec_firmware_get(&self, arg: Seq<char>) -> Option<Range<usize>> {
        let n = self.firmware_map@.len() as int;
        match last_firmware(self.firmware_map@, arg, n) {
            Some(v) => Some(v),
            None => last_firmware(self.firmware_map@, unicode_uppercase(arg), n),
        }
    }

    /// Where the value of the firmware setting `arg` is in the source; the setting is looked
    /// up as written, then in upper case.
    pub fn firmware_get(&self, arg: &[char]) -> (r: Option<Range<usize>>)
        ensures
            r == self.spec_firmware_get(arg@),
    {
        match self.find_firmware(arg) {
            Some(i) => Some(Range { start: self.firmware_map[i].1.start, end: self.firmware_map[i].1.end }),
            None => {
                let upper = to_uppercase(arg);
                match self.find_firmware(upper.as_slice()) {
                    Some(i) => Some(Range { start: self.firmware_map[i].1.start, end: self.firmware_map[i].1.end }),
                    None => None,
                }
            },
        }
    }

    /// The firmware setting named `name`, the latest one set.
    fn find_firmware(&self, name: &[char]) -> (r: Option<usize>)
        ensures
            r matches Some(i) ==> i < self.firmware_map@.len() && last_firmware(
                self.firmware_map@,
                name@,
                self.firmware_map@.len() as int,
            ) == Some(self.firmware_map@[i as int].1),
            r is None ==> last_firmware(self.firmware_map@, name@, self.firmware_map@.len() as int)
                is None,
    {
        let mut i = self.firmware_map.len();
        while i > 0
            invariant
                i <= self.firmware_map@.len(),
                last_firmware(self.firmware_map@, name@, self.firmware_map@.len() as int)
                    == last_firmware(self.firmware_map@, name@, i as int),
            decreases i,
        {
            if chars_eq(self.firmware_map[i - 1].0.as_slice(), name) {
                return Some(i - 1);
            }
            i = i - 1;
        }
        None
    }

    /// The text of the value of the firmware setting `arg`; see `firmware_get` and `text`.
    /// Nothing when its place is not in the source.
    pub fn firmware_get_str(&self, arg: &[char]) -> (r: Option<Vec<char>>)
        ensures
            r matches Some(t) ==> (self.spec_firmware_get(arg@) matches Some(v) && v.start <= v.end
                <= self.source@.len() && t@ == spec_text(self.source@, v.start as int, v.end as int)),
            r is None ==> (self.spec_firmware_get(arg@) matches Some(v) ==> !(v.start <= v.end
                <= self.source@.len())),
    {
        match self.firmware_get(arg) {
            Some(v) => {
                if v.start <= v.end && v.end <= self.source.len() {
                    Some(self.text(v))
                } else {
                    None
                }
            },
            None => None,
        }
    }

    /// The global setting named `name`.
    pub fn find_global(&self, name: &[char]) -> (r: Option<usize>)
        ensures
            r matches Some(i) ==> i < self.global_map@.len() && self.global_map@[i as int].0@ == name@
                && forall|k: int| 0 <= k < i ==> self.global_map@[k].0@ != name@,
            r is None ==> forall|k: int| 0 <= k < self.global_map@.len() ==> self.global_map@[k].0@ != name@,
    {
        let mut i: usize = 0;
        while i < self.global_map.len()
            invariant
                i <= self.global_map@.len(),
                forall|k: int| 0 <= k < i ==> self.global_map@[k].0@ != name@,
            decreases self.global_map@.len() - i,
        {
            if chars_eq(self.global_map[i].0.as_slice(), name) {
                return Some(i);
            }
            i = i + 1;
        }
        None
    }

    /// Sets the global setting `name` to `value`.
    pub fn insert_global(&mut self, name: &[char], value: GlobalProp)
        requires
            old(self).wf(),
        ensures
            final(self).wf(),
            *final(self) == (KeyboardConfig { global_map: final(self).global_map, ..*old(self) }),
            final(self).layers@.len() == old(self).layers@.len(),
            final(self).macros@.len() == old(self).macros@.len(),
            final(self).layers == old(self).layers,
            final(self).macros == old(self).macros,
            final(self).composites == old(self).composites,
            (exists|i: int| 0 <= i < old(self).global_map@.len() && old(self).global_map@[i].0@ == name@)
                ==> final(self).global_map@.len() == old(self).global_map@.len(),
            (forall|i: int| 0 <= i < old(self).global_map@.len() ==> old(self).global_map@[i].0@ != name@)
                ==> final(self).global_map@.len() == old(self).global_map@.len() + 1
                && final(self).global_map@.last().0@ == name@ && final(self).global_map@.last().1 == value,
            forall|i: int|
                #![trigger final(self).global_map@[i]]
                0 <= i < old(self).global_map@.len() ==> if old(self).global_map@[i].0@ == name@
                    && forall|k: int| 0 <= k < i ==> old(self).global_map@[k].0@ != name@ {
                    final(self).global_map@[i].0@ == name@ && final(self).global_map@[i].1 == value
                } else {
                    final(self).global_map@[i] == old(self).global_map@[i]
                },
    {
        match self.find_global(name) {
            Some(i) => {
                self.global_map.set(i, (vstd::slice::slice_to_vec(name), value));
            },
            None => {
                self.global_map.push((vstd::slice::slice_to_vec(name), value));
            },
        }
    }

    /// The words of the global settings, in order of index, each as its index then value.
    pub fn serialize_globals(&self) -> (r: Vec<u16>)
        ensures
            r@ == globals_binary(self.global_map@, globals::LAST_TIMEOUT + 1),
    {
        let mut out: Vec<u16> = Vec::new();
        let mut index: u16 = 0;
        while index <= globals::LAST_TIMEOUT
            invariant
                index <= globals::LAST_TIMEOUT + 1,
                out@ == globals_binary(self.global_map@, index as int),
            decreases globals::LAST_TIMEOUT + 1 - index,
        {
            let ghost before = out@;
            let mut i: usize = 0;
            while i < self.global_map.len()
                invariant
                    i <= self.global_map@.len(),
                    out@ == before + globals_of_index(self.global_map@, index, i as int),
                decreases self.global_map@.len() - i,
            {
                if self.global_map[i].1.index == index {
                    let mut words = self.global_map[i].1.serialize();
                    out.append(&mut words);
                }
                i = i + 1;
                assert(out@ =~= before + globals_of_index(self.global_map@, index, i as int));
            }
            index = index + 1;
        }
        out
    }

    /// The layout binary of the configuration: the header, the global settings, the
    /// directory of layers, composite layers and macros, and their binary forms.
    /// The binaries of the layers, the composite layers and the macros, in that order.
    pub open spec fn part_binaries(&self) -> Seq<Seq<u16>> {
        let rows = self.row_count as int;
        let cols = self.col_count as int;
        Seq::new(self.layers@.len(), |i: int| spec_layer_binary(self.layers@[i].1, rows, cols, 0))
            + Seq::new(
            self.composites@.len(),
            |i: int| spec_layer_binary(self.composites@[i].1, rows, cols, self.composites@[i].0),
        ) + Seq::new(self.macros@.len(), |i: int| spec_macro_binary(self.macros@[i]))
    }

    /// The words of the global settings in a layout: at most `0xffff` of them.
    pub open spec fn layout_globals(&self) -> Seq<u16> {
        let g = globals_binary(self.global_map@, globals::LAST_TIMEOUT + 1);
        if g.len() > 0xffff {
            g.subrange(0, 0xffff)
        } else {
            g
        }
    }

    /// The layout binary: the protocol version, the matrix size, the numbers of layers,
    /// composite layers, macros and global words; the global words; the directory, where
    /// each part starts and where the last ends, counted from the directory; and the parts.
    pub open spec fn spec_binary(&self) -> Seq<u16> {
        let g = self.layout_globals();
        let parts = self.part_binaries();
        let n = parts.len();
        seq![
            globals::PROTOCOL_VERSION,
            (self.col_count as u16 | ((self.row_count as u16) << 8u16)) as u16,
            (self.layers@.len() as u16 | ((self.composites@.len() as u16) << 8u16)) as u16,
            self.macros@.len() as u16,
            g.len() as u16,
        ] + g + Seq::new(n + 1, |k: int| (n + 1 + concat_parts(parts, k).len()) as u16)
            + concat_parts(parts, n as int)
    }

    /// The layout binary of the configuration; see `spec_binary`.
    #[verifier::rlimit(40)]
    #[verifier::spinoff_prover]
    pub fn serialize(&self) -> (r: Vec<u16>)
        requires
            self.wf(),
        ensures
            r@ == self.spec_binary(),
            r@.len() >= 6 + self.layers@.len() + self.composites@.len() + self.macros@.len(),
            r@[0] == globals::PROTOCOL_VERSION,
            r@[1] == (self.col_count as u16 | ((self.row_count as u16) << 8u16)) as u16,
            r@[3] == self.macros@.len() as u16,
    {
        let layer_count = self.layers.len();
        let composite_count = self.composites.len();
        let macros_count = self.macros.len();
        let mut globals_words = self.serialize_globals();
        let gl = globals_words.len();
        if gl > 0xffff {
            globals_words.truncate(0xffff);
        }
        let gl = globals_words.len();
        assert(globals_words@ =~= self.layout_globals());
        let ghost parts = self.part_binaries();
        let ghost n = parts.len();
        let layer_base = 5 + gl;
        let dir_len = 1 + layer_count + composite_count + macros_count + layer_base;
        let mut out: Vec<u16> = Vec::new();
        let mut i: usize = 0;
        while i < dir_len
            invariant
                i <= dir_len,
                out@.len() == i,
            decreases dir_len - i,
        {
            out.push(0);
            i = i + 1;
        }
        out.set(0, globals::PROTOCOL_VERSION);
        out.set(1, self.col_count as u16 | ((self.row_count as u16) << 8));
        out.set(2, layer_count as u16 | ((composite_count as u16) << 8));
        out.set(3, macros_count as u16);
        out.set(4, gl as u16);
        let ghost head = out@.subrange(0, 5);
        let mut g: usize = 0;
        while g < gl
            invariant
                g <= gl,
                gl == globals_words@.len(),
                out@.len() == dir_len,
                dir_len >= layer_base,
                layer_base == 5 + gl,
                out@.subrange(0, 5) == head,
                forall|j: int| 0 <= j < g ==> out@[5 + j] == globals_words@[j],
            decreases gl - g,
        {
            out.set(5 + g, globals_words[g]);
            g = g + 1;
            assert(out@.subrange(0, 5) =~= head);
        }
        let rows = self.row_count as usize;
        let cols = self.col_count as usize;
        let mut l: usize = 0;
        proof {
            assert(concat_parts(parts, 0) =~= Seq::<u16>::empty());
            assert(out@.subrange(dir_len as int, out@.len() as int) =~= concat_parts(parts, 0));
        }
        while l < layer_count
            invariant
                self.wf(),
                parts == self.part_binaries(),
                n == layer_count + composite_count + macros_count,
                layer_count == self.layers@.len(),
                composite_count == self.composites@.len(),
                macros_count == self.macros@.len(),
                l <= layer_count,
                rows == self.row_count,
                cols == self.col_count,
                rows <= 255,
                cols <= 255,
                gl == globals_words@.len(),
                layer_base == 5 + gl,
                dir_len == 1 + layer_count + composite_count + macros_count + layer_base,
                out@.len() == dir_len + concat_parts(parts, l as int).len(),
                out@.subrange(dir_len as int, out@.len() as int) == concat_parts(parts, l as int),
                out@.subrange(0, 5) == head,
                forall|j: int| 0 <= j < gl ==> out@[5 + j] == globals_words@[j],
                forall|j: int| 0 <= j < l ==> out@[layer_base + j] == (n + 1 + concat_parts(parts, j).len()) as u16,
            decreases layer_count - l,
        {
            let rel = out.len() - layer_base;
            out.set(layer_base + l, rel as u16);
            let mut bin = self.layers[l].1.serialize(rows, cols, 0);
            assert(bin@ == parts[l as int]);
            let ghost before = out@;
            out.append(&mut bin);
            l = l + 1;
            proof {
                assert(concat_parts(parts, l as int) == concat_parts(parts, l - 1) + parts[l - 1]);
                assert(out@.subrange(dir_len as int, out@.len() as int) =~= concat_parts(parts, l as int));
                assert(out@.subrange(0, 5) =~= head);
            }
        }
        let composite_base = layer_base + layer_count;
        let mut c: usize = 0;
        while c < composite_count
            invariant
                self.wf(),
                parts == self.part_binaries(),
                n == layer_count + composite_count + macros_count,
                layer_count == self.layers@.len(),
                composite_count == self.composites@.len(),
                macros_count == self.macros@.len(),
                c <= composite_count,
                rows == self.row_count,
                cols == self.col_count,
                rows <= 255,
                cols <= 255,
                gl == globals_words@.len(),
                layer_base == 5 + gl,
                composite_base == layer_base + layer_count,
                dir_len == 1 + layer_count + composite_count + macros_count + layer_base,
                out@.len() == dir_len + concat_parts(parts, layer_count + c).len(),
                out@.subrange(dir_len as int, out@.len() as int) == concat_parts(parts, layer_count + c),
                out@.subrange(0, 5) == head,
                forall|j: int| 0 <= j < gl ==> out@[5 + j] == globals_words@[j],
                forall|j: int| 0 <= j < layer_count + c ==> out@[layer_base + j] == (n + 1 + concat_parts(parts, j).len()) as u16,
            decreases composite_count - c,
        {
            let rel = out.len() - layer_base;
            out.set(composite_base + c, rel as u16);
            let mut bin = self.composites[c].1.serialize(rows, cols, self.composites[c].0);
            assert(bin@ == parts[layer_count + c]);
            out.append(&mut bin);
            c = c + 1;
            proof {
                let k = layer_count + c;
                assert(concat_parts(parts, k) == concat_parts(parts, k - 1) + parts[k - 1]);
                assert(out@.subrange(dir_len as int, out@.len() as int) =~= concat_parts(parts, k));
                assert(out@.subrange(0, 5) =~= head);
            }
        }
        let macro_base = composite_base + composite_count;
        let mut m: usize = 0;
        while m < macros_count
            invariant
                parts == self.part_binaries(),
                n == layer_count + composite_count + macros_count,
                layer_count == self.layers@.len(),
                composite_count == self.composites@.len(),
                macros_count == self.macros@.len(),
                m <= macros_count,
                gl == globals_words@.len(),
                layer_base == 5 + gl,
                macro_base == layer_base + layer_count + composite_count,
                dir_len == 1 + layer_count + composite_count + macros_count + layer_base,
                out@.len() == dir_len + concat_parts(parts, layer_count + composite_count + m).len(),
                out@.subrange(dir_len as int, out@.len() as int) == concat_parts(
                    parts,
                    layer_count + composite_count + m,
                ),
                out@.subrange(0, 5) == head,
                forall|j: int| 0 <= j < gl ==> out@[5 + j] == globals_words@[j],
                forall|j: int| 0 <= j < layer_count + composite_count + m ==> out@[layer_base + j]
                    == (n + 1 + concat_parts(parts, j).len()) as u16,
            decreases macros_count - m,
        {
            let rel = out.len() - layer_base;
            out.set(macro_base + m, rel as u16);
            let mut bin = self.macros[m].serialize();
            assert(bin@ == parts[layer_count + composite_count + m]);
            out.append(&mut bin);
            m = m + 1;
            proof {
                let k = layer_count + composite_count + m;
                assert(concat_parts(parts, k) == concat_parts(parts, k - 1) + parts[k - 1]);
                assert(out@.subrange(dir_len as int, out@.len() as int) =~= concat_parts(parts, k));
                assert(out@.subrange(0, 5) =~= head);
            }
        }
        let rel = out.len() - layer_base;
        out.set(macro_base + macros_count, rel as u16);
        proof {
            let spec = self.spec_binary();
            assert(head =~= spec.subrange(0, 5));
            assert(out@.len() == spec.len());
            assert forall|j: int| 0 <= j < out@.len() implies out@[j] == spec[j] by {
                if j < 5 {
                    assert(out@[j] == head[j]);
                } else if j < 5 + gl {
                } else if j < dir_len {
                } else {
                    assert(out@[j] == out@.subrange(dir_len as int, out@.len() as int)[j - dir_len]);
                }
            }
            assert(out@ =~= spec);
        }
        out
    }
}

/// The value of the hexadecimal digit `c`, if it is one.
pub open spec fn hex_digit(c: char) -> Option<u16> {
    if '0' <= c <= '9' {
        Some((c as int - '0' as int) as u16)
    } else if 'a' <= c <= 'f' {
        Some((c as int - 'a' as int + 10) as u16)
    } else if 'A' <= c <= 'F' {
        Some((c as int - 'A' as int + 10) as u16)
    } else {
        None
    }
}

/// The number the hexadecimal digits `t` spell, if they are all digits and fit 16 bits.
pub open spec fn hex_value(t: Seq<char>) -> Option<u16>
    decreases t.len(),
{
    if t.len() == 0 {
        Some(0)
    } else {
        match (hex_value(t.drop_last()), hex_digit(t.last())) {
            (Some(v), Some(d)) => if v * 16 + d <= 0xffff {
                Some((v * 16 + d) as u16)
            } else {
                None
            },
            _ => None,
        }
    }
}

/// The key position `name` gives: `0x` and two hexadecimal digits, row then column, or
/// three or four, the row in the high byte.
pub open spec fn spec_key_position(name: Seq<char>) -> Option<u16> {
    if name.len() >= 2 && name[0] == '0' && name[1] == 'x' {
        let digits = name.subrange(2, name.len() as int);
        match hex_value(digits) {
            Some(pos) => if digits.len() == 2 {
                Some((((pos & 0xf0u16) << 4u16) | (pos & 0xfu16)) as u16)
            } else if 3 <= digits.len() <= 4 {
                Some(pos)
            } else {
                None
            },
            None => None,
        }
    } else {
        None
    }
}

/// The text from `start` to `end` of `source`, without a leading backslash when it is longer
/// than one character.
pub open spec fn spec_text(source: Seq<char>, start: int, end: int) -> Seq<char> {
    if end - start > 1 && source[start] == '\\' {
        source.subrange(start + 1, end)
    } else {
        source.subrange(start, end)
    }
}

/// The value of the last of the first `n` entries of `map` named `name`.
pub open spec fn last_firmware(map: Seq<(Vec<char>, Range<usize>)>, name: Seq<char>, n: int) -> Option<
    Range<usize>,
>
    decreases n,
{
    if n <= 0 {
        None
    } else if map[n - 1].0@ == name {
        Some(map[n - 1].1)
    } else {
        last_firmware(map, name, n - 1)
    }
}

/// Where `v` is cut before a comment: at the last `#` among its first `i` characters, or at
/// its end when there is none.
pub open spec fn hash_cut(v: Seq<char>, i: int) -> int
    decreases i,
{
    if i <= 0 {
        v.len() as int
    } else if v[i - 1] == '#' {
        i - 1
    } else {
        hash_cut(v, i - 1)
    }
}

/// `v` up to its last `#`, or all of it when it has none.
pub open spec fn spec_before_comment(v: Seq<char>) -> Seq<char> {
    v.subrange(0, hash_cut(v, v.len() as int))
}

/// The first place from `s` on in `v` that is not whitespace, or its end.
pub open spec fn lead_ws(v: Seq<char>, s: int) -> int
    decreases v.len() - s,
{
    if 0 <= s < v.len() && spec_is_whitespace(v[s]) {
        lead_ws(v, s + 1)
    } else {
        s
    }
}

/// The end of `v` before `e` without the whitespace before it, not before `s`.
pub open spec fn trail_ws(v: Seq<char>, s: int, e: int) -> int
    decreases e,
{
    if e > s && e > 0 && spec_is_whitespace(v[e - 1]) {
        trail_ws(v, s, e - 1)
    } else {
        e
    }
}

/// `v` without the whitespace at its start and end.
pub open spec fn spec_trim(v: Seq<char>) -> Seq<char> {
    let s = lead_ws(v, 0);
    v.subrange(s, trail_ws(v, s, v.len() as int))
}

pub fn key_position(name: &[char]) -> (r: Option<u16>)
    ensures
        r == spec_key_position(name@),
{
    if name.len() < 2 || name[0] != '0' || name[1] != 'x' {
        return None;
    }
    let digits = vstd::slice::slice_subrange(name, 2, name.len());
    let mut v: u16 = 0;
    let mut i: usize = 0;
    assert(digits@.subrange(0, 0) =~= Seq::<char>::empty());
    while i < digits.len()
        invariant
            i <= digits@.len(),
            hex_value(digits@.subrange(0, i as int)) == Some(v),
            digits@ == name@.subrange(2, name@.len() as int),
            name@.len() >= 2 && name@[0] == '0' && name@[1] == 'x',
        decreases digits@.len() - i,
    {
        let c = digits[i];
        let d: u16 = if '0' <= c && c <= '9' {
            (c as u32 - '0' as u32) as u16
        } else if 'a' <= c && c <= 'f' {
            (c as u32 - 'a' as u32 + 10) as u16
        } else if 'A' <= c && c <= 'F' {
            (c as u32 - 'A' as u32 + 10) as u16
        } else {
            proof {
                let pre = digits@.subrange(0, i + 1);
                assert(pre.drop_last() =~= digits@.subrange(0, i as int));
                assert(pre.last() == c);
                assert(hex_digit(c) is None);
                assert(hex_value(pre) is None);
                lemma_hex_value_none(digits@, i as int + 1, digits@.len() as int);
                assert(digits@.subrange(0, digits@.len() as int) =~= digits@);
            }
            return None;
        };
        assert(digits@.subrange(0, i + 1).drop_last() =~= digits@.subrange(0, i as int));
        if v > 0xfff {
            proof {
                let pre = digits@.subrange(0, i + 1);
                assert(pre.last() == c);
                assert(hex_digit(c) == Some(d));
                assert(hex_value(pre) is None);
                lemma_hex_value_none(digits@, i as int + 1, digits@.len() as int);
                assert(digits@.subrange(0, digits@.len() as int) =~= digits@);
            }
            return None;
        }
        v = v * 16 + d;
        i = i + 1;
    }
    assert(digits@.subrange(0, digits@.len() as int) =~= digits@);
    let n = digits.len();
    if n == 2 {
        Some(((v & 0xf0) << 4) | (v & 0xf))
    } else if n == 3 || n == 4 {
        Some(v)
    } else {
        None
    }
}

/// Once a prefix of `t` has no value, no longer prefix has one.
proof fn lemma_hex_value_none(t: Seq<char>, i: int, n: int)
    requires
        0 < i <= n <= t.len(),
        hex_value(t.subrange(0, i)) is None,
    ensures
        hex_value(t.subrange(0, n)) is None,
    decreases n - i,
{
    if i < n {
        assert(t.subrange(0, i + 1).drop_last() =~= t.subrange(0, i));
        lemma_hex_value_none(t, i + 1, n);
    }
}

impl KeyboardConfig {
    /// Marks layer `i` as part of a composite layer.
    pub(crate) fn mark_composite_part(&mut self, i: usize)
        requires
            old(self).wf(),
            i < old(self).layers@.len(),
        ensures
            final(self).wf(),
            final(self).layers@.len() == old(self).layers@.len(),
            final(self).macros@.len() == old(self).macros@.len(),
            final(self).macros == old(self).macros,
            final(self).composites == old(self).composites,
            final(self).layers@[i as int].0 == old(self).layers@[i as int].0,
            final(self).layers@[i as int].1 == (ConfigLayer { composite_part: true, ..old(self).layers@[i as int].1 }),
            forall|k: int| 0 <= k < old(self).layers@.len() && k != i ==> final(self).layers@[k] == old(self).layers@[k],
    {
        let mut entry = self.layers.remove(i);
        entry.1.composite_part = true;
        self.layers.insert(i, entry);
        assert forall|k: int| 0 <= k < self.layers@.len() implies (#[trigger] self.layers@[k]).1.wf() by {
            if k != i {
                assert(self.layers@[k] == old(self).layers@[k]);
            }
        }
    }

    /// Adds an empty composite layer for the layers `key`, keeping the composite layers in
    /// order of their keys, unless there is one.
    pub(crate) fn ensure_composite_layer(&mut self, key: u32)
        requires
            old(self).wf(),
        ensures
            final(self).wf(),
            final(self).layers@.len() == old(self).layers@.len(),
            final(self).macros@.len() == old(self).macros@.len(),
            final(self).layers == old(self).layers,
            final(self).macros == old(self).macros,
            exists|i: int| composite_ensured(old(self).composites@, final(self).composites@, key, i),
    {
        let mut i: usize = 0;
        while i < self.composites.len() && self.composites[i].0 < key
            invariant
                i <= self.composites@.len(),
                forall|k: int| 0 <= k < i ==> self.composites@[k].0 < key,
            decreases self.composites@.len() - i,
        {
            i = i + 1;
        }
        if i < self.composites.len() && self.composites[i].0 == key {
            assert(composite_ensured(old(self).composites@, self.composites@, key, i as int));
            return;
        }
        if self.composites.len() < 0xffff {
            self.composites.insert(i, (key, ConfigLayer::new(0, 0)));
            assert(composite_ensured(old(self).composites@, self.composites@, key, i as int));
            assert forall|k: int| 0 <= k < self.composites@.len() implies (#[trigger] self.composites@[k]).1.wf() by {
                if k < i {
                    assert(self.composites@[k] == old(self).composites@[k]);
                } else if k > i {
                    assert(self.composites@[k] == old(self).composites@[k - 1]);
                }
            }
        } else {
            assert(composite_ensured(old(self).composites@, self.composites@, key, i as int));
        }
    }

    /// The position of the alias list that `name` keys: a key name's code, or the name.
    pub(crate) fn find_alias(&self, key: &AliasKey) -> (r: Option<usize>)
        ensures
            r matches Some(i) ==> i < self.matrix_map@.len() && same_alias(
                self.matrix_map@[i as int].0,
                *key,
            ) && forall|k: int| 0 <= k < i ==> !same_alias(self.matrix_map@[k].0, *key),
            r is None ==> forall|i: int|
                0 <= i < self.matrix_map@.len() ==> !same_alias(self.matrix_map@[i].0, *key),
    {
        let mut i: usize = 0;
        while i < self.matrix_map.len()
            invariant
                i <= self.matrix_map@.len(),
                forall|k: int| 0 <= k < i ==> !same_alias(self.matrix_map@[k].0, *key),
            decreases self.matrix_map@.len() - i,
        {
            let hit = match (&self.matrix_map[i].0, key) {
                (AliasKey::Code(a), AliasKey::Code(b)) => *a == *b,
                (AliasKey::Name(a), AliasKey::Name(b)) => chars_eq(a.as_slice(), b.as_slice()),
                _ => false,
            };
            if hit {
                return Some(i);
            }
            i = i + 1;
        }
        None
    }

    /// Adds key position `pos` to the alias list of `key`.
    pub(crate) fn push_alias(&mut self, key: AliasKey, pos: u16)
        requires
            old(self).wf(),
        ensures
            final(self).wf(),
            final(self).layers@.len() == old(self).layers@.len(),
            final(self).macros@.len() == old(self).macros@.len(),
            final(self).layers == old(self).layers,
            final(self).macros == old(self).macros,
            final(self).composites == old(self).composites,
            (forall|i: int| 0 <= i < old(self).matrix_map@.len() ==> !same_alias(old(self).matrix_map@[i].0, key))
                ==> final(self).matrix_map@.len() == old(self).matrix_map@.len() + 1 && final(self).matrix_map@.last().0 == key && final(self).matrix_map@.last().1@ == seq![pos] && forall|k: int|
                0 <= k < old(self).matrix_map@.len() ==> final(self).matrix_map@[k] == old(self).matrix_map@[k],
            (exists|i: int| 0 <= i < old(self).matrix_map@.len() && same_alias(old(self).matrix_map@[i].0, key))
                ==> final(self).matrix_map@.len() == old(self).matrix_map@.len() && exists|i: int|
                #![trigger final(self).matrix_map@[i]]
                0 <= i < old(self).matrix_map@.len() && same_alias(old(self).matrix_map@[i].0, key) && final(self).matrix_map@[i].0 == old(self).matrix_map@[i].0 && final(self).matrix_map@[i].1@ == old(self).matrix_map@[i].1@.push(pos) && forall|k: int|
                    0 <= k < old(self).matrix_map@.len() && k != i ==> final(self).matrix_map@[k]
                        == old(self).matrix_map@[k],
    {
        match self.find_alias(&key) {
            Some(i) => {
                let mut entry = self.matrix_map.remove(i);
                entry.1.push(pos);
                self.matrix_map.insert(i, entry);
                assert(self.matrix_map@[i as int].1@ == old(self).matrix_map@[i as int].1@.push(pos));
                assert(forall|k: int| 0 <= k < old(self).matrix_map@.len() && k != i ==> self.matrix_map@[k]
                    == old(self).matrix_map@[k]);
            },
            None => {
                let mut v: Vec<u16> = Vec::new();
                v.push(pos);
                self.matrix_map.push((key, v));
            },
        }
    }

    /// The value of the temporary setting `name`; 0 for none.
    fn temp(&self, name: &str) -> (r: u16)
        ensures
            r == temp_value(self.temp_map@, name@),
    {
        let mut i: usize = 0;
        assert(self.temp_map@.subrange(0, self.temp_map@.len() as int) =~= self.temp_map@);
        while i < self.temp_map.len()
            invariant
                i <= self.temp_map@.len(),
                temp_value(self.temp_map@, name@) == temp_value(
                    self.temp_map@.subrange(i as int, self.temp_map@.len() as int),
                    name@,
                ),
            decreases self.temp_map@.len() - i,
        {
            let ghost rest = self.temp_map@.subrange(i as int, self.temp_map@.len() as int);
            assert(rest.drop_first() =~= self.temp_map@.subrange(i + 1, self.temp_map@.len() as int));
            if eq_lit(self.temp_map[i].0.as_slice(), name) {
                return self.temp_map[i].1;
            }
            i = i + 1;
        }
        0
    }

    /// The keystrokes that type the unicode character `uc`: the unicode prefix, its hex
    /// digits without leading zeros, and the unicode suffix.
    pub fn unicode_to_seq(&self, uc: u32) -> (r: Vec<u16>)
        ensures
            r@ == seq![temp_value(self.temp_map@, "unicode_prefix"@)] + hex_keys(uc, 0, false) + seq![
                temp_value(self.temp_map@, "unicode_suffix"@),
            ],
    {
        let mut seq: Vec<u16> = Vec::new();
        seq.push(self.temp("unicode_prefix"));
        let ghost prefix = seq@;
        let mut i: u32 = 0;
        while i < 7
            invariant
                i <= 7,
                seq@.len() >= 1,
                seq@[0] == prefix[0],
                prefix.len() == 1,
                seq@ + hex_keys(uc, i as int, seq@.len() > 1) == prefix + hex_keys(uc, 0, false),
            decreases 7 - i,
        {
            let shift: u32 = (6 - i) * 4;
            let nibble: u32 = (uc >> shift) & 0xf;
            assert((uc >> shift) & 0xfu32 <= 0xf) by (bit_vector);
            let d: u16 = nibble as u16;
            assert(d == hex_nibble(uc, i as int));
            let ghost before = seq@;
            i = i + 1;
            if d == 0 && seq.len() == 1 {
                continue;
            }
            let kc = if d == 0 {
                key_range::BASIC_0
            } else if d >= 10 {
                key_range::BASIC_A + d - 10
            } else {
                key_range::BASIC_1 + d - 1
            };
            seq.push(kc);
            assert(kc == hex_key(d));
            assert(seq@ + hex_keys(uc, i as int, true) =~= before + hex_keys(uc, i - 1, before.len() > 1));
        }
        let suffix = self.temp("unicode_suffix");
        seq.push(suffix);
        assert(seq@ =~= prefix + hex_keys(uc, 0, false) + seq![suffix]);
        seq
    }
}

/// The words of the first `n` global settings of `m` whose index is `index`, in order.
pub open spec fn globals_of_index(m: Seq<(Vec<char>, GlobalProp)>, index: u16, n: int) -> Seq<u16>
    decreases n,
{
    if n <= 0 {
        seq![]
    } else {
        globals_of_index(m, index, n - 1) + if m[n - 1].1.index == index {
            spec_global_binary(m[n - 1].1)
        } else {
            seq![]
        }
    }
}

/// The words of the global settings of `m` with indices below `k`, by index, and in the
/// order of `m` for one index.
pub open spec fn globals_binary(m: Seq<(Vec<char>, GlobalProp)>, k: int) -> Seq<u16>
    decreases k,
{
    if k <= 0 {
        seq![]
    } else {
        globals_binary(m, k - 1) + globals_of_index(m, (k - 1) as u16, m.len() as int)
    }
}

/// The first `k` of the sequences `parts`, one after another.
pub open spec fn concat_parts(parts: Seq<Seq<u16>>, k: int) -> Seq<u16>
    decreases k,
{
    if k <= 0 {
        seq![]
    } else {
        concat_parts(parts, k - 1) + parts[k - 1]
    }
}

/// Whether the composite layers `new` are `old` with an empty composite layer for `key` put
/// at `i`, the first place whose key is not below `key`, unless one for `key` is there or
/// there is no room.
pub open spec fn composite_ensured(old: Seq<(u32, ConfigLayer)>, new: Seq<(u32, ConfigLayer)>, key: u32, i: int) -> bool {
    &&& 0 <= i <= old.len()
    &&& forall|k: int| 0 <= k < i ==> old[k].0 < key
    &&& i < old.len() ==> old[i].0 >= key
    &&& if (i < old.len() && old[i].0 == key) || old.len() >= 0xffff {
        new == old
    } else {
        &&& new.len() == old.len() + 1
        &&& forall|k: int| 0 <= k < i ==> new[k] == old[k]
        &&& forall|k: int| i < k < new.len() ==> new[k] == old[k - 1]
        &&& new[i].0 == key
        &&& new[i].1.codes@.len() == 0
        &&& new[i].1.index == 0
        &&& new[i].1.suffix == 0
        &&& !new[i].1.composite_part
    }
}

/// The value of the first entry named `name` in `m`, or 0.
pub open spec fn temp_value(m: Seq<(Vec<char>, u16)>, name: Seq<char>) -> u16
    decreases m.len(),
{
    if m.len() == 0 {
        0
    } else if m[0].0@ == name {
        m[0].1
    } else {
        temp_value(m.drop_first(), name)
    }
}

/// Hex digit `i` of the seven lowest of `uc`, the most significant first.
pub open spec fn hex_nibble(uc: u32, i: int) -> u16 {
    ((uc >> ((6 - i) * 4) as u32) & 0xf) as u16
}

/// The key that types the hex digit `d`.
pub open spec fn hex_key(d: u16) -> u16 {
    if d == 0 {
        key_range::BASIC_0
    } else if d >= 10 {
        (key_range::BASIC_A + d - 10) as u16
    } else {
        (key_range::BASIC_1 + d - 1) as u16
    }
}

/// The keys of the hex digits of `uc` from digit `i` on, leading zeros left out unless a
/// digit came before (`started`).
pub open spec fn hex_keys(uc: u32, i: int, started: bool) -> Seq<u16>
    decreases 7 - i,
{
    if i >= 7 || i < 0 {
        seq![]
    } else if hex_nibble(uc, i) == 0 && !started {
        hex_keys(uc, i + 1, false)
    } else {
        seq![hex_key(hex_nibble(uc, i))] + hex_keys(uc, i + 1, true)
    }
}

/// The global setting a name gives and its bounds: a duration, in milliseconds from 0 to
/// 5000 for the timeouts, in tenths of a millisecond from 0.1 to 25 ms for the debounce
/// settle time; a mouse profile for `mouse_profile1` to `mouse_profile3`.
pub open spec fn default_global_ok(name: Seq<char>, g: GlobalProp) -> bool {
    let timeout = |index: u16, value: u16, min: u16, max: u16, dp: u8|
        g.index == index && g.spec == (GlobalType::Timeout { value, min, max, dp });
    let profile = |index: u16|
        g.index == index && (g.spec matches GlobalType::MouseProfile(w) && w@
            == spec_default_mouse_profile(index));
    if name == "overload_tap_timeout"@ || name == "dual_action_timeout"@ {
        timeout(globals::DUAL_ACTION_TIMEOUT, globals::DUAL_ACTION_TIMEOUT_DEFAULT, 0, 5000, 0)
    } else if name == "dual_action_timeout2"@ {
        timeout(globals::DUAL_ACTION_TIMEOUT2, globals::DUAL_ACTION_TIMEOUT2_DEFAULT, 0, 5000, 0)
    } else if name == "debounce_settle_time"@ {
        timeout(globals::DEBOUNCE_SETTLE_TIME, 200, 1, 250, 1)
    } else if name == "tapdance_tap_timeout"@ {
        timeout(globals::TAPDANCE_TAP_TIMEOUT, globals::TAPDANCE_TAP_TIMEOUT_DEFAULT, 0, 5000, 0)
    } else if name == "mouse_profile1"@ {
        profile(globals::MOUSE_PROFILE1)
    } else if name == "mouse_profile2"@ {
        profile(globals::MOUSE_PROFILE2)
    } else {
        profile(globals::MOUSE_PROFILE3)
    }
}

/// Whether `name` names a global setting.
pub open spec fn is_global_name(name: Seq<char>) -> bool {
    ||| name == "overload_tap_timeout"@
    ||| name == "dual_action_timeout"@
    ||| name == "dual_action_timeout2"@
    ||| name == "debounce_settle_time"@
    ||| name == "tapdance_tap_timeout"@
    ||| name == "mouse_profile1"@
    ||| name == "mouse_profile2"@
    ||| name == "mouse_profile3"@
}

/// The defaults of the global setting `name`.
pub fn default_global(name: &[char]) -> (r: Option<GlobalProp>)
    ensures
        r is Some <==> is_global_name(name@),
        r matches Some(g) ==> default_global_ok(name@, g),
{
    if eq_lit(name, "overload_tap_timeout") || eq_lit(name, "dual_action_timeout") {
        Some(GlobalProp {
            index: globals::DUAL_ACTION_TIMEOUT,
            spec: GlobalType::Timeout { value: globals::DUAL_ACTION_TIMEOUT_DEFAULT, min: 0, max: 5000, dp: 0 },
        })
    } else if eq_lit(name, "dual_action_timeout2") {
        Some(GlobalProp {
            index: globals::DUAL_ACTION_TIMEOUT2,
            spec: GlobalType::Timeout { value: globals::DUAL_ACTION_TIMEOUT2_DEFAULT, min: 0, max: 5000, dp: 0 },
        })
    } else if eq_lit(name, "debounce_settle_time") {
        Some(GlobalProp {
            index: globals::DEBOUNCE_SETTLE_TIME,
            spec: GlobalType::Timeout { value: 200, min: 1, max: 250, dp: 1 },
        })
    } else if eq_lit(name, "tapdance_tap_timeout") {
        Some(GlobalProp {
            index: globals::TAPDANCE_TAP_TIMEOUT,
            spec: GlobalType::Timeout { value: globals::TAPDANCE_TAP_TIMEOUT_DEFAULT, min: 0, max: 5000, dp: 0 },
        })
    } else {
        let index: u16 = if eq_lit(name, "mouse_profile1") {
            globals::MOUSE_PROFILE1
        } else if eq_lit(name, "mouse_profile2") {
            globals::MOUSE_PROFILE2
        } else if eq_lit(name, "mouse_profile3") {
            globals::MOUSE_PROFILE3
        } else {
            return None;
        };
        Some(GlobalProp { index, spec: GlobalType::MouseProfile(default_mouse_profile(index)) })
    }
}

/// The words of the default mouse profile `index` (slow for 0, normal for 1, fast beyond):
/// for movement then scroll, the curve's two points, the time to full speed and the least and
/// most ticks per millisecond, each a little-endian `f32` in two words.
pub open spec fn spec_default_mouse_profile(index: u16) -> Seq<u16> {
    let last: u16 = if index == 0 {
        16000
    } else if index == 1 {
        16128
    } else {
        16256
    };
    let ticks: u16 = if index == 0 {
        16256
    } else if index == 1 {
        16448
    } else {
        16544
    };
    seq![52429, 15820, 0, 16128, 0, 17530, 55050, 15523, 0, ticks, 0, 0, 0, 0, 16384, 17820, 55050, 15395, 0, last]
}

/// The words of the default mouse profile `index`: slow, normal or fast.
pub fn default_mouse_profile(index: u16) -> (r: Vec<u16>)
    ensures
        r@ == spec_default_mouse_profile(index),
{
    let last: u16 = if index == 0 {
        16000
    } else if index == 1 {
        16128
    } else {
        16256
    };
    let ticks: u16 = if index == 0 {
        16256
    } else if index == 1 {
        16448
    } else {
        16544
    };
    let r = vec![52429, 15820, 0, 16128, 0, 17530, 55050, 15523, 0, ticks, 0, 0, 0, 0, 16384, 17820, 55050, 15395, 0, last];
    assert(r@ =~= spec_default_mouse_profile(index));
    r
}

} // verus!
