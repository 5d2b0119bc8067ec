//! What the keyboard finds in a layout the compiler wrote: the directory leads to each layer's
//! binary, and a layer gives each key the code the config gave it.
use vstd::prelude::*;
use crate::config::compiler::{
    concat_parts, globals_binary, globals_of_index, spec_global_binary, GlobalProp, GlobalType,
    KeyboardConfig,
};
use crate::config::layer::{
    layer_mode, lemma_code_at_unique, spec_code_at, spec_layer_binary, spec_macro_binary, ConfigLayer,
};
use crate::globals::{self, COMPOSITE_BIT, COMPOSITE_PART_BIT};
use crate::key_range::{self, LAYER_MAX, LAYER_MIN, MACROS_MAX, MACROS_MIN};
use crate::layout::{
    dir_ok, globals_end, header_layer_count, is_pair, layer_codes_start, lemma_search_from_sound, load_len,
    load_ok, spec_find_code, spec_layer_get, spec_layer_range,
    spec_pos, spec_search_code,
};
use crate::layout::{Manager, MAIN_BASE};
use crate::macros::KeyPlusMod;

verus! {

/// The part of a layout after its global settings: the directory, then the layers,
/// composite layers and macros.
pub open spec fn layout_tail(c: KeyboardConfig) -> Seq<u16> {
    let b = c.spec_binary();
    b.subrange(5 + c.layout_globals().len() as int, b.len() as int)
}

/// The bounds within which a layout's header and directory hold their numbers whole: fewer
/// than 256 layers and composite layers each, and fewer than `0x10000` words after the
/// global settings.
pub open spec fn layout_fits(c: KeyboardConfig) -> bool {
    &&& c.wf()
    &&& c.layers@.len() < 256
    &&& c.composites@.len() < 256
    &&& layout_tail(c).len() < 0x10000
}

/// Whether layer `l` gives more than a third of the keys a code, so that the layout holds
/// it as every key's code.
pub open spec fn dense_layer(l: ConfigLayer, rows: int, cols: int) -> bool {
    l.codes@.len() * 3 > rows * cols
}

/// What the keyboard finds for the key at `row`, `column` with only layer `idx` active:
/// nothing when the layer gives the key no code or one below the basic keys, else the code
/// with the layer's modifiers.
pub open spec fn configured_code(c: KeyboardConfig, idx: int, row: usize, column: usize) -> Option<KeyPlusMod> {
    let l = c.layers@[idx].1;
    let code = spec_code_at(l.codes@, spec_pos(row, column));
    if code < key_range::BASIC_MIN {
        None
    } else {
        Some(KeyPlusMod(code, l.suffix))
    }
}

/// The lengths of the first `k` parts grow with `k`.
proof fn lemma_concat_len(parts: Seq<Seq<u16>>, j: int, k: int)
    requires
        0 <= j <= k <= parts.len(),
    ensures
        concat_parts(parts, j).len() <= concat_parts(parts, k).len(),
    decreases k - j,
{
    if j < k {
        lemma_concat_len(parts, j, k - 1);
    }
}

/// Part `k` lies in the concatenation of the first `n` parts right after the first `k`.
proof fn lemma_concat_part(parts: Seq<Seq<u16>>, k: int, n: int)
    requires
        0 <= k < n <= parts.len(),
    ensures
        concat_parts(parts, k + 1).len() <= concat_parts(parts, n).len(),
        concat_parts(parts, n).subrange(
            concat_parts(parts, k).len() as int,
            concat_parts(parts, k + 1).len() as int,
        ) == parts[k],
    decreases n - k,
{
    if n == k + 1 {
        assert(concat_parts(parts, n) == concat_parts(parts, k) + parts[k]);
        assert(concat_parts(parts, n).subrange(
            concat_parts(parts, k).len() as int,
            concat_parts(parts, k + 1).len() as int,
        ) =~= parts[k]);
    } else {
        lemma_concat_part(parts, k, n - 1);
        lemma_concat_len(parts, k + 1, n - 1);
        let a = concat_parts(parts, n - 1);
        assert(concat_parts(parts, n) == a + parts[n - 1]);
        assert((a + parts[n - 1]).subrange(
            concat_parts(parts, k).len() as int,
            concat_parts(parts, k + 1).len() as int,
        ) =~= a.subrange(concat_parts(parts, k).len() as int, concat_parts(parts, k + 1).len() as int));
    }
}

/// The layout's directory entry `k` is where part `k` starts, counted from the directory.
proof fn lemma_tail_shape(c: KeyboardConfig, k: int)
    requires
        layout_fits(c),
        0 <= k <= c.part_binaries().len(),
    ensures
        ({
            let parts = c.part_binaries();
            let n = parts.len() as int;
            let m = layout_tail(c);
            &&& m.len() == n + 1 + concat_parts(parts, n).len()
            &&& m[k] == n + 1 + concat_parts(parts, k).len()
            &&& m.subrange(n + 1, m.len() as int) == concat_parts(parts, n)
        }),
{
    let parts = c.part_binaries();
    let n = parts.len() as int;
    let g = c.layout_globals();
    let b = c.spec_binary();
    let m = layout_tail(c);
    lemma_concat_len(parts, k, n);
    assert(m[k] == b[5 + g.len() + k]);
    assert(m.subrange(n + 1, m.len() as int) =~= concat_parts(parts, n));
}

/// The directory leads to the binary of each layer of the config.
pub proof fn law_layer_range(c: KeyboardConfig, idx: int)
    requires
        layout_fits(c),
        0 <= idx < c.layers@.len(),
    ensures
        ({
            let parts = c.part_binaries();
            let n = parts.len() as int;
            let m = layout_tail(c);
            let s = n + 1 + concat_parts(parts, idx).len();
            let e = n + 1 + concat_parts(parts, idx + 1).len();
            &&& spec_layer_range(m, (c.layers@.len() + c.composites@.len()) as int, idx) == Some((s, e))
            &&& m.subrange(s, e) == spec_layer_binary(
                c.layers@[idx].1,
                c.row_count as int,
                c.col_count as int,
                0,
            )
        }),
{
    let parts = c.part_binaries();
    let n = parts.len() as int;
    let m = layout_tail(c);
    let l = c.layers@[idx].1;
    lemma_tail_shape(c, idx);
    lemma_tail_shape(c, idx + 1);
    lemma_concat_part(parts, idx, n);
    let s = n + 1 + concat_parts(parts, idx).len();
    let e = n + 1 + concat_parts(parts, idx + 1).len();
    assert(parts[idx] == spec_layer_binary(l, c.row_count as int, c.col_count as int, 0));
    assert(m.subrange(s, e) =~= m.subrange(n + 1, m.len() as int).subrange(
        concat_parts(parts, idx).len() as int,
        concat_parts(parts, idx + 1).len() as int,
    ));
    let part = m.subrange(s, e);
    let mode = layer_mode(l.suffix, l.composite_part, 0);
    assert(part[0] == mode);
    lemma_mode_bits(l.suffix, l.composite_part);
    assert(layer_codes_start(part) == 1);
}

/// With only layer `idx` active, the keyboard finds for a key the code the config gives it
/// in that layer, where the layout holds the layer as every key's code; `mapping` is the
/// keyboard's word array, which starts with the layout after its global settings.
pub proof fn law_dense_layer_code(c: KeyboardConfig, mapping: Seq<u16>, idx: int, row: usize, column: usize)
    requires
        layout_fits(c),
        0 <= idx < c.layers@.len(),
        dense_layer(c.layers@[idx].1, c.row_count as int, c.col_count as int),
        row < c.row_count,
        column < c.col_count,
        mapping.len() >= layout_tail(c).len(),
        mapping.subrange(0, layout_tail(c).len() as int) == layout_tail(c),
    ensures
        spec_find_code(
            mapping,
            (c.layers@.len() + c.composites@.len()) as int,
            c.row_count as int,
            c.col_count as int,
            seq![idx as u16],
            1,
            row,
            column,
        ) == configured_code(c, idx, row, column),
{
    let rows = c.row_count as int;
    let cols = c.col_count as int;
    let l = c.layers@[idx].1;
    let m = layout_tail(c);
    let dir_base = (c.layers@.len() + c.composites@.len()) as int;
    law_layer_range(c, idx);
    let parts = c.part_binaries();
    let n = parts.len() as int;
    let s = n + 1 + concat_parts(parts, idx).len();
    let e = n + 1 + concat_parts(parts, idx + 1).len();
    let data = m.subrange(s, e);
    let li = idx as u16;
    assert((li & 0xffu16) == li && li & 0x8000u16 == 0) by (bit_vector)
        requires
            li < 256,
    ;
    assert(spec_layer_range(m, dir_base, (li & 0xffu16) as int) == Some((s, e)));
    assert(mapping[idx] == m[idx] && mapping[idx + 1] == m[idx + 1]);
    assert(mapping.subrange(s, e) =~= data);
    assert(spec_layer_range(mapping, dir_base, (li & 0xffu16) as int) == Some((s, e)));
    lemma_mode_bits(l.suffix, l.composite_part);
    let codes = data.subrange(1, data.len() as int);
    let f = |i: int| spec_code_at(l.codes@, ((i / cols) * 256 + i % cols) as u16);
    assert(codes =~= Seq::new((rows * cols) as nat, f));
    let i = row * cols + column;
    assert(0 <= i < rows * cols) by (nonlinear_arith)
        requires
            0 <= row < rows,
            0 <= column < cols,
            i == row * cols + column,
    ;
    vstd::arithmetic::div_mod::lemma_fundamental_div_mod_converse_div(i, cols, row as int, column as int);
    vstd::arithmetic::div_mod::lemma_fundamental_div_mod_converse_mod(i, cols, row as int, column as int);
    assert(((row * 256 + column) as u16) == spec_pos(row, column)) by (bit_vector)
        requires
            row < 256,
            column < 256,
    ;
    assert(spec_layer_get(data, rows, cols, row, column) == spec_code_at(l.codes@, spec_pos(row, column)));
    assert(data[0] == layer_mode(l.suffix, l.composite_part, 0));
    let stack = seq![li];
    assert(stack[0] == li);
    assert(spec_find_code(mapping, dir_base, rows, cols, stack, 0, row, column) is None);
}

/// With only layer `idx` active, what the keyboard finds for a key, where the layout holds
/// the layer as a list of keys and codes, is the code the config gives it, or nothing: the
/// search of such a list can miss a key that is in it. `mapping` is the keyboard's word
/// array, which starts with the layout after its global settings.
pub proof fn law_sparse_layer_code(c: KeyboardConfig, mapping: Seq<u16>, idx: int, row: usize, column: usize)
    requires
        layout_fits(c),
        0 <= idx < c.layers@.len(),
        !dense_layer(c.layers@[idx].1, c.row_count as int, c.col_count as int),
        row < c.row_count,
        column < c.col_count,
        mapping.len() >= layout_tail(c).len(),
        mapping.subrange(0, layout_tail(c).len() as int) == layout_tail(c),
    ensures
        ({
            let found = spec_find_code(
                mapping,
                (c.layers@.len() + c.composites@.len()) as int,
                c.row_count as int,
                c.col_count as int,
                seq![idx as u16],
                1,
                row,
                column,
            );
            found is None || found == configured_code(c, idx, row, column)
        }),
{
    let rows = c.row_count as int;
    let cols = c.col_count as int;
    let l = c.layers@[idx].1;
    let m = layout_tail(c);
    let dir_base = (c.layers@.len() + c.composites@.len()) as int;
    law_layer_range(c, idx);
    let parts = c.part_binaries();
    let n = parts.len() as int;
    let s = n + 1 + concat_parts(parts, idx).len();
    let e = n + 1 + concat_parts(parts, idx + 1).len();
    let data = m.subrange(s, e);
    let li = idx as u16;
    assert((li & 0xffu16) == li && li & 0x8000u16 == 0) by (bit_vector)
        requires
            li < 256,
    ;
    assert(spec_layer_range(m, dir_base, (li & 0xffu16) as int) == Some((s, e)));
    assert(mapping[idx] == m[idx] && mapping[idx + 1] == m[idx + 1]);
    assert(mapping.subrange(s, e) =~= data);
    assert(spec_layer_range(mapping, dir_base, (li & 0xffu16) as int) == Some((s, e)));
    lemma_mode_bits(l.suffix, l.composite_part);
    assert(data[0] == layer_mode(l.suffix, l.composite_part, 0));
    let codes = data.subrange(1, data.len() as int);
    let pairs = Seq::new(
        (2 * l.codes@.len()) as nat,
        |i: int|
            if i % 2 == 0 {
                l.codes@[i / 2].0
            } else {
                l.codes@[i / 2].1
            },
    );
    assert(codes =~= pairs);
    assert(codes.len() != rows * cols || rows * cols == 0) by (nonlinear_arith)
        requires
            codes.len() == 2 * l.codes@.len(),
            l.codes@.len() * 3 <= rows * cols,
            rows * cols >= 0,
    ;
    let key = spec_pos(row, column);
    let v = spec_search_code(codes, key);
    lemma_search_from_sound(codes, key, 0, codes.len() as int, codes.len() as int);
    if rows * cols == 0 {
        assert(rows * cols > 0) by (nonlinear_arith)
            requires
                row < rows,
                column < cols,
                0 <= row,
                0 <= column,
        ;
    }
    assert(spec_layer_get(data, rows, cols, row, column) == v);
    if v != 0 {
        let i = choose|i: int| is_pair(codes, i, key, v);
        assert(is_pair(codes, i, key, v));
        let j = i / 2;
        assert(i == 2 * j && i + 1 == 2 * j + 1);
        assert(codes[i] == l.codes@[j].0);
        assert(codes[i + 1] == l.codes@[j].1);
        lemma_code_at_unique(l.codes@, key, j);
    }
    let stack = seq![li];
    assert(stack[0] == li);
    assert(spec_find_code(mapping, dir_base, rows, cols, stack, 0, row, column) is None);
}

/// A plain layer's header word holds its modifiers in its low byte and no composite bit.
proof fn lemma_mode_bits(suffix: u8, part: bool)
    ensures
        layer_mode(suffix, part, 0) & COMPOSITE_BIT == 0,
        layer_mode(suffix, part, 0) as u8 == suffix,
{
    let s = suffix as u16;
    assert((s | COMPOSITE_PART_BIT) & COMPOSITE_BIT == 0 && (s | 0u16) & COMPOSITE_BIT == 0
        && ((s | COMPOSITE_PART_BIT) as u8) == suffix && ((s | 0u16) as u8) == suffix) by (bit_vector)
        requires
            s == suffix as u16,
    ;
}

/// Whether a global setting's index fits its kind: a mouse profile of 20 words at index 0 to
/// 2, a timeout at index 3 to 6.
pub open spec fn global_ok(g: GlobalProp) -> bool {
    match g.spec {
        GlobalType::MouseProfile(w) => g.index <= globals::MOUSE_PROFILE3 && w@.len() == 20,
        GlobalType::Timeout { .. } => globals::DUAL_ACTION_TIMEOUT <= g.index <= globals::LAST_TIMEOUT,
    }
}

/// Whether the global settings of `c` fit their kinds and their words fit a layout whole.
pub open spec fn globals_fit(c: KeyboardConfig) -> bool {
    &&& forall|i: int| 0 <= i < c.global_map@.len() ==> global_ok(#[trigger] c.global_map@[i].1)
    &&& globals_binary(c.global_map@, globals::LAST_TIMEOUT + 1).len() <= 0xffff
}

/// Whether `x` is a run of global settings as a layout holds them, read from its start.
pub open spec fn global_entries(x: Seq<u16>) -> bool
    decreases x.len(),
{
    if x.len() == 0 {
        true
    } else if x[0] <= globals::MOUSE_PROFILE3 {
        x.len() >= 21 && global_entries(x.subrange(21, x.len() as int))
    } else if globals::DUAL_ACTION_TIMEOUT <= x[0] <= globals::LAST_TIMEOUT {
        x.len() >= 2 && global_entries(x.subrange(2, x.len() as int))
    } else {
        false
    }
}

proof fn lemma_entries_append(a: Seq<u16>, e: Seq<u16>)
    requires
        global_entries(a),
        global_entries(e),
    ensures
        global_entries(a + e),
    decreases a.len(),
{
    if a.len() == 0 {
        assert(a + e =~= e);
    } else {
        let k: int = if a[0] <= globals::MOUSE_PROFILE3 {
            21
        } else {
            2
        };
        lemma_entries_append(a.subrange(k, a.len() as int), e);
        assert((a + e).subrange(k, (a + e).len() as int) =~= a.subrange(k, a.len() as int) + e);
    }
}

proof fn lemma_entry(g: GlobalProp)
    requires
        global_ok(g),
    ensures
        global_entries(spec_global_binary(g)),
{
    let x = spec_global_binary(g);
    let k: int = if g.index <= globals::MOUSE_PROFILE3 {
        21
    } else {
        2
    };
    assert(x.subrange(k, x.len() as int) =~= Seq::<u16>::empty());
    assert(global_entries(Seq::<u16>::empty()));
}

proof fn lemma_globals_of_index(c: KeyboardConfig, index: u16, n: int)
    requires
        forall|i: int| 0 <= i < c.global_map@.len() ==> global_ok(#[trigger] c.global_map@[i].1),
        n <= c.global_map@.len(),
    ensures
        global_entries(globals_of_index(c.global_map@, index, n)),
    decreases n,
{
    if n <= 0 {
        assert(global_entries(Seq::<u16>::empty()));
    } else {
        let m = c.global_map@;
        lemma_globals_of_index(c, index, n - 1);
        if m[n - 1].1.index == index {
            lemma_entry(m[n - 1].1);
            lemma_entries_append(globals_of_index(m, index, n - 1), spec_global_binary(m[n - 1].1));
        } else {
            assert(globals_of_index(m, index, n - 1) + Seq::<u16>::empty() =~= globals_of_index(m, index, n - 1));
        }
    }
}

proof fn lemma_globals_binary(c: KeyboardConfig, k: int)
    requires
        forall|i: int| 0 <= i < c.global_map@.len() ==> global_ok(#[trigger] c.global_map@[i].1),
    ensures
        global_entries(globals_binary(c.global_map@, k)),
    decreases k,
{
    if k <= 0 {
        assert(global_entries(Seq::<u16>::empty()));
    } else {
        lemma_globals_binary(c, k - 1);
        lemma_globals_of_index(c, (k - 1) as u16, c.global_map@.len() as int);
        lemma_entries_append(
            globals_binary(c.global_map@, k - 1),
            globals_of_index(c.global_map@, (k - 1) as u16, c.global_map@.len() as int),
        );
    }
}

proof fn lemma_globals_end(data: Seq<u16>, pos: int, count: int)
    requires
        0 <= pos,
        0 <= count,
        pos + count <= data.len(),
        global_entries(data.subrange(pos, pos + count)),
    ensures
        globals_end(data, pos, count) == Some(pos + count),
    decreases count,
{
    if count > 0 {
        let x = data.subrange(pos, pos + count);
        assert(x[0] == data[pos]);
        let k: int = if x[0] <= globals::MOUSE_PROFILE3 {
            21
        } else {
            2
        };
        assert(x.subrange(k, x.len() as int) =~= data.subrange(pos + k, pos + count));
        lemma_globals_end(data, pos + k, count - k);
    }
}

/// The keyboard reads a compiled layout's global settings to their end, and keeps the
/// directory and what follows it, with the directory's length as the compiler wrote it.
pub proof fn law_layout_tail_loaded(c: KeyboardConfig)
    requires
        layout_fits(c),
        globals_fit(c),
    ensures
        ({
            let b = c.spec_binary();
            &&& load_len(b) == layout_tail(c).len()
            &&& b.subrange(b.len() - load_len(b), b.len() as int) == layout_tail(c)
            &&& header_layer_count(b[2]) == c.layers@.len() + c.composites@.len()
        }),
{
    let b = c.spec_binary();
    let g = c.layout_globals();
    let gl = g.len() as int;
    lemma_globals_binary(c, globals::LAST_TIMEOUT + 1);
    assert(g == globals_binary(c.global_map@, globals::LAST_TIMEOUT + 1));
    assert(b[4] == gl as u16);
    assert(b.subrange(5, 5 + gl) =~= g);
    lemma_globals_end(b, 5, gl);
    let lc = c.layers@.len() as u16;
    let cc = c.composites@.len() as u16;
    assert(b[2] == (lc | (cc << 8u16)) as u16);
    assert((((lc | (cc << 8u16)) as u16) >> 8u16) + (((lc | (cc << 8u16)) as u16) & 0xffu16) == cc + lc)
        by (bit_vector)
        requires
            lc < 256,
            cc < 256,
    ;
}

/// Every part of a layout holds at least a word, so the parts start at rising places.
proof fn lemma_parts_rise(c: KeyboardConfig, j: int, k: int)
    requires
        0 <= j < k <= c.part_binaries().len(),
    ensures
        concat_parts(c.part_binaries(), j).len() < concat_parts(c.part_binaries(), k).len(),
    decreases k - j,
{
    let parts = c.part_binaries();
    let lc = c.layers@.len() as int;
    let cc = c.composites@.len() as int;
    let rows = c.row_count as int;
    let cols = c.col_count as int;
    let p = parts[k - 1];
    if k - 1 < lc {
        assert(p == spec_layer_binary(c.layers@[k - 1].1, rows, cols, 0));
    } else if k - 1 < lc + cc {
        let q = c.composites@[k - 1 - lc];
        assert(p == spec_layer_binary(q.1, rows, cols, q.0));
    } else {
        assert(p == spec_macro_binary(c.macros@[k - 1 - lc - cc]));
    }
    assert(p.len() >= 1);
    if j < k - 1 {
        lemma_parts_rise(c, j, k - 1);
    }
}

/// The keyboard accepts the layout the compiler writes for a config whose sizes it takes:
/// the keyboard's matrix size, at least the six base layers, and room in its word array.
pub proof fn law_compiled_layout_loads(c: KeyboardConfig, rows: int, cols: int, max: int)
    requires
        layout_fits(c),
        globals_fit(c),
        c.row_count == rows,
        c.col_count == cols,
        c.layers@.len() >= 6,
        c.layers@.len() + c.composites@.len() < LAYER_MAX - LAYER_MIN,
        c.macros@.len() < MACROS_MAX - MACROS_MIN,
        layout_tail(c).len() < max,
    ensures
        load_ok(c.spec_binary(), rows, cols, max),
{
    let b = c.spec_binary();
    let g = c.layout_globals();
    law_layout_tail_loaded(c);
    lemma_globals_binary(c, globals::LAST_TIMEOUT + 1);
    assert(b.subrange(5, 5 + g.len() as int) =~= g);
    lemma_globals_end(b, 5, g.len() as int);
    let lc = c.layers@.len() as u16;
    let cc = c.composites@.len() as u16;
    assert(((lc | (cc << 8u16)) as u16) & 0xffu16 == lc) by (bit_vector)
        requires
            lc < 256,
            cc < 256,
    ;
    let r = c.row_count as u16;
    let co = c.col_count as u16;
    assert((((co | (r << 8u16)) as u16) >> 8u16) == r && (((co | (r << 8u16)) as u16) & 0xffu16) == co)
        by (bit_vector)
        requires
            r < 256,
            co < 256,
    ;
    let parts = c.part_binaries();
    let n = parts.len() as int;
    let m = layout_tail(c);
    let count = header_layer_count(b[2]) + b[3] + 1;
    assert(count == n + 1);
    assert forall|j: int| 0 <= j < count && j < m.len() implies 0 < #[trigger] m[j] <= max by {
        lemma_tail_shape(c, j);
        lemma_concat_len(parts, j, n);
    }
    assert forall|j: int, k: int| 0 <= j < k < count && k < m.len() implies #[trigger] m[j] < #[trigger] m[k] by {
        lemma_tail_shape(c, j);
        lemma_tail_shape(c, k);
        lemma_parts_rise(c, j, k);
    }
    assert(dir_ok(m, count, max));
}

/// After the keyboard loads the layout the compiler wrote for a config (its word array then
/// starts with the layout after the global settings, its directory counts the config's
/// layers and composite layers, and the main layer alone is active), a key gives the code
/// the config's main layer gives it: exactly where the layout holds that layer as every
/// key's code, and that code or nothing where it holds a list.
pub proof fn law_compile_load_lookup<const ROWS: usize, const COLS: usize, const LAYOUT_MAX: usize>(
    c: KeyboardConfig,
    mgr: Manager<ROWS, COLS, LAYOUT_MAX>,
    row: usize,
    column: usize,
)
    requires
        layout_fits(c),
        globals_fit(c),
        c.layers@.len() > MAIN_BASE,
        c.row_count == ROWS,
        c.col_count == COLS,
        row < ROWS,
        column < COLS,
        ({
            let b = c.spec_binary();
            let k = load_len(b);
            &&& mgr.spec_mapping().len() >= k
            &&& mgr.spec_mapping().subrange(0, k) == b.subrange(b.len() - k, b.len() as int)
            &&& mgr.dir_base() == header_layer_count(b[2])
            &&& mgr.layer_stack() == seq![MAIN_BASE]
        }),
    ensures
        ({
            let found = spec_find_code(
                mgr.spec_mapping(),
                mgr.dir_base(),
                ROWS as int,
                COLS as int,
                mgr.layer_stack(),
                1,
                row,
                column,
            );
            &&& dense_layer(c.layers@[MAIN_BASE as int].1, ROWS as int, COLS as int) ==> found
                == configured_code(c, MAIN_BASE as int, row, column)
            &&& found is None || found == configured_code(c, MAIN_BASE as int, row, column)
        }),
{
    law_layout_tail_loaded(c);
    let idx = MAIN_BASE as int;
    assert(seq![MAIN_BASE] == seq![idx as u16]);
    if dense_layer(c.layers@[idx].1, ROWS as int, COLS as int) {
        law_dense_layer_code(c, mgr.spec_mapping(), idx, row, column);
    } else {
        law_sparse_layer_code(c, mgr.spec_mapping(), idx, row, column);
    }
}

} // verus!
