//! The layout manager: the loaded layers and macros, the stack of active layers, the stack
//! of running macros and the queue of postponed key events, all kept in one word array.
use vstd::prelude::*;
use crate::globals::{self, COMPOSITE_BIT, COMPOSITE_PART_BIT, PROTOCOL_VERSION};
use crate::key_range::{self, LAYER_MAX, LAYER_MIN, MACROS_MAX, MACROS_MIN};
use crate::macros::{spec_decode, spec_frame, spec_restore, KeyPlusMod, Macro};

verus! {

/// The index of the main layer, the bottom of the layer stack.
pub const MAIN_BASE: u16 = 5;

/// Marks a layer stack entry whose modifiers are the right-hand ones.
pub const RIGHT_MOD: u16 = 0x8000;

/// The number of words of one mouse profile: two settings of five 32-bit values each.
pub const MOUSE_PROFILE_WORDS: usize = 20;

#[derive(Debug, PartialEq, Eq, Structural)]
pub enum LoadError {
    OutOfSpace,
    VersionMismatch,
    RowColMismatch,
    Corrupt,
}

// ---------------------------------------------------------------------------------------------
// Sparse layer search
// ---------------------------------------------------------------------------------------------

/// The packed position word of a key: the row in the high byte, the column in the low byte.
pub open spec fn spec_pos(row: usize, column: usize) -> u16 {
    (((row as u16) << 8u16) | (column as u16)) as u16
}

/// Whether the window `codes[off..off + len]` pairs `key` with `value` at an even offset of
/// `codes`.
pub open spec fn is_pair(codes: Seq<u16>, i: int, key: u16, value: u16) -> bool {
    &&& 0 <= i
    &&& i + 1 < codes.len()
    &&& i % 2 == 0
    &&& codes[i] == key
    &&& codes[i + 1] == value
}

/// The halving step of the sparse search: half of `s`, rounded down to an even number.
pub open spec fn half_even(s: int) -> int {
    (s / 2) - ((s / 2) % 2)
}

/// What the sparse search of `key` finds in the window `codes[off..off + len]`, whose
/// previous probe distance was `s`. The search halves the probe distance each round and
/// narrows the window to one side of the probe.
pub open spec fn search_from(codes: Seq<u16>, key: u16, off: int, len: int, s: int) -> u16
    decreases len,
{
    let s2 = half_even(s);
    if len <= 0 || off < 0 || off + len > codes.len() || s < 0 {
        0
    } else if len <= s2 {
        if len == 2 && key == codes[off] {
            codes[off + 1]
        } else {
            0
        }
    } else {
        let v = codes[off + s2];
        if key < v {
            search_from(codes, key, off, s2, s2)
        } else if key > v {
            if len > s2 + 2 {
                search_from(codes, key, off + s2 + 2, len - s2 - 2, s2)
            } else {
                0
            }
        } else if len > s2 + 1 {
            codes[off + s2 + 1]
        } else {
            0
        }
    }
}

/// What a search of a whole sparse layer `codes` for `key` finds.
pub open spec fn spec_search_code(codes: Seq<u16>, key: u16) -> u16 {
    search_from(codes, key, 0, codes.len() as int, codes.len() as int)
}

/// The sparse search only ever finds a value that the layer pairs with the key.
pub proof fn lemma_search_from_sound(codes: Seq<u16>, key: u16, off: int, len: int, s: int)
    requires
        off % 2 == 0,
    ensures
        search_from(codes, key, off, len, s) == 0 || is_pair(
            codes,
            choose|i: int| is_pair(codes, i, key, search_from(codes, key, off, len, s)),
            key,
            search_from(codes, key, off, len, s),
        ),
    decreases len,
{
    let r = search_from(codes, key, off, len, s);
    let s2 = half_even(s);
    if len <= 0 || off < 0 || off + len > codes.len() || s < 0 {
    } else if len <= s2 {
        if len == 2 && key == codes[off] {
            assert(is_pair(codes, off, key, r));
        }
    } else {
        let v = codes[off + s2];
        assert(s2 % 2 == 0);
        if key < v {
            lemma_search_from_sound(codes, key, off, s2, s2);
        } else if key > v {
            if len > s2 + 2 {
                lemma_search_from_sound(codes, key, off + s2 + 2, len - s2 - 2, s2);
            }
        } else if len > s2 + 1 {
            assert(is_pair(codes, off + s2, key, r));
        }
    }
}

/// Whether the positions of the sparse layer `codes`, the words at even offsets, strictly
/// increase.
pub open spec fn positions_increase(codes: Seq<u16>) -> bool {
    forall|a: int, b: int|
        0 <= a < b < codes.len() && a % 2 == 0 && b % 2 == 0 ==> #[trigger] codes[a] < #[trigger] codes[b]
}

/// Whether every key of a window of `len` words is reached by the sparse search whose
/// previous probe distance was `s`.
spec fn window_searched(len: int, s: int) -> bool
    decreases len,
{
    let s2 = half_even(s);
    if s2 < 0 {
        false
    } else if len <= 0 {
        true
    } else if len <= s2 {
        len == 2
    } else if len < s2 + 2 {
        false
    } else {
        window_searched(s2, s2) && window_searched(len - s2 - 2, s2)
    }
}

/// A window that the search reaches throughout yields the code paired with any key in it.
proof fn lemma_search_from_complete(codes: Seq<u16>, key: u16, off: int, len: int, s: int, i: int)
    requires
        positions_increase(codes),
        0 <= off,
        off % 2 == 0,
        len % 2 == 0,
        off + len <= codes.len(),
        window_searched(len, s),
        off <= i < off + len,
        i % 2 == 0,
        codes[i] == key,
    ensures
        search_from(codes, key, off, len, s) == codes[i + 1],
    decreases len,
{
    let s2 = half_even(s);
    assert(s2 % 2 == 0 && s2 >= 0);
    if len <= s2 {
        assert(len == 2 && i == off);
    } else {
        let v = codes[off + s2];
        if key < v {
            if i >= off + s2 {
                if i > off + s2 {
                    assert(codes[off + s2] < codes[i]);
                }
            }
            lemma_search_from_complete(codes, key, off, s2, s2, i);
        } else if key > v {
            if i <= off + s2 {
                if i < off + s2 {
                    assert(codes[i] < codes[off + s2]);
                }
            }
            lemma_search_from_complete(codes, key, off + s2 + 2, len - s2 - 2, s2, i);
        } else {
            if i < off + s2 {
                assert(codes[i] < codes[off + s2]);
            } else if i > off + s2 {
                assert(codes[off + s2] < codes[i]);
            }
        }
    }
}

/// Whether a sparse layer of `n` words is one whose keys the search misses: of fewer than
/// 128 words, those of 32, 64, 66, 68, 72, 80 and 96 words.
pub open spec fn missed_layer_len(n: int) -> bool {
    n == 32 || n == 64 || n == 66 || n == 68 || n == 72 || n == 80 || n == 96
}

/// The search reaches every key of a layer of 0 to 31 words but those of the lengths
/// `missed_layer_len` names.
proof fn lemma_layers_searched_0(n: int)
    requires
        0 <= n < 32,
        n % 2 == 0,
        !missed_layer_len(n),
    ensures
        window_searched(n, n),
{
    reveal_with_fuel(window_searched, 9);
    if n == 0 {
    } else if n == 2 {
    } else if n == 4 {
    } else if n == 6 {
    } else if n == 8 {
    } else if n == 10 {
    } else if n == 12 {
    } else if n == 14 {
    } else if n == 16 {
    } else if n == 18 {
    } else if n == 20 {
    } else if n == 22 {
    } else if n == 24 {
    } else if n == 26 {
    } else if n == 28 {
    } else {
        assert(n == 30);
    }
}

/// The search reaches every key of a layer of 32 to 63 words but those of the lengths
/// `missed_layer_len` names.
proof fn lemma_layers_searched_32(n: int)
    requires
        32 <= n < 64,
        n % 2 == 0,
        !missed_layer_len(n),
    ensures
        window_searched(n, n),
{
    reveal_with_fuel(window_searched, 9);
    if n == 34 {
    } else if n == 36 {
    } else if n == 38 {
    } else if n == 40 {
    } else if n == 42 {
    } else if n == 44 {
    } else if n == 46 {
    } else if n == 48 {
    } else if n == 50 {
    } else if n == 52 {
    } else if n == 54 {
    } else if n == 56 {
    } else if n == 58 {
    } else if n == 60 {
    } else {
        assert(n == 62);
    }
}

/// The search reaches every key of a layer of 64 to 95 words but those of the lengths
/// `missed_layer_len` names.
proof fn lemma_layers_searched_64(n: int)
    requires
        64 <= n < 96,
        n % 2 == 0,
        !missed_layer_len(n),
    ensures
        window_searched(n, n),
{
    reveal_with_fuel(window_searched, 9);
    if n == 70 {
    } else if n == 74 {
    } else if n == 76 {
    } else if n == 78 {
    } else if n == 82 {
    } else if n == 84 {
    } else if n == 86 {
    } else if n == 88 {
    } else if n == 90 {
    } else if n == 92 {
    } else {
        assert(n == 94);
    }
}

/// The search reaches every key of a layer of 96 to 127 words but those of the lengths
/// `missed_layer_len` names.
proof fn lemma_layers_searched_96(n: int)
    requires
        96 <= n < 128,
        n % 2 == 0,
        !missed_layer_len(n),
    ensures
        window_searched(n, n),
{
    reveal_with_fuel(window_searched, 9);
    if n == 98 {
    } else if n == 100 {
    } else if n == 102 {
    } else if n == 104 {
    } else if n == 106 {
    } else if n == 108 {
    } else if n == 110 {
    } else if n == 112 {
    } else if n == 114 {
    } else if n == 116 {
    } else if n == 118 {
    } else if n == 120 {
    } else if n == 122 {
    } else if n == 124 {
    } else {
        assert(n == 126);
    }
}

/// The search reaches every key of a layer of fewer than 128 words but those of the
/// lengths `missed_layer_len` names.
proof fn lemma_small_layers_searched(n: int)
    requires
        0 <= n < 128,
        n % 2 == 0,
        !missed_layer_len(n),
    ensures
        window_searched(n, n),
{
    if n < 32 {
        lemma_layers_searched_0(n);
    } else if n < 64 {
        lemma_layers_searched_32(n);
    } else if n < 96 {
        lemma_layers_searched_64(n);
    } else {
        lemma_layers_searched_96(n);
    }
}

/// The sparse search finds every key of a layer: in a list of (position, code) pairs whose
/// positions strictly increase, a key present at an even offset `i` gives the code after it.
/// This holds for every layer of fewer than 128 words but those of the lengths that
/// `missed_layer_len` names, where the search skips some keys.
pub proof fn law_search_code_complete(codes: Seq<u16>, row: usize, column: usize, i: int)
    requires
        codes.len() % 2 == 0,
        codes.len() < 128,
        !missed_layer_len(codes.len() as int),
        positions_increase(codes),
        0 <= i < codes.len(),
        i % 2 == 0,
        codes[i] == spec_pos(row, column),
    ensures
        spec_search_code(codes, spec_pos(row, column)) == codes[i + 1],
{
    lemma_small_layers_searched(codes.len() as int);
    lemma_search_from_complete(codes, spec_pos(row, column), 0, codes.len() as int, codes.len() as int, i);
}

/// Searches the sparse layer `codes`, a list of (position, code) word pairs ordered by
/// position, for the key at `row`, `column`; 0 when the search finds no entry.
pub fn search_code(codes: &[u16], row: usize, column: usize) -> (r: u16)
    ensures
        r == spec_search_code(codes@, spec_pos(row, column)),
        r == 0 || exists|i: int| is_pair(codes@, i, spec_pos(row, column), r),
        codes@.len() % 2 == 0 && codes@.len() < 128 && !missed_layer_len(codes@.len() as int) && positions_increase(codes@)
            ==> forall|i: int|
            0 <= i < codes@.len() && i % 2 == 0 && #[trigger] codes@[i] == spec_pos(row, column) ==> r
                == codes@[i + 1],
{
    proof {
        if codes@.len() % 2 == 0 && codes@.len() < 128 && !missed_layer_len(codes@.len() as int) && positions_increase(codes@) {
            assert forall|i: int|
                0 <= i < codes@.len() && i % 2 == 0 && #[trigger] codes@[i] == spec_pos(row, column) implies
                spec_search_code(codes@, spec_pos(row, column)) == codes@[i + 1] by {
                law_search_code_complete(codes@, row, column, i);
            }
        }
        lemma_search_from_sound(codes@, spec_pos(row, column), 0, codes@.len() as int,
            codes@.len() as int);
    }
    let key: u16 = ((row as u16) << 8) | (column as u16);
    let n: usize = codes.len();
    let mut off: usize = 0;
    let mut len: usize = n;
    let mut s: usize = n;
    loop
        invariant
            n == codes@.len(),
            off + len <= n,
            s <= codes@.len(),
            key == spec_pos(row, column),
            spec_search_code(codes@, key) == 0 || exists|i: int|
                is_pair(codes@, i, key, spec_search_code(codes@, key)),
            search_from(codes@, key, off as int, len as int, s as int) == spec_search_code(
                codes@,
                key,
            ),
            codes@.len() % 2 == 0 && codes@.len() < 128 && !missed_layer_len(codes@.len() as int) && positions_increase(codes@)
                ==> forall|i: int|
                0 <= i < codes@.len() && i % 2 == 0 && #[trigger] codes@[i] == key ==> spec_search_code(
                    codes@,
                    key,
                ) == codes@[i + 1],
        decreases len,
    {
        let s2: usize = (s >> 1) & !1usize;
        assert(s2 == half_even(s as int)) by {
            assert((s >> 1usize) & !1usize == (s >> 1usize) - ((s >> 1usize) % 2) && s >> 1usize == s / 2)
                by (bit_vector);
        }
        assert(s2 <= s / 2);
        if len <= s2 {
            if len == 2 && key == codes[off] {
                return codes[off + 1];
            }
            return 0;
        }
        let v = codes[off + s2];
        if key < v {
            len = s2;
        } else if key > v {
            if len > s2 + 2 {
                off = off + s2 + 2;
                len = len - s2 - 2;
            } else {
                return 0;
            }
        } else {
            return if len > s2 + 1 {
                codes[off + s2 + 1]
            } else {
                0
            };
        }
        s = s2;
    }
}

// ---------------------------------------------------------------------------------------------
// Layers
// ---------------------------------------------------------------------------------------------

/// The index at which a layer's codes start: composite layers carry a 32-bit bitmap of the
/// layers they are made of after their header word.
pub open spec fn layer_codes_start(data: Seq<u16>) -> int {
    if data[0] & COMPOSITE_BIT == 0 {
        1
    } else {
        3
    }
}

/// The code that a layer stored as `data` gives the key at `row`, `column`. A layer holds
/// either every key's code in row-major order or sorted (position, code) pairs.
pub open spec fn spec_layer_get(data: Seq<u16>, rows: int, cols: int, row: usize, column: usize) -> u16 {
    let codes = data.subrange(layer_codes_start(data), data.len() as int);
    if codes.len() == rows * cols {
        let i = row * cols + column;
        if 0 <= i < codes.len() {
            codes[i]
        } else {
            0
        }
    } else {
        spec_search_code(codes, spec_pos(row, column))
    }
}

/// A layer: a header word holding its modifiers and flags, then its codes.
#[derive(Debug)]
pub struct Layer<'l, const ROWS: usize, const COLS: usize>(pub &'l [u16]);

impl<'l, const ROWS: usize, const COLS: usize> Layer<'l, ROWS, COLS> {
    pub open spec fn valid(&self) -> bool {
        self.0@.len() >= layer_codes_start(self.0@)
    }

    /// The code that this layer gives the key at `row`, `column`; 0 for none.
    pub fn get(&self, row: usize, column: usize) -> (r: u16)
        requires
            self.0@.len() >= 1,
            self.0@.len() >= layer_codes_start(self.0@),
            COLS < 0x10000,
            ROWS < 0x10000,
            row < 0x10000,
            column < 0x10000,
        ensures
            r == spec_layer_get(self.0@, ROWS as int, COLS as int, row, column),
    {
        let start: usize = if self.0[0] & COMPOSITE_BIT == 0 {
            1
        } else {
            3
        };
        let slice = vstd::slice::slice_subrange(self.0, start, self.0.len());
        proof {
            assert(ROWS * COLS < 0x1_0000_0000) by (nonlinear_arith)
                requires
                    ROWS < 0x10000,
                    COLS < 0x10000,
            ;
        }
        if slice.len() as u64 == ROWS as u64 * COLS as u64 {
            proof {
                assert(row * COLS < 0x1_0000_0000) by (nonlinear_arith)
                    requires
                        row < 0x10000,
                        COLS < 0x10000,
                ;
            }
            let i: u64 = row as u64 * COLS as u64 + column as u64;
            if i < slice.len() as u64 {
                slice[i as usize]
            } else {
                0
            }
        } else {
            search_code(slice, row, column)
        }
    }

    /// The modifiers that this layer holds while it is active.
    pub fn modifiers(&self) -> (r: u8)
        requires
            self.0@.len() >= 1,
        ensures
            r == self.0@[0] as u8,
    {
        self.0[0] as u8
    }

    /// Whether this layer is a part of some composite layer.
    pub fn is_composite_part(&self) -> (r: bool)
        requires
            self.0@.len() >= 1,
        ensures
            r == (self.0@[0] & COMPOSITE_PART_BIT != 0),
    {
        self.0[0] & COMPOSITE_PART_BIT != 0
    }

    /// The bitmap of the layers that make up this composite layer.
    pub fn composite_bitmap(&self) -> (r: u32)
        requires
            self.0@.len() >= 3,
        ensures
            r == (self.0@[1] as u32 | ((self.0@[2] as u32) << 16u32)),
    {
        self.0[1] as u32 | ((self.0[2] as u32) << 16)
    }
}

} // verus!

verus! {

// ---------------------------------------------------------------------------------------------
// Moving words

/// Copies `m[lo..hi]` to `m[lo + diff..hi + diff]`.
fn shift_up(m: &mut Vec<u16>, lo: usize, hi: usize, diff: usize)
    requires
        lo <= hi,
        hi + diff <= old(m)@.len(),
    ensures
        final(m)@.len() == old(m)@.len(),
        forall|i: int| 0 <= i < lo ==> final(m)@[i] == old(m)@[i],
        forall|i: int| lo <= i < hi ==> final(m)@[i + diff] == old(m)@[i],
{
    let ghost old_m = m@;
    let n = m.len();
    let mut k: usize = hi;
    while k > lo
        invariant
            lo <= k <= hi,
            hi + diff <= old_m.len(),
            n == old_m.len(),
            m@.len() == old_m.len(),
            forall|i: int| 0 <= i < k ==> m@[i] == old_m[i],
            forall|i: int| k <= i < hi ==> m@[i + diff] == old_m[i],
        decreases k,
    {
        k = k - 1;
        let v = m[k];
        m.set(k + diff, v);
    }
}

/// Writes `data` into `m` from `at` on.
fn write_slice(m: &mut Vec<u16>, at: usize, data: &[u16])
    requires
        at + data@.len() <= old(m)@.len(),
    ensures
        final(m)@.len() == old(m)@.len(),
        forall|i: int| 0 <= i < at ==> final(m)@[i] == old(m)@[i],
        forall|i: int| at + data@.len() <= i < old(m)@.len() ==> final(m)@[i] == old(m)@[i],
        forall|i: int| 0 <= i < data@.len() ==> final(m)@[at + i] == data@[i],
        final(m)@.subrange(at as int, at + data@.len()) == data@,
{
    let n = m.len();
    let mut i: usize = 0;
    while i < data.len()
        invariant
            n == old(m)@.len(),
            i <= data@.len(),
            at + data@.len() <= m@.len(),
            m@.len() == old(m)@.len(),
            forall|k: int| 0 <= k < at ==> m@[k] == old(m)@[k],
            forall|k: int| at + data@.len() <= k < old(m)@.len() ==> m@[k] == old(m)@[k],
            forall|k: int| 0 <= k < i ==> m@[at + k] == data@[k],
        decreases data@.len() - i,
    {
        m.set(at + i, data[i]);
        i = i + 1;
    }
    assert(m@.subrange(at as int, at + data@.len()) =~= data@);
}

// ---------------------------------------------------------------------------------------------
// The manager's word array
// ---------------------------------------------------------------------------------------------

/// Where the layer with directory index `idx` lies in `m`, when the directory entry and the
/// words it points at describe a layer.
pub open spec fn spec_layer_range(m: Seq<u16>, dir_base: int, idx: int) -> Option<(int, int)> {
    if idx + 1 >= m.len() || idx >= dir_base || idx < 0 {
        None
    } else {
        let s = m[idx] as int;
        let e = m[idx + 1] as int;
        if e < s || e > m.len() || e - s < 1 || e - s < layer_codes_start(m.subrange(s, e)) {
            None
        } else {
            Some((s, e))
        }
    }
}

/// The queue of postponed key events held in `m[b..t]`. Each memo is stored with its length
/// in the word after it; the oldest memo lies at the top and comes first.
pub open spec fn spec_memos(m: Seq<u16>, b: int, t: int) -> Seq<Seq<u16>>
    decreases t - b,
{
    if t <= b || t > m.len() || b < 0 {
        Seq::empty()
    } else {
        let end = t - 1;
        let start = end - m[end] as int;
        if start < b {
            Seq::empty()
        } else {
            seq![m.subrange(start, end)] + spec_memos(m, b, start)
        }
    }
}

/// Whether `m[b..t]` is exactly a chain of memos.
pub open spec fn memos_wf(m: Seq<u16>, b: int, t: int) -> bool
    decreases t - b,
{
    if t <= b {
        t == b
    } else if t > m.len() || b < 0 {
        false
    } else {
        let end = t - 1;
        let start = end - m[end] as int;
        start >= b && memos_wf(m, b, start)
    }
}

/// Moving a chain of memos to other words keeps the memos.
pub proof fn lemma_memos_shift(m1: Seq<u16>, m2: Seq<u16>, b: int, t: int, d: int)
    requires
        memos_wf(m1, b, t),
        0 <= b <= t <= m1.len(),
        0 <= b + d,
        t + d <= m2.len(),
        forall|i: int| b <= i < t ==> m2[i + d] == m1[i],
    ensures
        memos_wf(m2, b + d, t + d),
        spec_memos(m2, b + d, t + d) == spec_memos(m1, b, t),
    decreases t - b,
{
    if t > b {
        let end = t - 1;
        let start = end - m1[end] as int;
        assert(m2[end + d] == m1[end]);
        lemma_memos_shift(m1, m2, b, start, d);
        assert(m2.subrange(start + d, end + d) =~= m1.subrange(start, end));
    }
}

/// Writing outside a chain of memos keeps the memos.
pub proof fn lemma_memos_frame(m1: Seq<u16>, m2: Seq<u16>, b: int, t: int)
    requires
        memos_wf(m1, b, t),
        0 <= b <= t <= m1.len(),
        t <= m2.len(),
        forall|i: int| b <= i < t ==> m2[i] == m1[i],
    ensures
        memos_wf(m2, b, t),
        spec_memos(m2, b, t) == spec_memos(m1, b, t),
{
    lemma_memos_shift(m1, m2, b, t, 0);
}

/// A chain of memos ends at its bottom.
pub proof fn lemma_memos_push(m: Seq<u16>, b: int, t: int, nb: int)
    requires
        memos_wf(m, b, t),
        0 <= nb < b <= t <= m.len(),
        m[b - 1] as int == b - 1 - nb,
    ensures
        memos_wf(m, nb, t),
        spec_memos(m, nb, t) == spec_memos(m, b, t).push(m.subrange(nb, b - 1)),
    decreases t - b,
{
    if t == b {
        assert(memos_wf(m, nb, nb));
        assert(memos_wf(m, nb, t));
        assert(spec_memos(m, nb, nb) =~= Seq::<Seq<u16>>::empty());
        assert(spec_memos(m, nb, t) =~= seq![m.subrange(nb, b - 1)]);
    } else {
        let end = t - 1;
        let start = end - m[end] as int;
        lemma_memos_push(m, b, start, nb);
        assert(memos_wf(m, nb, t));
        assert(spec_memos(m, nb, t) =~= spec_memos(m, b, t).push(m.subrange(nb, b - 1)));
    }
}

/// The layer manager. Its word array `mapping` holds, from the bottom up: the layer and macro
/// directory and the layers and macros themselves; the stack of active layers, whose bottom
/// entry is the current layout; free words; the stack of running macros; the queue of
/// postponed key events.
pub struct Manager<const ROWS: usize, const COLS: usize, const LAYOUT_MAX: usize> {
    pub mapping: Vec<u16>,
    pub globals: [u16; 4],
    pub mouse_profiles: Vec<u16>,
    pub layout_bottom: usize,
    pub layout_top: usize,
    pub composite_start_index: usize,
    pub macro_dir_base: usize,
    pub memo_bottom: usize,
    pub memo_top: usize,
    pub macro_stack: usize,
    pub active_comp_count: u32,
    pub active_comp_part_layers: u32,
}

impl<const ROWS: usize, const COLS: usize, const LAYOUT_MAX: usize> Manager<ROWS, COLS, LAYOUT_MAX> {
    /// The sizes this manager supports.
    pub open spec fn params_ok() -> bool {
        &&& 0 < ROWS < 0x80
        &&& 0 < COLS < 0x100
        &&& 0 < LAYOUT_MAX < 0x10000
    }

    /// The invariant of the manager.
    pub closed spec fn wf(&self) -> bool {
        &&& Self::params_ok()
        &&& self.mapping@.len() == LAYOUT_MAX
        &&& self.mouse_profiles@.len() == 3 * MOUSE_PROFILE_WORDS
        &&& self.layout_bottom < LAYOUT_MAX
        &&& self.layout_bottom <= self.layout_top
        &&& self.layout_top <= self.macro_stack
        &&& self.macro_stack <= self.memo_bottom
        &&& self.memo_bottom <= self.memo_top
        &&& self.memo_top <= LAYOUT_MAX
        &&& (self.layout_bottom < self.macro_stack || self.macro_stack == self.memo_top)
        &&& self.composite_start_index <= self.macro_dir_base < 0x10000
        &&& memos_wf(self.mapping@, self.memo_bottom as int, self.memo_top as int)
    }

    /// The word array.
    pub closed spec fn spec_mapping(&self) -> Seq<u16> {
        self.mapping@
    }

    /// The stack of active layers, bottom first. Each entry is a layer index, with
    /// `RIGHT_MOD` set where the layer's modifiers are the right-hand ones.
    pub closed spec fn layer_stack(&self) -> Seq<u16> {
        self.mapping@.subrange(self.layout_bottom as int, self.layout_top as int)
    }

    /// The index of the layout entry, the bottom of the layer stack.
    pub closed spec fn bottom(&self) -> int {
        self.layout_bottom as int
    }

    /// How far the layer stack may grow: the bottom of the macro stack.
    pub closed spec fn top_limit(&self) -> int {
        self.macro_stack as int
    }

    /// The words of the stack of running macros, top first.
    pub closed spec fn macro_words(&self) -> Seq<u16> {
        self.mapping@.subrange(self.macro_stack as int, self.memo_bottom as int)
    }

    /// The queue of postponed key events, oldest first.
    pub closed spec fn memos(&self) -> Seq<Seq<u16>> {
        spec_memos(self.mapping@, self.memo_bottom as int, self.memo_top as int)
    }

    /// The number of free words between the layer stack and the macro stack.
    pub closed spec fn free_words(&self) -> int {
        self.macro_stack - self.layout_top
    }

    /// The directory index of the first macro.
    pub closed spec fn dir_base(&self) -> int {
        self.macro_dir_base as int
    }

    /// The global timeouts, indexed from `DUAL_ACTION_TIMEOUT`.
    pub closed spec fn spec_globals(&self) -> Seq<u16> {
        self.globals@
    }

    /// The three mouse profiles, each as the words of its settings.
    pub closed spec fn spec_mouse_profiles(&self) -> Seq<u16> {
        self.mouse_profiles@
    }

    /// The word array holds `LAYOUT_MAX` words.
    pub proof fn lemma_mapping_len(&self)
        requires
            self.wf(),
        ensures
            self.spec_mapping().len() == LAYOUT_MAX,
            0 <= self.bottom() <= self.bottom() + self.layer_stack().len() <= self.top_limit() <= LAYOUT_MAX,
            self.memo_words_len() >= 0,
    {
    }

    /// There are three mouse profiles.
    pub proof fn lemma_mouse_profiles_len(&self)
        requires
            self.wf(),
        ensures
            self.spec_mouse_profiles().len() == 3 * MOUSE_PROFILE_WORDS,
    {
    }

    /// Where the layer with directory index `idx` lies in the word array.
    pub open spec fn layer_range(&self, idx: int) -> Option<(int, int)> {
        spec_layer_range(self.spec_mapping(), self.dir_base(), idx)
    }

    /// The words of the layer with directory index `idx`.
    pub open spec fn layer_words(&self, idx: int) -> Seq<u16>
        recommends
            self.layer_range(idx) is Some,
    {
        let (s, e) = self.layer_range(idx)->0;
        self.spec_mapping().subrange(s, e)
    }

    /// Whether the layer directory and every layer it points to lie below the layer stack.
    pub open spec fn layers_below_stack(&self) -> bool {
        &&& self.macro_dir_base <= self.bottom()
        &&& forall|idx: int| 0 <= idx < self.macro_dir_base ==> #[trigger] self.spec_mapping()[idx + 1] <= self.bottom()
    }

    /// Whether the stack entry `w` names a composite layer all of whose parts were active
    /// under the part bits `was` and are not all active under `now`.
    pub open spec fn stale_entry(&self, w: u16, was: u32, now: u32) -> bool {
        let v = w & 0xffu16;
        &&& v >= self.composite_start_index
        &&& self.layer_range(v as int) matches Some((s, e))
        &&& e - s >= 3
        &&& ({
            let bm = self.spec_mapping()[s + 1] as u32 | ((self.spec_mapping()[s + 2] as u32) << 16u32);
            (bm & was) == bm && (bm & now) != bm
        })
    }

    /// The stack entries `s` without those that `stale_entry` picks, in order.
    pub open spec fn fresh_entries(&self, s: Seq<u16>, was: u32, now: u32) -> Seq<u16>
        decreases s.len(),
    {
        if s.len() == 0 {
            s
        } else if self.stale_entry(s[0], was, now) {
            self.fresh_entries(s.drop_first(), was, now)
        } else {
            seq![s[0]] + self.fresh_entries(s.drop_first(), was, now)
        }
    }
}

/// The default mouse profiles: slow, normal and fast.
pub open spec fn default_mouse_profiles() -> Seq<u16> {
    seq![
        52429u16, 15820, 0, 16128, 0, 17530, 55050, 15523, 0, 16256, 0, 0, 0, 0, 16384, 17820,
        55050, 15395, 0, 16000,
        52429, 15820, 0, 16128, 0, 17530, 55050, 15523, 0, 16448, 0, 0, 0, 0, 16384, 17820,
        55050, 15395, 0, 16128,
        52429, 15820, 0, 16128, 0, 17530, 55050, 15523, 0, 16544, 0, 0, 0, 0, 16384, 17820,
        55050, 15395, 0, 16256,
    ]
}

} // verus!

verus! {

/// The entries of `s` that name a layer above the modifier layers.
pub open spec fn keep_upper_layers(s: Seq<u16>) -> Seq<u16>
    decreases s.len(),
{
    if s.len() == 0 {
        s
    } else {
        let rest = keep_upper_layers(s.drop_last());
        if s.last() >= 5 {
            rest.push(s.last())
        } else {
            rest
        }
    }
}

pub proof fn lemma_keep_upper_len(s: Seq<u16>)
    ensures
        keep_upper_layers(s).len() <= s.len(),
    decreases s.len(),
{
    if s.len() > 0 {
        lemma_keep_upper_len(s.drop_last());
    }
}

/// The code and modifiers that the layer stack `stack[..k]` gives the key at `row`,
/// `column`: the topmost layer with a code for the key decides.
pub open spec fn spec_find_code(
    m: Seq<u16>,
    dir_base: int,
    rows: int,
    cols: int,
    stack: Seq<u16>,
    k: int,
    row: usize,
    column: usize,
) -> Option<KeyPlusMod>
    decreases k,
{
    if k <= 0 || k > stack.len() {
        None
    } else {
        let layer_idx = stack[k - 1];
        match spec_layer_range(m, dir_base, (layer_idx & 0xffu16) as int) {
            Some((s, e)) => {
                let data = m.subrange(s, e);
                let code = spec_layer_get(data, rows, cols, row, column);
                if code != 0 {
                    if code < key_range::BASIC_MIN {
                        None
                    } else {
                        let mods = data[0] as u8;
                        Some(
                            KeyPlusMod(
                                code,
                                if layer_idx & RIGHT_MOD != 0 {
                                    (mods << 4u8) as u8
                                } else {
                                    mods
                                },
                            ),
                        )
                    }
                } else {
                    spec_find_code(m, dir_base, rows, cols, stack, k - 1, row, column)
                }
            },
            None => spec_find_code(m, dir_base, rows, cols, stack, k - 1, row, column),
        }
    }
}

impl<const ROWS: usize, const COLS: usize, const LAYOUT_MAX: usize> Manager<ROWS, COLS, LAYOUT_MAX> {
    /// An empty manager: no layout loaded, default globals and mouse profiles.
    pub fn new() -> (r: Self)
        requires
            Self::params_ok(),
        ensures
            r.wf(),
            r.layer_stack() == Seq::<u16>::empty(),
            r.memos() == Seq::<Seq<u16>>::empty(),
            r.free_words() == 0,
            r.spec_globals() == seq![
                globals::DUAL_ACTION_TIMEOUT_DEFAULT,
                globals::DUAL_ACTION_TIMEOUT2_DEFAULT,
                globals::DEBOUNCE_SETTLE_TIME_DEFAULT,
                globals::TAPDANCE_TAP_TIMEOUT_DEFAULT,
            ],
            r.spec_mouse_profiles() == default_mouse_profiles(),
            r.spec_mapping() == Seq::new(LAYOUT_MAX as nat, |i: int| 0u16),
            r.bottom() == 0,
            r.top_limit() == 0,
            r.macro_words() == Seq::<u16>::empty(),
            r.memo_words_len() == 0,
            r.room() == LAYOUT_MAX,
    {
        let mut mapping: Vec<u16> = Vec::new();
        let mut i: usize = 0;
        while i < LAYOUT_MAX
            invariant
                i <= LAYOUT_MAX,
                mapping@ == Seq::new(i as nat, |j: int| 0u16),
            decreases LAYOUT_MAX - i,
        {
            mapping.push(0);
            i = i + 1;
            assert(mapping@ =~= Seq::new(i as nat, |j: int| 0u16));
        }
        let mouse_profiles: Vec<u16> = vec![
            52429u16, 15820, 0, 16128, 0, 17530, 55050, 15523, 0, 16256, 0, 0, 0, 0, 16384, 17820,
            55050, 15395, 0, 16000,
            52429, 15820, 0, 16128, 0, 17530, 55050, 15523, 0, 16448, 0, 0, 0, 0, 16384, 17820,
            55050, 15395, 0, 16128,
            52429, 15820, 0, 16128, 0, 17530, 55050, 15523, 0, 16544, 0, 0, 0, 0, 16384, 17820,
            55050, 15395, 0, 16256,
        ];
        let r = Self {
            mapping,
            globals: [
                globals::DUAL_ACTION_TIMEOUT_DEFAULT,
                globals::DUAL_ACTION_TIMEOUT2_DEFAULT,
                globals::DEBOUNCE_SETTLE_TIME_DEFAULT,
                globals::TAPDANCE_TAP_TIMEOUT_DEFAULT,
            ],
            mouse_profiles,
            layout_bottom: 0,
            layout_top: 0,
            composite_start_index: 0,
            macro_dir_base: 0,
            memo_bottom: 0,
            memo_top: 0,
            macro_stack: 0,
            active_comp_count: 0,
            active_comp_part_layers: 0,
        };
        assert(r.mouse_profiles@ =~= default_mouse_profiles());
        assert(r.layer_stack() =~= Seq::<u16>::empty());
        r
    }

    /// Empties the layer stack but for the layout, the macro stack and the memo queue, and
    /// makes the main layer the layout.
    pub fn clear_all(&mut self)
        requires
            old(self).wf(),
        ensures
            final(self).wf(),
            final(self).layer_stack() == seq![MAIN_BASE],
            final(self).macro_words() == Seq::<u16>::empty(),
            final(self).memos() == Seq::<Seq<u16>>::empty(),
            final(self).dir_base() == old(self).dir_base(),
            final(self).spec_globals() == old(self).spec_globals(),
            final(self).spec_mouse_profiles() == old(self).spec_mouse_profiles(),
            final(self).free_words() == LAYOUT_MAX - old(self).bottom() - 1,
            final(self).bottom() == old(self).bottom(),
            final(self).top_limit() == LAYOUT_MAX,
            final(self).memo_words_len() == 0,
            final(self).room() == LAYOUT_MAX - old(self).bottom() - 1,
            final(self).spec_mapping().len() == LAYOUT_MAX,
            forall|i: int| 0 <= i < old(self).bottom() ==> final(self).spec_mapping()[i]
                == old(self).spec_mapping()[i],
    {
        self.macro_stack = LAYOUT_MAX;
        self.memo_bottom = LAYOUT_MAX;
        self.memo_top = LAYOUT_MAX;
        self.clear_layers();
        self.set_layout(MAIN_BASE);
        assert(self.layer_stack() =~= seq![MAIN_BASE]);
        assert(self.macro_words() =~= Seq::<u16>::empty());
    }

    /// Empties the layer stack but for the layout.
    pub fn clear_layers(&mut self)
        requires
            old(self).wf(),
        ensures
            final(self).wf(),
            old(self).bottom() < old(self).top_limit() ==> final(self).layer_stack() == seq![
                old(self).spec_mapping()[old(self).bottom()],
            ],
            old(self).bottom() >= old(self).top_limit() ==> final(self).layer_stack()
                == old(self).layer_stack(),
            final(self).spec_mapping() == old(self).spec_mapping(),
            final(self).bottom() == old(self).bottom(),
            final(self).top_limit() == old(self).top_limit(),
            final(self).memos() == old(self).memos(),
            final(self).macro_words() == old(self).macro_words(),
            final(self).dir_base() == old(self).dir_base(),
            final(self).spec_globals() == old(self).spec_globals(),
            final(self).spec_mouse_profiles() == old(self).spec_mouse_profiles(),
    {
        if self.layout_bottom < self.macro_stack {
            self.layout_top = self.layout_bottom + 1;
        }
    }

    /// Makes `layer_num` the layout: the bottom entry of the layer stack.
    pub fn set_layout(&mut self, layer_num: u16)
        requires
            old(self).wf(),
        ensures
            final(self).wf(),
            final(self).spec_mapping() == old(self).spec_mapping().update(
                old(self).bottom(),
                layer_num,
            ),
            final(self).bottom() == old(self).bottom(),
            final(self).top_limit() == old(self).top_limit(),
            final(self).layer_stack().len() == old(self).layer_stack().len(),
            old(self).layer_stack().len() > 0 ==> final(self).layer_stack()
                == old(self).layer_stack().update(0, layer_num),
            final(self).memos() == old(self).memos(),
            final(self).macro_words() == old(self).macro_words(),
            final(self).dir_base() == old(self).dir_base(),
            final(self).spec_globals() == old(self).spec_globals(),
            final(self).spec_mouse_profiles() == old(self).spec_mouse_profiles(),
    {
        let b = self.layout_bottom;
        let ghost old_m = self.mapping@;
        self.mapping.set(b, layer_num);
        proof {
            lemma_memos_frame(old_m, self.mapping@, self.memo_bottom as int, self.memo_top as int);
            assert(self.macro_words() =~= old_m.subrange(
                self.macro_stack as int,
                self.memo_bottom as int,
            ));
            if self.layout_bottom < self.layout_top {
                assert(self.layer_stack() =~= old_m.subrange(
                    self.layout_bottom as int,
                    self.layout_top as int,
                ).update(0, layer_num));
            }
        }
    }

    /// Keeps only the layers above the modifier layers on the layer stack, in their order,
    /// and the layout beneath them. The word just above the stack, where there is one, is
    /// taken as part of the stack.
    pub fn clear_modifier_layers(&mut self)
        requires
            old(self).wf(),
            old(self).layer_stack().len() > 0,
        ensures
            final(self).wf(),
            final(self).layer_stack() == seq![old(self).layer_stack()[0]] + keep_upper_layers(
                old(self).spec_mapping().subrange(
                    old(self).bottom() + 1,
                    if old(self).bottom() + old(self).layer_stack().len() < old(self).top_limit() {
                        old(self).bottom() + old(self).layer_stack().len() + 1
                    } else {
                        old(self).bottom() + old(self).layer_stack().len()
                    },
                ),
            ),
            final(self).memos() == old(self).memos(),
            final(self).macro_words() == old(self).macro_words(),
            final(self).dir_base() == old(self).dir_base(),
            final(self).spec_globals() == old(self).spec_globals(),
            final(self).spec_mouse_profiles() == old(self).spec_mouse_profiles(),
            final(self).bottom() == old(self).bottom(),
            final(self).top_limit() == old(self).top_limit(),
            forall|i: int| 0 <= i <= old(self).bottom() ==> final(self).spec_mapping()[i]
                == old(self).spec_mapping()[i],
    {
        let lo = self.layout_bottom + 1;
        let hi = if self.layout_top < self.macro_stack {
            self.layout_top + 1
        } else {
            self.layout_top
        };
        let ghost window = self.mapping@.subrange(lo as int, hi as int);
        let ghost old_m = self.mapping@;
        let mut i: usize = lo;
        let mut j: usize = lo;
        while i < hi
            invariant
                lo <= j <= i <= hi,
                hi <= self.macro_stack,
                self.layout_bottom == old(self).layout_bottom,
                self.layout_top == old(self).layout_top,
                self.macro_stack == old(self).macro_stack,
                self.memo_bottom == old(self).memo_bottom,
                self.memo_top == old(self).memo_top,
                self.macro_dir_base == old(self).macro_dir_base,
                self.globals == old(self).globals,
                self.mouse_profiles == old(self).mouse_profiles,
                self.composite_start_index == old(self).composite_start_index,
                self.active_comp_count == old(self).active_comp_count,
                self.active_comp_part_layers == old(self).active_comp_part_layers,
                old_m == old(self).mapping@,
                old_m.len() == LAYOUT_MAX,
                lo == self.layout_bottom + 1,
                self.mapping@.len() == LAYOUT_MAX,
                self.macro_stack <= LAYOUT_MAX,
                window == old_m.subrange(lo as int, hi as int),
                forall|k: int| i <= k < LAYOUT_MAX ==> self.mapping@[k] == old_m[k],
                forall|k: int| 0 <= k < lo ==> self.mapping@[k] == old_m[k],
                self.mapping@.subrange(lo as int, j as int) == keep_upper_layers(
                    window.subrange(0, i - lo),
                ),
            decreases hi - i,
        {
            let v = self.mapping[i];
            assert(window.subrange(0, i + 1 - lo).drop_last() =~= window.subrange(0, i - lo));
            assert(window.subrange(0, i + 1 - lo).last() == v);
            let ghost before = self.mapping@;
            if v >= 5 {
                self.mapping.set(j, v);
                j = j + 1;
                assert(self.mapping@.subrange(lo as int, j as int) =~= before.subrange(
                    lo as int,
                    j - 1,
                ).push(v));
                assert(self.mapping@.subrange(lo as int, j as int) =~= keep_upper_layers(
                    window.subrange(0, i + 1 - lo),
                ));
            } else {
                assert(self.mapping@.subrange(lo as int, j as int) =~= keep_upper_layers(
                    window.subrange(0, i + 1 - lo),
                ));
            }
            i = i + 1;
        }
        assert(window.subrange(0, hi - lo) =~= window);
        self.layout_top = j;
        proof {
            lemma_memos_frame(old_m, self.mapping@, self.memo_bottom as int, self.memo_top as int);
            assert(self.layer_stack() =~= seq![old_m[self.layout_bottom as int]]
                + keep_upper_layers(window));
            assert(self.macro_words() =~= old_m.subrange(
                self.macro_stack as int,
                self.memo_bottom as int,
            ));
        }
    }

    /// The number of entries on the layer stack.
    pub fn layer_stack_len(&self) -> (r: usize)
        requires
            self.wf(),
        ensures
            r == self.layer_stack().len(),
    {
        self.layout_top - self.layout_bottom
    }

    /// The top of the macro stack: the number of words below it in the word array.
    pub fn macro_stack(&self) -> (r: usize)
        ensures
            r == self.top_limit(),
    {
        self.macro_stack
    }

    /// The layer with directory index `layer_num`, if the directory describes one there.
    pub fn get_layer(&self, layer_num: u16) -> (r: Option<Layer<'_, ROWS, COLS>>)
        requires
            self.wf(),
        ensures
            match self.layer_range(layer_num as int) {
                Some((s, e)) => r is Some && r.unwrap().0@ == self.spec_mapping().subrange(s, e),
                None => r is None,
            },
    {
        let idx = layer_num as usize;
        let len = self.mapping.len();
        if idx + 1 >= len || idx >= self.macro_dir_base {
            return None;
        }
        let s = self.mapping[idx] as usize;
        let e = self.mapping[idx + 1] as usize;
        if e < s || e > len || e - s < 1 {
            return None;
        }
        let data = vstd::slice::slice_subrange(self.mapping.as_slice(), s, e);
        let start: usize = if data[0] & COMPOSITE_BIT == 0 {
            1
        } else {
            3
        };
        if e - s < start {
            return None;
        }
        Some(Layer(data))
    }

    /// The macro with macro number `id`; `Noop` where the directory describes none.
    /// The macro `id` of the layout: decoded from the words its directory entries bound, or
    /// `Noop` where they bound none.
    pub open spec fn spec_get_macro(&self, id: u16) -> Macro {
        let idx = id + self.dir_base();
        let m = self.spec_mapping();
        if idx + 1 >= m.len() {
            Macro::Noop
        } else {
            let s = m[idx] as int;
            let e = m[idx + 1] as int;
            if e < s || e > m.len() {
                Macro::Noop
            } else {
                spec_decode(s, m.subrange(s, e))
            }
        }
    }

    pub fn get_macro(&self, id: u16) -> (r: Macro)
        requires
            self.wf(),
        ensures
            r == ({
                let idx = id + self.dir_base();
                let m = self.spec_mapping();
                if idx + 1 >= m.len() {
                    Macro::Noop
                } else {
                    let s = m[idx] as int;
                    let e = m[idx + 1] as int;
                    if e < s || e > m.len() {
                        Macro::Noop
                    } else {
                        spec_decode(s, m.subrange(s, e))
                    }
                }
            }),
            r == self.spec_get_macro(id),
    {
        let idx = id as usize + self.macro_dir_base;
        let len = self.mapping.len();
        if idx + 1 >= len {
            return Macro::Noop;
        }
        let s = self.mapping[idx] as usize;
        let e = self.mapping[idx + 1] as usize;
        if e < s || e > len {
            return Macro::Noop;
        }
        Macro::decode(s, Some(vstd::slice::slice_subrange(self.mapping.as_slice(), s, e)))
    }

    /// The action that the active layers give the key at `row`, `column`, with the
    /// modifiers of the layer that gives it; `None` for no action.
    pub fn find_code(&self, row: usize, column: usize) -> (r: Option<KeyPlusMod>)
        requires
            self.wf(),
            row < 0x10000,
            column < 0x10000,
        ensures
            r == spec_find_code(
                self.spec_mapping(),
                self.dir_base(),
                ROWS as int,
                COLS as int,
                self.layer_stack(),
                self.layer_stack().len() as int,
                row,
                column,
            ),
    {
        let mut k: usize = self.layout_top;
        while k > self.layout_bottom
            invariant
                self.wf(),
                self.layout_bottom <= k <= self.layout_top,
                row < 0x10000,
                column < 0x10000,
                spec_find_code(
                    self.spec_mapping(),
                    self.dir_base(),
                    ROWS as int,
                    COLS as int,
                    self.layer_stack(),
                    self.layer_stack().len() as int,
                    row,
                    column,
                ) == spec_find_code(
                    self.spec_mapping(),
                    self.dir_base(),
                    ROWS as int,
                    COLS as int,
                    self.layer_stack(),
                    k - self.layout_bottom,
                    row,
                    column,
                ),
            decreases k,
        {
            let layer_idx = self.mapping[k - 1];
            assert(self.layer_stack()[k - self.layout_bottom - 1] == layer_idx);
            if let Some(layer) = self.get_layer(layer_idx & 0xff) {
                let code = layer.get(row, column);
                if code != 0 {
                    if code < key_range::BASIC_MIN {
                        return None;
                    }
                    let mods = layer.modifiers();
                    return Some(
                        KeyPlusMod::new(
                            code,
                            if layer_idx & RIGHT_MOD != 0 {
                                mods << 4
                            } else {
                                mods
                            },
                        ),
                    );
                }
            }
            k = k - 1;
        }
        None
    }

    /// The global setting with index `index`, one of the timeouts.
    pub fn global(&self, index: usize) -> (r: u16)
        requires
            globals::DUAL_ACTION_TIMEOUT <= index <= globals::LAST_TIMEOUT,
        ensures
            r == self.spec_globals()[index - globals::DUAL_ACTION_TIMEOUT],
    {
        self.globals[index - 3]
    }

    /// The words of mouse profile `index`, if there is one.
    pub fn get_mouse_profile(&self, index: usize) -> (r: Option<Vec<u16>>)
        requires
            self.wf(),
        ensures
            index < 3 ==> r is Some && r->0@ == self.spec_mouse_profiles().subrange(
                index * MOUSE_PROFILE_WORDS,
                (index + 1) * MOUSE_PROFILE_WORDS,
            ),
            index >= 3 ==> r is None,
            r matches Some(v) ==> v@.len() == MOUSE_PROFILE_WORDS,
    {
        if index >= 3 {
            return None;
        }
        let mut out: Vec<u16> = Vec::new();
        let base = index * MOUSE_PROFILE_WORDS;
        let mut i: usize = 0;
        while i < MOUSE_PROFILE_WORDS
            invariant
                self.wf(),
                index < 3,
                base == index * MOUSE_PROFILE_WORDS,
                i <= MOUSE_PROFILE_WORDS,
                out@ == self.spec_mouse_profiles().subrange(base as int, base + i),
            decreases MOUSE_PROFILE_WORDS - i,
        {
            out.push(self.mouse_profiles[base + i]);
            i = i + 1;
            assert(out@ =~= self.spec_mouse_profiles().subrange(base as int, base + i));
        }
        Some(out)
    }

    /// The word at `location` of the word array.
    pub fn macro_code(&self, location: usize) -> (r: u16)
        requires
            self.wf(),
            location < LAYOUT_MAX,
        ensures
            r == self.spec_mapping()[location as int],
    {
        self.mapping[location]
    }
}

} // verus!

verus! {

impl<const ROWS: usize, const COLS: usize, const LAYOUT_MAX: usize> Manager<ROWS, COLS, LAYOUT_MAX> {
    /// Moves the macro stack and the memo queue up to the end of the word array.
    fn defrag_stack(&mut self)
        requires
            old(self).wf(),
        ensures
            final(self).wf(),
            final(self).memo_top == LAYOUT_MAX,
            final(self).memo_top - final(self).memo_bottom == old(self).memo_top - old(self).memo_bottom,
            final(self).memo_bottom - final(self).macro_stack == old(self).memo_bottom - old(self).macro_stack,
            final(self).layer_stack() == old(self).layer_stack(),
            final(self).macro_words() == old(self).macro_words(),
            final(self).memos() == old(self).memos(),
            final(self).layout_bottom == old(self).layout_bottom,
            final(self).layout_top == old(self).layout_top,
            final(self).macro_dir_base == old(self).macro_dir_base,
            final(self).composite_start_index == old(self).composite_start_index,
            final(self).globals == old(self).globals,
            final(self).mouse_profiles == old(self).mouse_profiles,
            final(self).active_comp_count == old(self).active_comp_count,
            final(self).active_comp_part_layers == old(self).active_comp_part_layers,
            final(self).macro_stack >= old(self).macro_stack,
            forall|i: int| 0 <= i < old(self).macro_stack ==> final(self).mapping@[i]
                == old(self).mapping@[i],
    {
        let diff = LAYOUT_MAX - self.memo_top;
        if diff == 0 {
            return;
        }
        let lo = self.macro_stack;
        let hi = self.memo_top;
        let ghost old_m = self.mapping@;
        shift_up(&mut self.mapping, lo, hi, diff);
        proof {
            lemma_memos_shift(old_m, self.mapping@, self.memo_bottom as int, hi as int, diff as int);
            assert(self.mapping@.subrange(
                (self.macro_stack + diff) as int,
                (self.memo_bottom + diff) as int,
            ) =~= old_m.subrange(self.macro_stack as int, self.memo_bottom as int));
            assert(self.mapping@.subrange(
                self.layout_bottom as int,
                self.layout_top as int,
            ) =~= old_m.subrange(self.layout_bottom as int, self.layout_top as int));
        }
        self.macro_stack = self.macro_stack + diff;
        self.memo_bottom = self.memo_bottom + diff;
        self.memo_top = self.memo_top + diff;
    }

    /// Adds `memo` to the end of the memo queue. Fails, keeping the queue, when macros are
    /// running or the words between the layer stack and the queue are too few.
    pub fn push_memo(&mut self, memo: &[u16]) -> (r: bool)
        requires
            old(self).wf(),
        ensures
            final(self).wf(),
            r == (old(self).macro_words().len() == 0 && old(self).room() > memo@.len() + 1),
            r ==> final(self).memos() == old(self).memos().push(memo@),
            !r ==> final(self).memos() == old(self).memos(),
            final(self).memo_words_len() == old(self).memo_words_len() + if r {
                memo@.len() + 1int
            } else {
                0int
            },
            final(self).layer_stack() == old(self).layer_stack(),
            final(self).macro_words() == old(self).macro_words(),
            final(self).bottom() == old(self).bottom(),
            final(self).dir_base() == old(self).dir_base(),
            final(self).spec_globals() == old(self).spec_globals(),
            final(self).spec_mouse_profiles() == old(self).spec_mouse_profiles(),
            forall|i: int| 0 <= i < old(self).top_limit() - memo@.len() - 1
                ==> final(self).spec_mapping()[i] == old(self).spec_mapping()[i],
    {
        self.defrag_stack();
        if self.macro_stack != self.memo_bottom || memo.len() >= self.memo_bottom
            || self.memo_bottom - memo.len() <= 1 + self.layout_top {
            false
        } else {
            let n = memo.len();
            let nb = self.macro_stack - (n + 1);
            let ghost m0 = self.mapping@;
            write_slice(&mut self.mapping, nb, memo);
            self.mapping.set(nb + n, n as u16);
            proof {
                let m1 = self.mapping@;
                lemma_memos_frame(m0, m1, self.memo_bottom as int, self.memo_top as int);
                assert(m1.subrange(nb as int, nb + n) =~= memo@);
                lemma_memos_push(m1, self.memo_bottom as int, self.memo_top as int, nb as int);
                assert(m1.subrange(self.layout_bottom as int, self.layout_top as int)
                    =~= m0.subrange(self.layout_bottom as int, self.layout_top as int));
            }
            self.macro_stack = nb;
            self.memo_bottom = nb;
            proof {
                assert(self.macro_words() =~= Seq::<u16>::empty());
            }
            true
        }
    }

    /// The number of free words once the macro stack and the memo queue are moved up to the
    /// end of the word array.
    pub open spec fn room(&self) -> int {
        LAYOUT_MAX - self.bottom() - self.layer_stack().len() - self.macro_words().len()
            - self.memo_words_len()
    }

    /// The number of words the memo queue takes.
    pub closed spec fn memo_words_len(&self) -> int {
        self.memo_top - self.memo_bottom
    }

    /// Takes the oldest memo off the memo queue.
    pub fn pop_memo(&mut self) -> (r: Option<Vec<u16>>)
        requires
            old(self).wf(),
        ensures
            final(self).wf(),
            old(self).memos().len() == 0 ==> r is None && final(self).memos() == old(self).memos(),
            old(self).memos().len() > 0 ==> r is Some && r->0@ == old(self).memos()[0]
                && final(self).memos() == old(self).memos().drop_first(),
            final(self).layer_stack() == old(self).layer_stack(),
            final(self).macro_words() == old(self).macro_words(),
            final(self).spec_mapping() == old(self).spec_mapping(),
            final(self).bottom() == old(self).bottom(),
            final(self).top_limit() == old(self).top_limit(),
            final(self).dir_base() == old(self).dir_base(),
            final(self).spec_globals() == old(self).spec_globals(),
            final(self).spec_mouse_profiles() == old(self).spec_mouse_profiles(),
    {
        if self.memo_bottom == self.memo_top {
            None
        } else {
            let end = self.memo_top - 1;
            proof {
                assert(memos_wf(self.mapping@, self.memo_bottom as int, self.memo_top as int));
                assert(end - self.mapping@[end as int] >= self.memo_bottom);
            }
            let start = end - self.mapping[end] as usize;
            let out = vstd::slice::slice_to_vec(
                vstd::slice::slice_subrange(self.mapping.as_slice(), start, end),
            );
            self.memo_top = start;
            Some(out)
        }
    }

    /// Writes the state of the running macro `mac` into the top frame of the macro stack.
    pub fn update_macro(&mut self, mac: &Macro)
        requires
            old(self).wf(),
        ensures
            final(self).wf(),
            (mac is Sequence && old(self).macro_words().len() >= 3) ==> final(self).macro_words()
                == spec_frame(mac->mode, mac->location, mac->rem) + old(self).macro_words().subrange(
                3,
                old(self).macro_words().len() as int,
            ),
            !(mac is Sequence && old(self).macro_words().len() >= 3) ==> final(self).macro_words()
                == old(self).macro_words(),
            final(self).layer_stack() == old(self).layer_stack(),
            final(self).memos() == old(self).memos(),
            final(self).bottom() == old(self).bottom(),
            final(self).top_limit() == old(self).top_limit(),
            final(self).free_words() == old(self).free_words(),
            final(self).dir_base() == old(self).dir_base(),
            final(self).spec_globals() == old(self).spec_globals(),
            final(self).spec_mouse_profiles() == old(self).spec_mouse_profiles(),
            forall|i: int| 0 <= i < old(self).top_limit() ==> final(self).spec_mapping()[i]
                == old(self).spec_mapping()[i],
    {
        if let Macro::Sequence { .. } = mac {
            if self.memo_bottom - self.macro_stack >= 3 {
                let f = mac.frame();
                let p = self.macro_stack;
                let ghost m0 = self.mapping@;
                self.mapping.set(p, f[0]);
                self.mapping.set(p + 1, f[1]);
                self.mapping.set(p + 2, f[2]);
                proof {
                    lemma_memos_frame(m0, self.mapping@, self.memo_bottom as int, self.memo_top as int);
                    assert(self.macro_words() =~= f@ + m0.subrange(
                        p + 3,
                        self.memo_bottom as int,
                    ));
                    assert(m0.subrange(p as int, self.memo_bottom as int).subrange(
                        3,
                        self.memo_bottom - p,
                    ) =~= m0.subrange(p + 3, self.memo_bottom as int));
                    assert(self.layer_stack() =~= m0.subrange(
                        self.layout_bottom as int,
                        self.layout_top as int,
                    ));
                }
            }
        }
    }

    /// Pushes the frame of `mac` onto the macro stack, when it is a sequence and there is
    /// room. Returns `mac`.
    pub fn push_macro(&mut self, mac: Macro) -> (r: Macro)
        requires
            old(self).wf(),
        ensures
            final(self).wf(),
            r == mac,
            (mac is Sequence) && old(self).room() > 3 ==> final(self).macro_words() == spec_frame(
                mac->mode,
                mac->location,
                mac->rem,
            ) + old(self).macro_words(),
            !((mac is Sequence) && old(self).room() > 3) ==> final(self).macro_words() == old(
                self,
            ).macro_words(),
            final(self).layer_stack() == old(self).layer_stack(),
            final(self).memos() == old(self).memos(),
            final(self).bottom() == old(self).bottom(),
            final(self).dir_base() == old(self).dir_base(),
            final(self).spec_globals() == old(self).spec_globals(),
            final(self).spec_mouse_profiles() == old(self).spec_mouse_profiles(),
    {
        self.defrag_stack();
        let room = self.macro_stack - self.layout_top;
        if let Macro::Sequence { .. } = mac {
            if room > 3 {
                let f = mac.frame();
                let p = self.macro_stack - 3;
                let ghost m0 = self.mapping@;
                self.mapping.set(p, f[0]);
                self.mapping.set(p + 1, f[1]);
                self.mapping.set(p + 2, f[2]);
                proof {
                    lemma_memos_frame(m0, self.mapping@, self.memo_bottom as int, self.memo_top as int);
                    assert(self.mapping@.subrange(p as int, self.memo_bottom as int) =~= f@
                        + m0.subrange(self.macro_stack as int, self.memo_bottom as int));
                    assert(self.layer_stack() =~= m0.subrange(
                        self.layout_bottom as int,
                        self.layout_top as int,
                    ));
                }
                self.macro_stack = p;
            }
        }
        mac
    }

    /// Pops the top frame off the macro stack and returns the macro of the frame beneath it,
    /// `Noop` when there is none.
    pub fn pop_macro(&mut self) -> (r: Macro)
        requires
            old(self).wf(),
        ensures
            final(self).wf(),
            old(self).macro_words().len() >= 3 ==> r == spec_restore(
                old(self).macro_words().subrange(3, old(self).macro_words().len() as int),
            ) && final(self).macro_words() == old(self).macro_words().subrange(
                3,
                old(self).macro_words().len() as int,
            ),
            old(self).macro_words().len() < 3 ==> r == Macro::Noop && final(self).macro_words()
                == old(self).macro_words(),
            final(self).layer_stack() == old(self).layer_stack(),
            final(self).memos() == old(self).memos(),
            final(self).spec_mapping() == old(self).spec_mapping(),
            final(self).bottom() == old(self).bottom(),
            final(self).top_limit() >= old(self).top_limit(),
            final(self).dir_base() == old(self).dir_base(),
            final(self).spec_globals() == old(self).spec_globals(),
            final(self).spec_mouse_profiles() == old(self).spec_mouse_profiles(),
    {
        if self.memo_bottom - self.macro_stack < 3 {
            return Macro::Noop;
        }
        let data = vstd::slice::slice_subrange(
            self.mapping.as_slice(),
            self.macro_stack,
            self.memo_bottom,
        );
        let (mac, len) = Macro::pop(data);
        self.macro_stack = self.macro_stack + len;
        proof {
            assert(self.macro_words() =~= data@.subrange(3, data@.len() as int));
        }
        mac
    }
}

/// Macros come off the macro stack in the reverse of the order they went on: after pushing
/// the frames of two running sequences, popping the top frame gives back the first one.
pub proof fn law_macro_stack_lifo(
    below: Seq<u16>,
    a_mode: crate::macros::SequenceMode,
    a_location: u32,
    a_rem: u16,
    b_mode: crate::macros::SequenceMode,
    b_location: u32,
    b_rem: u16,
)
    requires
        a_location < 0x10000,
    ensures
        ({
            let words = spec_frame(b_mode, b_location, b_rem) + (spec_frame(
                a_mode,
                a_location,
                a_rem,
            ) + below);
            spec_restore(words.subrange(3, words.len() as int)) == (Macro::Sequence {
                mode: a_mode,
                location: a_location,
                rem: a_rem,
            })
        }),
{
    let fa = spec_frame(a_mode, a_location, a_rem);
    let words = spec_frame(b_mode, b_location, b_rem) + (fa + below);
    crate::macros::lemma_frame_restore(a_mode, a_location, a_rem);
    assert(words.subrange(3, words.len() as int) =~= fa + below);
    assert(spec_restore(fa + below) == spec_restore(fa));
}

} // verus!

verus! {

/// Where the globals section that starts at `pos` and holds `count` words ends, when it is
/// well formed. A mouse profile entry takes 21 words, a timeout entry 2.
pub open spec fn globals_end(data: Seq<u16>, pos: int, count: int) -> Option<int>
    decreases count,
{
    if count <= 0 {
        if count == 0 && pos <= data.len() {
            Some(pos)
        } else {
            None
        }
    } else if count < 2 || pos < 0 || pos >= data.len() {
        None
    } else {
        let i = data[pos];
        if i <= globals::MOUSE_PROFILE3 {
            if count < 21 || pos + 21 > data.len() {
                None
            } else {
                globals_end(data, pos + 21, count - 21)
            }
        } else if globals::DUAL_ACTION_TIMEOUT <= i <= globals::LAST_TIMEOUT {
            if pos + 2 > data.len() {
                None
            } else {
                globals_end(data, pos + 2, count - 2)
            }
        } else {
            None
        }
    }
}

/// The global timeouts `g` and mouse profiles `mp` once the entries of the globals section
/// that starts at `pos` and holds `count` words are applied to them: a mouse profile entry
/// replaces that profile's words, a timeout entry that timeout.
pub open spec fn globals_apply(data: Seq<u16>, pos: int, count: int, g: Seq<u16>, mp: Seq<u16>) -> (Seq<u16>, Seq<u16>)
    decreases count,
{
    if count < 2 || pos < 0 || pos >= data.len() {
        (g, mp)
    } else {
        let i = data[pos];
        if i <= globals::MOUSE_PROFILE3 {
            if count < 21 || pos + 21 > data.len() {
                (g, mp)
            } else {
                let b = i * MOUSE_PROFILE_WORDS;
                globals_apply(
                    data,
                    pos + 21,
                    count - 21,
                    g,
                    mp.subrange(0, b) + data.subrange(pos + 1, pos + 21) + mp.subrange(b + 20, mp.len() as int),
                )
            }
        } else if globals::DUAL_ACTION_TIMEOUT <= i <= globals::LAST_TIMEOUT {
            if pos + 2 > data.len() {
                (g, mp)
            } else {
                globals_apply(data, pos + 2, count - 2, g.update(i - globals::DUAL_ACTION_TIMEOUT, data[pos + 1]), mp)
            }
        } else {
            (g, mp)
        }
    }
}

/// The number of layers, composite layers included, a layout header word gives.
pub open spec fn header_layer_count(layer_info: u16) -> int {
    (layer_info >> 8u16) + (layer_info & 0xffu16)
}

/// Whether the directory `dir` of a layout is well formed: its first `n` entries, the layer
/// and macro start indices, strictly increase from above 0 and stay within `max`.
pub open spec fn dir_ok(dir: Seq<u16>, n: int, max: int) -> bool {
    &&& forall|j: int| 0 <= j < n && j < dir.len() ==> 0 < #[trigger] dir[j] <= max
    &&& forall|j: int, k: int| 0 <= j < k < n && k < dir.len() ==> #[trigger] dir[j] < #[trigger] dir[k]
}

/// Whether `load` accepts `data` as the layout of a keyboard with `rows` rows and `cols`
/// columns, for a word array of `max` words.
pub open spec fn load_ok(data: Seq<u16>, rows: int, cols: int, max: int) -> bool {
    &&& data.len() >= 5
    &&& data[0] == PROTOCOL_VERSION
    &&& (data[1] >> 8u16) == rows && (data[1] & 0xffu16) == cols
    &&& (data[2] & 0xffu16) >= 6
    &&& match globals_end(data, 5, data[4] as int) {
        Some(g) => {
            &&& header_layer_count(data[2]) < LAYER_MAX - LAYER_MIN
            &&& data[3] < MACROS_MAX - MACROS_MIN
            &&& data.len() - g < max
            &&& dir_ok(
                data.subrange(g, data.len() as int),
                header_layer_count(data[2]) + data[3] + 1,
                max,
            )
        },
        None => false,
    }
}

/// The number of words of a layout `data` that `load` copies into the word array.
pub open spec fn load_len(data: Seq<u16>) -> int {
    match globals_end(data, 5, data[4] as int) {
        Some(g) => data.len() - g,
        None => 0,
    }
}


/// Copies the words of a layout `data` from `g` on to the start of `m`, checking that the
/// first `layer_start + 1` of them, the directory, strictly increase from above 0 and stay
/// within `max`. Returns the number of words copied.
fn copy_layout(m: &mut Vec<u16>, data: &[u16], g: usize, layer_start: usize, max: usize) -> (r: Result<usize, LoadError>)
    requires
        g <= data@.len(),
        old(m)@.len() == max,
        max < 0x10000,
    ensures
        final(m)@.len() == max,
        r is Ok <==> (data@.len() - g < max && dir_ok(
            data@.subrange(g as int, data@.len() as int),
            layer_start + 1,
            max as int,
        )),
        r is Ok ==> r->Ok_0 == data@.len() - g && final(m)@.subrange(0, r->Ok_0 as int)
            == data@.subrange(g as int, data@.len() as int),
        r is Err ==> r == Err::<usize, LoadError>(LoadError::Corrupt),
{
    let n = data.len();
    let ghost dir = data@.subrange(g as int, n as int);
    let mut pos = g;
    let mut i: usize = 0;
    let mut p: u16 = 0;
    while i < max && pos < n
        invariant
            n == data@.len(),
            m@.len() == max,
            max < 0x10000,
            g <= pos <= n,
            i == pos - g,
            i <= max,
            dir == data@.subrange(g as int, n as int),
            forall|j: int| 0 <= j < i ==> m@[j] == dir[j],
            i <= layer_start ==> dir_ok(dir, i as int, max as int),
            i > layer_start ==> dir_ok(dir, layer_start + 1, max as int),
            i > 0 && i <= layer_start + 1 ==> p == dir[i - 1],
            i == 0 ==> p == 0,
        decreases n - pos,
    {
        let f = data[pos];
        assert(dir[i as int] == f);
        if i <= layer_start {
            if f as usize > max {
                assert(!dir_ok(dir, layer_start + 1, max as int));
                return Err(LoadError::Corrupt);
            }
            if f <= p {
                assert(!dir_ok(dir, layer_start + 1, max as int));
                return Err(LoadError::Corrupt);
            }
            p = f;
            assert(dir_ok(dir, i + 1, max as int));
        }
        m.set(i, f);
        i = i + 1;
        pos = pos + 1;
    }
    if i >= max {
        return Err(LoadError::Corrupt);
    }
    assert(dir_ok(dir, layer_start + 1, max as int));
    assert(m@.subrange(0, i as int) =~= dir);
    Ok(i)
}

/// Checks the header words of a layout `data`: protocol version, row and column counts and
/// the count of plain layers. Returns the layer count, the macro count and the count of
/// plain layers.
fn check_header<const ROWS: usize, const COLS: usize>(data: &[u16]) -> (r: Result<(u16, u16, u16), LoadError>)
    ensures
        r is Ok <==> (data@.len() >= 5 && data@[0] == PROTOCOL_VERSION && (data@[1] >> 8u16)
            == ROWS && (data@[1] & 0xffu16) == COLS && (data@[2] & 0xffu16) >= 6),
        r == Err::<(u16, u16, u16), LoadError>(LoadError::VersionMismatch) <==> (data@.len() >= 1
            && data@[0] != PROTOCOL_VERSION),
        r == Err::<(u16, u16, u16), LoadError>(LoadError::RowColMismatch) <==> (data@.len() >= 2
            && data@[0] == PROTOCOL_VERSION && ((data@[1] >> 8u16) != ROWS || (data@[1] & 0xffu16)
            != COLS)),
        r is Err ==> r == Err::<(u16, u16, u16), LoadError>(LoadError::VersionMismatch) || r
            == Err::<(u16, u16, u16), LoadError>(LoadError::RowColMismatch) || r == Err::<
            (u16, u16, u16),
            LoadError,
        >(LoadError::Corrupt),
        r is Ok ==> r->Ok_0.0 == header_layer_count(data@[2]) && r->Ok_0.1 == data@[3]
            && r->Ok_0.2 == data@[2] & 0xffu16,
{
    let n = data.len();
    if n < 1 {
        return Err(LoadError::Corrupt);
    }
    if data[0] != PROTOCOL_VERSION {
        return Err(LoadError::VersionMismatch);
    }
    if n < 2 {
        return Err(LoadError::Corrupt);
    }
    let rc = data[1];
    if (rc >> 8) as usize != ROWS || (rc & 0xff) as usize != COLS {
        return Err(LoadError::RowColMismatch);
    }
    if n < 3 {
        return Err(LoadError::Corrupt);
    }
    let layer_info = data[2];
    let first_count = layer_info & 0xff;
    if first_count < 6 {
        return Err(LoadError::Corrupt);
    }
    assert((layer_info >> 8u16) <= 0xff && layer_info & 0xffu16 <= 0xff) by (bit_vector);
    let layer_count: u16 = (layer_info >> 8) + first_count;
    if n < 5 {
        return Err(LoadError::Corrupt);
    }
    Ok((layer_count, data[3], first_count))
}

impl<const ROWS: usize, const COLS: usize, const LAYOUT_MAX: usize> Manager<ROWS, COLS, LAYOUT_MAX> {
    /// Reads the globals section of a layout `data` into the global settings and mouse
    /// profiles. Returns where the section ends.
    fn load_globals(&mut self, data: &[u16]) -> (r: Result<usize, LoadError>)
        requires
            old(self).wf(),
            data@.len() >= 5,
        ensures
            final(self).wf(),
            r is Ok <==> globals_end(data@, 5, data@[4] as int) is Some,
            r is Ok ==> r->Ok_0 == globals_end(data@, 5, data@[4] as int)->0,
            r is Ok ==> r->Ok_0 <= data@.len(),
            r is Err ==> r == Err::<usize, LoadError>(LoadError::Corrupt),
            r is Ok ==> (final(self).spec_globals(), final(self).spec_mouse_profiles()) == globals_apply(
                data@,
                5,
                data@[4] as int,
                old(self).spec_globals(),
                old(self).spec_mouse_profiles(),
            ),
            final(self).spec_mapping() == old(self).spec_mapping(),
            final(self).layer_stack() == old(self).layer_stack(),
            final(self).memos() == old(self).memos(),
            final(self).macro_words() == old(self).macro_words(),
            final(self).bottom() == old(self).bottom(),
            final(self).dir_base() == old(self).dir_base(),
    {
        let n = data.len();
        let mut globals_count = data[4];
        let mut pos: usize = 5;
        while globals_count != 0
            invariant
                self.wf(),
                n == data@.len(),
                5 <= pos <= n,
                globals_end(data@, pos as int, globals_count as int) == globals_end(
                    data@,
                    5,
                    data@[4] as int,
                ),
                globals_apply(data@, pos as int, globals_count as int, self.globals@, self.mouse_profiles@)
                    == globals_apply(data@, 5, data@[4] as int, old(self).globals@, old(self).mouse_profiles@),
                self.mapping == old(self).mapping,
                self.layout_bottom == old(self).layout_bottom,
                self.layout_top == old(self).layout_top,
                self.macro_stack == old(self).macro_stack,
                self.memo_bottom == old(self).memo_bottom,
                self.memo_top == old(self).memo_top,
                self.macro_dir_base == old(self).macro_dir_base,
            decreases globals_count,
        {
            if globals_count < 2 || pos >= n {
                return Err(LoadError::Corrupt);
            }
            let i = data[pos];
            pos = pos + 1;
            if i <= globals::MOUSE_PROFILE3 {
                if globals_count < 21 || n - pos < 20 {
                    return Err(LoadError::Corrupt);
                }
                let base = i as usize * MOUSE_PROFILE_WORDS;
                let ghost mp0 = self.mouse_profiles@;
                let ghost s0 = *self;
                proof {
                    assert(mp0 =~= mp0.subrange(0, base as int) + data@.subrange(pos as int, pos as int)
                        + mp0.subrange(base as int, mp0.len() as int));
                }
                let mut j: usize = 0;
                while j < MOUSE_PROFILE_WORDS
                    invariant
                        self.wf(),
                        j <= MOUSE_PROFILE_WORDS,
                        base + MOUSE_PROFILE_WORDS <= 3 * MOUSE_PROFILE_WORDS,
                        pos + MOUSE_PROFILE_WORDS <= n,
                        n == data@.len(),
                        mp0.len() == 3 * MOUSE_PROFILE_WORDS,
                        self.mouse_profiles@ == mp0.subrange(0, base as int) + data@.subrange(pos as int, pos + j)
                            + mp0.subrange(base + j, mp0.len() as int),
                        self.globals == s0.globals,
                        self.mapping == s0.mapping,
                        self.layout_bottom == s0.layout_bottom,
                        self.layout_top == s0.layout_top,
                        self.macro_stack == s0.macro_stack,
                        self.memo_bottom == s0.memo_bottom,
                        self.memo_top == s0.memo_top,
                        self.macro_dir_base == s0.macro_dir_base,
                    decreases MOUSE_PROFILE_WORDS - j,
                {
                    self.mouse_profiles.set(base + j, data[pos + j]);
                    j = j + 1;
                    assert(self.mouse_profiles@ =~= mp0.subrange(0, base as int) + data@.subrange(pos as int, pos + j)
                        + mp0.subrange(base + j, mp0.len() as int));
                }
                pos = pos + MOUSE_PROFILE_WORDS;
                globals_count = globals_count - 21;
            } else if globals::DUAL_ACTION_TIMEOUT <= i && i <= globals::LAST_TIMEOUT {
                if pos >= n {
                    return Err(LoadError::Corrupt);
                }
                globals_count = globals_count - 2;
                let v = data[pos];
                pos = pos + 1;
                self.globals[(i - globals::DUAL_ACTION_TIMEOUT) as usize] = v;
            } else {
                return Err(LoadError::Corrupt);
            }
        }
        Ok(pos)
    }
}

impl<const ROWS: usize, const COLS: usize, const LAYOUT_MAX: usize> Manager<ROWS, COLS, LAYOUT_MAX> {
    /// Loads the layout `data`: a protocol version, the row and column counts, the layer
    /// counts, the macro count, the globals section and its length, then the directory of
    /// layer and macro start indices followed by the layers and macros themselves.
    #[verifier::rlimit(30)]
    pub fn load(&mut self, data: &[u16]) -> (r: Result<(), LoadError>)
        requires
            old(self).wf(),
        ensures
            final(self).wf(),
            r is Ok <==> load_ok(data@, ROWS as int, COLS as int, LAYOUT_MAX as int),
            r == Err::<(), LoadError>(LoadError::VersionMismatch) <==> (data@.len() >= 1
                && data@[0] != PROTOCOL_VERSION),
            r == Err::<(), LoadError>(LoadError::RowColMismatch) <==> (data@.len() >= 2
                && data@[0] == PROTOCOL_VERSION && ((data@[1] >> 8u16) != ROWS || (data@[1]
                & 0xffu16) != COLS)),
            r is Ok ==> {
                let k = load_len(data@);
                &&& final(self).spec_mapping().subrange(0, k) == data@.subrange(
                    data@.len() - k,
                    data@.len() as int,
                )
                &&& final(self).bottom() == k
                &&& final(self).dir_base() == header_layer_count(data@[2])
                &&& final(self).layer_stack() == seq![MAIN_BASE]
                &&& final(self).memos().len() == 0
                &&& final(self).macro_words().len() == 0
                &&& final(self).memo_words_len() == 0
                &&& final(self).top_limit() == LAYOUT_MAX
                &&& final(self).room() == LAYOUT_MAX - k - 1
                &&& (final(self).spec_globals(), final(self).spec_mouse_profiles()) == globals_apply(
                    data@,
                    5,
                    data@[4] as int,
                    old(self).spec_globals(),
                    old(self).spec_mouse_profiles(),
                )
            },
            final(self).spec_mapping().len() == LAYOUT_MAX,
    {
        let n = data.len();
        let hdr = check_header::<ROWS, COLS>(data);
        let (layer_count, macros_count, first_count) = match hdr {
            Ok(h) => h,
            Err(e) => {
                return Err(e);
            },
        };
        let pos = match self.load_globals(data) {
            Ok(p) => p,
            Err(e) => {
                return Err(e);
            },
        };
        if layer_count >= LAYER_MAX - LAYER_MIN || macros_count >= MACROS_MAX - MACROS_MIN {
            return Err(LoadError::Corrupt);
        }
        let layer_start: usize = (layer_count + macros_count) as usize;
        let g = pos;
        let ghost dir = data@.subrange(g as int, n as int);
        self.layout_bottom = 0;
        self.layout_top = 0;
        self.macro_stack = LAYOUT_MAX;
        self.memo_bottom = LAYOUT_MAX;
        self.memo_top = LAYOUT_MAX;
        let ghost m0 = self.mapping@;
        let i = match copy_layout(&mut self.mapping, data, g, layer_start, LAYOUT_MAX) {
            Ok(i) => i,
            Err(e) => {
                proof {
                    lemma_memos_frame(m0, self.mapping@, LAYOUT_MAX as int, LAYOUT_MAX as int);
                }
                return Err(e);
            },
        };
        proof {
            lemma_memos_frame(m0, self.mapping@, LAYOUT_MAX as int, LAYOUT_MAX as int);
        }
        let dir_base: usize = layer_count as usize;
        let comp_start: usize = first_count as usize;
        self.composite_start_index = 0;
        self.macro_dir_base = dir_base;
        self.composite_start_index = comp_start;
        self.layout_bottom = i;
        self.layout_top = i;
        self.clear_all();
        assert(self.spec_mapping().subrange(0, i as int) =~= dir);
        Ok(())
    }
}

} // verus!

verus! {

/// Equal leading words give equal leading parts of a window.
proof fn lemma_prefix(m: Seq<u16>, m1: Seq<u16>, b: int, top1: int, top: int)
    requires
        forall|k: int| 0 <= k < top1 ==> #[trigger] m[k] == m1[k],
        0 <= b <= top1 <= top <= m.len(),
        top1 <= m1.len(),
    ensures
        m.subrange(b, top).subrange(0, top1 - b) == m1.subrange(b, top1),
{
    assert(m.subrange(b, top).subrange(0, top1 - b) =~= m1.subrange(b, top1));
}

/// The number of set bits among the lowest `n` bits of `x`.
pub open spec fn popcount_bits(x: u32, n: nat) -> nat
    decreases n,
{
    if n == 0 {
        0
    } else {
        ((x >> ((n - 1) as u32)) & 1u32) as nat + popcount_bits(x, (n - 1) as nat)
    }
}

/// The number of set bits of `x`.
pub open spec fn popcount(x: u32) -> nat {
    popcount_bits(x, 32)
}

/// The number of set bits of `x`.
pub fn count_ones(x: u32) -> (r: u32)
    ensures
        r == popcount(x),
{
    let mut c: u32 = 0;
    let mut i: u32 = 0;
    while i < 32
        invariant
            i <= 32,
            c == popcount_bits(x, i as nat),
            c <= i,
        decreases 32 - i,
    {
        let b = (x >> i) & 1;
        assert(b <= 1) by (bit_vector)
            requires
                b == (x >> i) & 1u32,
        ;
        c = c + b;
        i = i + 1;
    }
    c
}

/// The stack index of the topmost entry of `s[..top]` that names layer `layer_num`.
pub open spec fn spec_last_index_of(s: Seq<u16>, layer_num: u16, top: int) -> Option<int>
    decreases top,
{
    if top <= 0 {
        None
    } else if s[top - 1] & 0xffu16 == layer_num {
        Some(top - 1)
    } else {
        spec_last_index_of(s, layer_num, top - 1)
    }
}

/// Popping a layer just pushed takes off the entry pushed and leaves the layer stack as it
/// was before the push: that entry is the last one naming the layer.
pub proof fn law_push_then_pop_layer(s: Seq<u16>, n: u16)
    requires
        n <= 0xff,
    ensures
        spec_last_index_of(s.push(n), n, s.len() + 1int) == Some(s.len() as int),
        s.push(n).remove(s.len() as int) == s,
{
    assert(n & 0xffu16 == n) by (bit_vector)
        requires
            n <= 0xff,
    ;
    assert(s.push(n).remove(s.len() as int) =~= s);
}

/// Memos come off the memo queue in the order they went on: a memo pushed onto the queue
/// comes off after all that were there before it.
pub proof fn law_memo_fifo(q: Seq<Seq<u16>>, m: Seq<u16>)
    ensures
        q.len() > 0 ==> q.push(m)[0] == q[0] && q.push(m).drop_first() == q.drop_first().push(m),
        q.len() == 0 ==> q.push(m)[0] == m && q.push(m).drop_first().len() == 0,
{
    if q.len() > 0 {
        assert(q.push(m).drop_first() =~= q.drop_first().push(m));
    }
}

pub proof fn lemma_last_index_of_range(s: Seq<u16>, layer_num: u16, top: int)
    ensures
        spec_last_index_of(s, layer_num, top) matches Some(i) ==> 0 <= i < top && s[i] & 0xffu16
            == layer_num,
    decreases top,
{
    if top > 0 {
        lemma_last_index_of_range(s, layer_num, top - 1);
    }
}

/// The last entry naming a layer below `top` is found alike in two stacks that agree below
/// `top`.
proof fn lemma_last_index_of_prefix(a: Seq<u16>, b: Seq<u16>, layer_num: u16, top: int)
    requires
        top <= a.len(),
        top <= b.len(),
        forall|j: int| 0 <= j < top ==> a[j] == b[j],
    ensures
        spec_last_index_of(a, layer_num, top) == spec_last_index_of(b, layer_num, top),
    decreases top,
{
    if top > 0 {
        lemma_last_index_of_prefix(a, b, layer_num, top - 1);
    }
}

/// Where the layers lie below `bound`, two word arrays that agree below it give the same
/// layer ranges.
proof fn lemma_layer_range_same(m1: Seq<u16>, m2: Seq<u16>, d: int, idx: int, lim: int, bound: int)
    requires
        m1.len() == m2.len(),
        d <= lim < bound <= m1.len(),
        forall|i: int| 0 <= i < d ==> #[trigger] m2[i + 1] <= lim,
        forall|j: int| 0 <= j < bound ==> m1[j] == m2[j],
    ensures
        spec_layer_range(m1, d, idx) == spec_layer_range(m2, d, idx),
        spec_layer_range(m2, d, idx) matches Some((s, e)) ==> e <= lim,
{
    if 0 <= idx < d && idx + 1 < m1.len() {
        assert(m2[idx + 1] <= lim);
        let s = m2[idx] as int;
        let e = m2[idx + 1] as int;
        if 0 <= s <= e && e <= m1.len() {
            assert(m1.subrange(s, e) =~= m2.subrange(s, e));
        }
    }
}

impl<const ROWS: usize, const COLS: usize, const LAYOUT_MAX: usize> Manager<ROWS, COLS, LAYOUT_MAX> {
    /// Whether the entry at `k` is stale is read alike before and after the stack above it
    /// changed, where the layers lie below the stack.
    proof fn lemma_stale_entry_same(cur: Self, orig: Self, k: int, w: u16, was: u32, now: u32)
        requires
            orig.wf(),
            cur.wf(),
            orig.layers_below_stack(),
            cur.macro_dir_base == orig.macro_dir_base,
            cur.composite_start_index == orig.composite_start_index,
            cur.active_comp_part_layers == now,
            orig.bottom() < k < LAYOUT_MAX,
            forall|j: int| 0 <= j <= k ==> cur.mapping@[j] == orig.mapping@[j],
            w == orig.mapping@[k],
        ensures
            ({
                let v = cur.mapping@[k] & 0xffu16;
                &&& v >= cur.composite_start_index
                &&& cur.layer_range(v as int) matches Some((s, e))
                &&& e - s >= 3
                &&& ({
                    let bm = cur.mapping@[s + 1] as u32 | ((cur.mapping@[s + 2] as u32) << 16u32);
                    (bm & was) == bm && (bm & cur.active_comp_part_layers) != bm
                })
            }) == orig.stale_entry(w, was, now),
    {
        let v = (w & 0xffu16) as int;
        lemma_layer_range_same(cur.mapping@, orig.mapping@, orig.macro_dir_base as int, v, orig.bottom(), k + 1);
    }

    /// The stack index, counted from the layout entry, of the topmost entry below
    /// `search_top` that names layer `layer_num`.
    pub fn find_active_layer(&self, layer_num: u16, search_top: usize) -> (r: Option<usize>)
        requires
            self.wf(),
            self.bottom() <= search_top <= LAYOUT_MAX,
        ensures
            match spec_last_index_of(
                self.spec_mapping().subrange(self.bottom(), search_top as int),
                layer_num,
                search_top - self.bottom(),
            ) {
                Some(i) => r == Some(i as usize),
                None => r is None,
            },
    {
        let ghost s = self.mapping@.subrange(self.layout_bottom as int, search_top as int);
        let mut k = search_top;
        while k > self.layout_bottom
            invariant
                self.wf(),
                self.layout_bottom <= k <= search_top <= LAYOUT_MAX,
                s == self.mapping@.subrange(self.layout_bottom as int, search_top as int),
                spec_last_index_of(s, layer_num, search_top - self.layout_bottom)
                    == spec_last_index_of(s, layer_num, k - self.layout_bottom),
            decreases k,
        {
            if self.mapping[k - 1] & 0xff == layer_num {
                assert(s[k - 1 - self.layout_bottom] == self.mapping@[k - 1]);
                return Some(k - 1 - self.layout_bottom);
            }
            assert(s[k - 1 - self.layout_bottom] == self.mapping@[k - 1]);
            k = k - 1;
        }
        None
    }

    /// The bitmap of the composite layer that directory entry `i` points at; 0 where the
    /// entry points at no composite layer header.
    fn composite_bitmap_at(&self, i: usize) -> (r: u32)
        requires
            self.wf(),
            i < LAYOUT_MAX,
        ensures
            self.mapping@[i as int] + 3 <= LAYOUT_MAX ==> r == ({
                let s = self.mapping@[i as int] as int;
                self.mapping@[s + 1] as u32 | ((self.mapping@[s + 2] as u32) << 16u32)
            }),
            self.mapping@[i as int] + 3 > LAYOUT_MAX ==> r == 0,
    {
        let s = self.mapping[i] as usize;
        if s + 3 > LAYOUT_MAX {
            return 0;
        }
        let l = Layer::<'_, ROWS, COLS>(vstd::slice::slice_subrange(self.mapping.as_slice(), s, LAYOUT_MAX));
        l.composite_bitmap()
    }

    /// Pushes layer `layer_num` onto the layer stack. When it is part of composite layers,
    /// the composite layers whose parts have all become active are pushed after it. Fails
    /// when the layer does not exist or the stack has no room.
    pub fn push_layer(&mut self, layer_num: u16) -> (r: bool)
        requires
            old(self).wf(),
        ensures
            final(self).wf(),
            final(self).memos() == old(self).memos(),
            final(self).macro_words() == old(self).macro_words(),
            final(self).bottom() == old(self).bottom(),
            final(self).top_limit() == old(self).top_limit(),
            final(self).dir_base() == old(self).dir_base(),
            final(self).spec_globals() == old(self).spec_globals(),
            final(self).spec_mouse_profiles() == old(self).spec_mouse_profiles(),
            forall|i: int| 0 <= i < old(self).bottom() + old(self).layer_stack().len()
                ==> final(self).spec_mapping()[i] == old(self).spec_mapping()[i],
            !(old(self).free_words() > 1 && old(self).layer_range((layer_num & 0xffu16) as int)
                is Some) ==> !r && final(self).layer_stack() == old(self).layer_stack(),
            old(self).free_words() > 1 && old(self).layer_range((layer_num & 0xffu16) as int)
                is Some ==> final(self).layer_stack().len() > old(self).layer_stack().len()
                && final(self).layer_stack().subrange(0, old(self).layer_stack().len() + 1int)
                == old(self).layer_stack().push(layer_num),
            old(self).free_words() > 1 && old(self).layer_range((layer_num & 0xffu16) as int)
                is Some && old(self).layer_words((layer_num & 0xffu16) as int)[0]
                & COMPOSITE_PART_BIT == 0 ==> r && final(self).layer_stack() == old(
                self,
            ).layer_stack().push(layer_num),
    {
        if self.layout_top + 1 >= self.macro_stack {
            return false;
        }
        let is_composite_part = match self.get_layer(layer_num & 0xff) {
            Some(l) => l.is_composite_part(),
            None => {
                return false;
            },
        };
        let ghost m0 = self.mapping@;
        let t = self.layout_top;
        self.mapping.set(t, layer_num);
        self.layout_top = t + 1;
        proof {
            lemma_memos_frame(m0, self.mapping@, self.memo_bottom as int, self.memo_top as int);
            assert(self.layer_stack() =~= m0.subrange(self.layout_bottom as int, t as int).push(
                layer_num,
            ));
            assert(self.macro_words() =~= m0.subrange(self.macro_stack as int, self.memo_bottom as int));
        }
        if is_composite_part && layer_num < 32 {
            let bit: u32 = 1u32 << layer_num;
            if self.active_comp_part_layers & bit == 0 {
                let old_bits = self.active_comp_part_layers;
                self.active_comp_part_layers = self.active_comp_part_layers | bit;
                if self.active_comp_count < u32::MAX {
                    self.active_comp_count = self.active_comp_count + 1;
                }
                if self.active_comp_count > 1 {
                    let ghost m1 = self.mapping@;
                    let ghost top1 = self.layout_top;
                    assert(m1.subrange(old(self).layout_bottom as int, top1 as int) =~= old(self).layer_stack().push(layer_num));
                    let mut i = self.composite_start_index;
                    let end = self.macro_dir_base;
                    while i < end
                        invariant
                            self.wf(),
                            end == self.macro_dir_base,
                            self.composite_start_index <= i <= end,
                            self.layout_top >= top1,
                            self.layout_bottom == old(self).layout_bottom,
                            self.macro_stack == old(self).macro_stack,
                            self.memo_bottom == old(self).memo_bottom,
                            self.memo_top == old(self).memo_top,
                            self.globals == old(self).globals,
                            self.mouse_profiles == old(self).mouse_profiles,
                            forall|k: int| 0 <= k < top1 ==> self.mapping@[k] == m1[k],
                            self.macro_dir_base == old(self).macro_dir_base,
                            m1.len() == LAYOUT_MAX,
                            top1 <= self.macro_stack,
                            self.memos() == spec_memos(m1, self.memo_bottom as int, self.memo_top as int),
                            self.macro_words() == m1.subrange(self.macro_stack as int, self.memo_bottom as int),
                            spec_memos(m1, self.memo_bottom as int, self.memo_top as int) == old(self).memos(),
                            m1.subrange(self.macro_stack as int, self.memo_bottom as int) == old(self).macro_words(),
                            top1 == old(self).layout_top + 1,
                            old(self).layout_bottom <= old(self).layout_top,
                            old(self).mapping@.len() == LAYOUT_MAX,
                            old(self).layout_top <= old(self).macro_stack,
                            old(self).free_words() > 1,
                            old(self).layer_range((layer_num & 0xffu16) as int) is Some,
                            old(self).layer_words((layer_num & 0xffu16) as int)[0] & COMPOSITE_PART_BIT != 0,
                            old(self).layout_top < top1,
                            m1.subrange(old(self).layout_bottom as int, top1 as int) == old(self).layer_stack().push(layer_num),
                            forall|k: int| 0 <= k < old(self).layout_top ==> m1[k] == old(self).mapping@[k],
                        decreases end - i,
                    {
                        if i >= LAYOUT_MAX {
                            break;
                        }
                        let bm = self.composite_bitmap_at(i);
                        if bm & self.active_comp_part_layers == bm && bm & old_bits != bm {
                            if self.layout_top + 1 >= self.macro_stack {
                                proof {
                                    assert forall|k: int| 0 <= k < old(self).layout_top implies #[trigger] self.mapping@[k] == old(self).mapping@[k] by {
                            assert(self.mapping@[k] == m1[k]);
                        }
                        lemma_prefix(self.mapping@, m1, self.layout_bottom as int, top1 as int, self.layout_top as int);
                                }
                                return false;
                            }
                            let ghost m2 = self.mapping@;
                            let t2 = self.layout_top;
                            self.mapping.set(t2, i as u16);
                            self.layout_top = t2 + 1;
                            proof {
                                lemma_memos_frame(m2, self.mapping@, self.memo_bottom as int, self.memo_top as int);
                                assert(self.macro_words() =~= m2.subrange(self.macro_stack as int, self.memo_bottom as int));
                                assert forall|k: int| 0 <= k < old(self).layout_top implies #[trigger] self.mapping@[k] == old(self).mapping@[k] by {
                            assert(self.mapping@[k] == m1[k]);
                        }
                        lemma_prefix(self.mapping@, m1, self.layout_bottom as int, top1 as int, self.layout_top as int);
                            }
                        }
                        if count_ones(bm) > self.active_comp_count {
                            break;
                        }
                        i = i + 1;
                    }
                    proof {
                        assert forall|k: int| 0 <= k < old(self).layout_top implies #[trigger] self.mapping@[k] == old(self).mapping@[k] by {
                            assert(self.mapping@[k] == m1[k]);
                        }
                        lemma_prefix(self.mapping@, m1, self.layout_bottom as int, top1 as int, self.layout_top as int);
                    }
                }
            }
        }
        true
    }

    /// Pushes layer `layer_num`, with its modifiers taken as the right-hand ones.
    pub fn push_right_mod_layer(&mut self, layer_num: u16) -> (r: bool)
        requires
            old(self).wf(),
        ensures
            final(self).wf(),
            final(self).memos() == old(self).memos(),
            final(self).macro_words() == old(self).macro_words(),
            final(self).bottom() == old(self).bottom(),
            final(self).top_limit() == old(self).top_limit(),
            final(self).dir_base() == old(self).dir_base(),
            !(old(self).free_words() > 1 && old(self).layer_range((layer_num & 0xffu16) as int)
                is Some) ==> !r && final(self).layer_stack() == old(self).layer_stack(),
            old(self).free_words() > 1 && old(self).layer_range((layer_num & 0xffu16) as int)
                is Some ==> final(self).layer_stack().subrange(0, old(self).layer_stack().len() + 1int)
                == old(self).layer_stack().push(layer_num | RIGHT_MOD),
    {
        assert((layer_num | RIGHT_MOD) & 0xffu16 == layer_num & 0xffu16) by (bit_vector);
        self.push_layer(layer_num | RIGHT_MOD)
    }
}

} // verus!

verus! {

/// Removes the word at `p` from the window `m[..top]`, moving the words above it down.
fn remove_at(m: &mut Vec<u16>, p: usize, top: usize)
    requires
        p < top <= old(m)@.len(),
    ensures
        final(m)@.len() == old(m)@.len(),
        forall|k: int| 0 <= k < p ==> final(m)@[k] == old(m)@[k],
        forall|k: int| p <= k < top - 1 ==> final(m)@[k] == old(m)@[k + 1],
        forall|k: int| top <= k < old(m)@.len() ==> final(m)@[k] == old(m)@[k],
{
    let mut k = p;
    while k + 1 < top
        invariant
            p <= k < top,
            top <= old(m)@.len(),
            m@.len() == old(m)@.len(),
            forall|j: int| 0 <= j < p ==> m@[j] == old(m)@[j],
            forall|j: int| p <= j < k ==> m@[j] == old(m)@[j + 1],
            forall|j: int| k <= j < old(m)@.len() ==> m@[j] == old(m)@[j],
        decreases top - k,
    {
        let v = m[k + 1];
        m.set(k, v);
        k = k + 1;
    }
}

/// Removing a word from inside a window keeps a chain of memos that lies above it.
proof fn lemma_remove_keeps(m0: Seq<u16>, m1: Seq<u16>, b: int, t: int, top: int)
    requires
        memos_wf(m0, b, t),
        0 <= top <= b <= t <= m0.len(),
        m1.len() == m0.len(),
        forall|k: int| top <= k < m0.len() ==> m1[k] == m0[k],
    ensures
        memos_wf(m1, b, t),
        spec_memos(m1, b, t) == spec_memos(m0, b, t),
{
    lemma_memos_frame(m0, m1, b, t);
}

impl<const ROWS: usize, const COLS: usize, const LAYOUT_MAX: usize> Manager<ROWS, COLS, LAYOUT_MAX> {
    /// Removes the entry at stack position `pos` from the layer stack.
    fn remove_stack_entry(&mut self, pos: usize)
        requires
            old(self).wf(),
            pos < old(self).layout_top - old(self).layout_bottom,
        ensures
            final(self).wf(),
            final(self).layer_stack() == old(self).layer_stack().remove(pos as int),
            final(self).memos() == old(self).memos(),
            final(self).macro_words() == old(self).macro_words(),
            final(self).layout_bottom == old(self).layout_bottom,
            final(self).layout_top == old(self).layout_top - 1,
            final(self).macro_stack == old(self).macro_stack,
            final(self).memo_bottom == old(self).memo_bottom,
            final(self).memo_top == old(self).memo_top,
            final(self).macro_dir_base == old(self).macro_dir_base,
            final(self).composite_start_index == old(self).composite_start_index,
            final(self).globals == old(self).globals,
            final(self).mouse_profiles == old(self).mouse_profiles,
            final(self).active_comp_count == old(self).active_comp_count,
            final(self).active_comp_part_layers == old(self).active_comp_part_layers,
            forall|k: int| 0 <= k < old(self).layout_bottom + pos ==> final(self).mapping@[k]
                == old(self).mapping@[k],
    {
        let ghost m0 = self.mapping@;
        let b = self.layout_bottom;
        let t = self.layout_top;
        remove_at(&mut self.mapping, b + pos, t);
        self.layout_top = t - 1;
        proof {
            lemma_remove_keeps(m0, self.mapping@, self.memo_bottom as int, self.memo_top as int, t as int);
            assert(self.layer_stack() =~= m0.subrange(b as int, t as int).remove(pos as int));
            assert(self.macro_words() =~= m0.subrange(self.macro_stack as int, self.memo_bottom as int));
        }
    }

    /// Whether the stack entry at `at` names a composite layer made of layers that were all
    /// active in `old_bits` but are not all active now.
    fn is_stale_composite(&self, at: usize, old_bits: u32) -> (r: bool)
        requires
            self.wf(),
            at < LAYOUT_MAX,
        ensures
            r == ({
                let v = self.mapping@[at as int] & 0xffu16;
                &&& v >= self.composite_start_index
                &&& self.layer_range(v as int) matches Some((s, e))
                &&& e - s >= 3
                &&& ({
                    let bm = self.mapping@[s + 1] as u32 | ((self.mapping@[s + 2] as u32) << 16u32);
                    (bm & old_bits) == bm && (bm & self.active_comp_part_layers) != bm
                })
            }),
    {
        let v = self.mapping[at] & 0xff;
        if (v as usize) < self.composite_start_index {
            return false;
        }
        match self.get_layer(v) {
            Some(l) => {
                if l.0.len() < 3 {
                    return false;
                }
                let bm = l.composite_bitmap();
                bm & old_bits == bm && bm & self.active_comp_part_layers != bm
            },
            None => false,
        }
    }

    /// Removes the topmost entry naming layer `layer_num` from the layer stack. When that
    /// was the last active entry of a part of composite layers, the composite layers above
    /// it that are no longer complete are removed too. Fails when no entry names the layer
    /// or the layer does not exist.
    pub fn pop_layer(&mut self, layer_num: u16) -> (r: bool)
        requires
            old(self).wf(),
        ensures
            final(self).wf(),
            final(self).memos() == old(self).memos(),
            final(self).macro_words() == old(self).macro_words(),
            final(self).bottom() == old(self).bottom(),
            final(self).top_limit() == old(self).top_limit(),
            final(self).dir_base() == old(self).dir_base(),
            final(self).spec_globals() == old(self).spec_globals(),
            final(self).spec_mouse_profiles() == old(self).spec_mouse_profiles(),
            !r ==> *final(self) == *old(self),
            ({
                let s = old(self).layer_stack();
                let found = spec_last_index_of(s, layer_num, s.len() as int);
                &&& (found is None || old(self).layer_range(layer_num as int) is None) ==> !r
                    && final(self).layer_stack() == s
                &&& (found is Some && old(self).layer_range(layer_num as int) is Some) ==> r
                    && final(self).layer_stack().len() < s.len()
                    && final(self).layer_stack().subrange(0, found->0) == s.subrange(0, found->0)
                &&& (found is Some && old(self).layer_range(layer_num as int) is Some
                    && old(self).layer_words(layer_num as int)[0] & COMPOSITE_PART_BIT == 0)
                    ==> final(self).layer_stack() == s.remove(found->0)
            }),
            ({
                let s = old(self).layer_stack();
                let found = spec_last_index_of(s, layer_num, s.len() as int);
                let was = old(self).active_comp_part_layers;
                let now = was & !(1u32 << layer_num as u32);
                let parts_left = layer_num < 32 && was & (1u32 << layer_num as u32) != 0
                    && spec_last_index_of(s, layer_num, found->0) is None && old(self).active_comp_count > 1;
                &&& (found is Some && old(self).layer_range(layer_num as int) is Some
                    && old(self).layer_words(layer_num as int)[0] & COMPOSITE_PART_BIT != 0 && !parts_left)
                    ==> final(self).layer_stack() == s.remove(found->0)
                &&& (found is Some && old(self).layer_range(layer_num as int) is Some
                    && old(self).layer_words(layer_num as int)[0] & COMPOSITE_PART_BIT != 0 && parts_left
                    && old(self).layers_below_stack()) ==> final(self).layer_stack() == s.subrange(0, found->0)
                    + old(self).fresh_entries(s.subrange(found->0 + 1, s.len() as int), was, now)
            }),
    {
        let ghost s = self.layer_stack();
        proof {
            lemma_last_index_of_range(s, layer_num, s.len() as int);
        }
        let stack_pos = match self.find_active_layer(layer_num, self.layout_top) {
            Some(p) => p,
            None => {
                return false;
            },
        };
        let ghost mut swept = false;
        let is_part = match self.get_layer(layer_num) {
            Some(l) => l.is_composite_part(),
            None => {
                return false;
            },
        };
        if is_part && layer_num < 32 {
            let bit: u32 = 1u32 << layer_num;
            let below = self.find_active_layer(layer_num, self.layout_bottom + stack_pos);
            proof {
                lemma_last_index_of_prefix(
                    self.mapping@.subrange(self.layout_bottom as int, self.layout_bottom + stack_pos),
                    s,
                    layer_num,
                    stack_pos as int,
                );
            }
            if self.active_comp_part_layers & bit != 0 && below.is_none() {
                let old_bits = self.active_comp_part_layers;
                self.active_comp_part_layers = self.active_comp_part_layers & !bit;
                if self.active_comp_count > 0 {
                    self.active_comp_count = self.active_comp_count - 1;
                }
                if self.active_comp_count > 0 {
                    let search_bottom = self.layout_bottom + stack_pos + 1;
                    let mut k = self.layout_top;
                    let ghost now = old_bits & !bit;
                    let ghost n = s.len() as int;
                    let ghost b = self.layout_bottom as int;
                    proof {
                        assert(self.layer_stack() =~= s.subrange(0, k - b) + old(self).fresh_entries(
                            s.subrange(k - b, n), old_bits, now));
                    }
                    while k > search_bottom
                        invariant
                            self.active_comp_part_layers == now,
                            self.composite_start_index == old(self).composite_start_index,
                            b == self.layout_bottom,
                            n == old(self).layout_top - b,
                            s == old(self).layer_stack(),
                            forall|j: int| 0 <= j < k ==> self.mapping@[j] == old(self).mapping@[j],
                            old(self).layers_below_stack() ==> self.layer_stack() == s.subrange(0, k - b)
                                + old(self).fresh_entries(s.subrange(k - b, n), old_bits, now),
                            self.wf(),
                            search_bottom <= k <= self.layout_top,
                            search_bottom == self.layout_bottom + stack_pos + 1,
                            self.layout_top <= old(self).layout_top,
                            self.layout_bottom == old(self).layout_bottom,
                            self.macro_stack == old(self).macro_stack,
                            self.memo_bottom == old(self).memo_bottom,
                            self.memo_top == old(self).memo_top,
                            self.macro_dir_base == old(self).macro_dir_base,
                            self.globals == old(self).globals,
                            self.mouse_profiles == old(self).mouse_profiles,
                            self.memos() == old(self).memos(),
                            self.macro_words() == old(self).macro_words(),
                            old(self).wf(),
                            stack_pos < old(self).layout_top - old(self).layout_bottom,
                            forall|j: int| 0 <= j < search_bottom ==> self.mapping@[j]
                                == old(self).mapping@[j],
                        decreases k,
                    {
                        k = k - 1;
                        let ghost w = s[k - b];
                        proof {
                            assert(self.mapping@[k as int] == old(self).mapping@[k as int]);
                            assert(s.subrange(k - b, n).drop_first() =~= s.subrange(k + 1 - b, n));
                            assert(s.subrange(k - b, n)[0] == w);
                            if old(self).layers_below_stack() {
                                Self::lemma_stale_entry_same(*self, *old(self), k as int, w, old_bits, now);
                            }
                        }
                        if self.is_stale_composite(k, old_bits) {
                            self.remove_stack_entry(k - self.layout_bottom);
                            proof {
                                if old(self).layers_below_stack() {
                                    assert(self.layer_stack() =~= s.subrange(0, k - b) + old(self).fresh_entries(
                                        s.subrange(k - b, n), old_bits, now));
                                }
                            }
                        } else {
                            proof {
                                if old(self).layers_below_stack() {
                                    assert(self.layer_stack() =~= s.subrange(0, k - b) + old(self).fresh_entries(
                                        s.subrange(k - b, n), old_bits, now));
                                }
                            }
                        }
                    }
                    proof {
                        swept = true;
                    }
                }
            }
        }
        let ghost mid = self.layer_stack();
        proof {
            assert(mid.subrange(0, stack_pos as int) =~= s.subrange(0, stack_pos as int));
        }
        self.remove_stack_entry(stack_pos);
        proof {
            assert(self.layer_stack().subrange(0, stack_pos as int) =~= s.subrange(0, stack_pos as int));
            if !swept {
                assert(mid == s);
            } else if old(self).layers_below_stack() {
                assert(self.layer_stack() =~= s.subrange(0, stack_pos as int) + old(self).fresh_entries(
                    s.subrange(stack_pos + 1, s.len() as int),
                    old(self).active_comp_part_layers,
                    old(self).active_comp_part_layers & !(1u32 << layer_num as u32),
                ));
            }
        }
        true
    }
}

} // verus!
