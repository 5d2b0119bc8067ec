//! The layers and macros a config defines, and their binary form in a layout.
use vstd::prelude::*;
use crate::globals::{COMPOSITE_BIT, COMPOSITE_PART_BIT};
use crate::macro_types;

verus! {

/// Whether the key positions of `codes` rise strictly.
pub open spec fn sorted_keys(codes: Seq<(u16, u16)>) -> bool {
    forall|i: int, j: int| 0 <= i < j < codes.len() ==> #[trigger] codes[i].0 < #[trigger] codes[j].0
}

/// The code at key position `pos` in `codes`; 0 for none.
pub open spec fn spec_code_at(codes: Seq<(u16, u16)>, pos: u16) -> u16 {
    if exists|i: int| 0 <= i < codes.len() && codes[i].0 == pos {
        codes[choose|i: int| 0 <= i < codes.len() && codes[i].0 == pos].1
    } else {
        0
    }
}

/// A layer of a config: the codes it gives key positions (row in the high byte, column in
/// the low byte), its directory index, its modifier suffix, and whether it is part of a
/// composite layer.
#[derive(Debug)]
pub struct ConfigLayer {
    pub codes: Vec<(u16, u16)>,
    pub index: u16,
    pub suffix: u8,
    pub composite_part: bool,
}

/// The header word of a layer with `suffix` in a composite layer `composite`, or a part of
/// one.
pub open spec fn layer_mode(suffix: u8, composite_part: bool, composite: u32) -> u16 {
    (suffix as u16 | if composite_part {
        COMPOSITE_PART_BIT
    } else if composite != 0 {
        COMPOSITE_BIT
    } else {
        0u16
    }) as u16
}

/// The binary form of a layer: its header word, the composite bits where it is one, and
/// then either every key's code row by row or the position and code of each key it gives
/// one, whichever is the denser.
pub open spec fn spec_layer_binary(l: ConfigLayer, rows: int, cols: int, composite: u32) -> Seq<u16> {
    let head = seq![layer_mode(l.suffix, l.composite_part, composite)] + if composite != 0 {
        seq![(composite & 0xffff) as u16, (composite >> 16) as u16]
    } else {
        Seq::empty()
    };
    if l.codes@.len() * 3 > rows * cols {
        head + Seq::new(
            (rows * cols) as nat,
            |i: int| spec_code_at(l.codes@, ((i / cols) * 256 + i % cols) as u16),
        )
    } else {
        head + Seq::new(
            (2 * l.codes@.len()) as nat,
            |i: int|
                if i % 2 == 0 {
                    l.codes@[i / 2].0
                } else {
                    l.codes@[i / 2].1
                },
        )
    }
}

impl ConfigLayer {
    pub open spec fn wf(&self) -> bool {
        sorted_keys(self.codes@)
    }

    pub fn new(index: u16, suffix: u8) -> (r: Self)
        ensures
            r.wf(),
            r.codes@.len() == 0,
            r.index == index,
            r.suffix == suffix,
            !r.composite_part,
    {
        ConfigLayer { codes: Vec::new(), index, suffix, composite_part: false }
    }

    /// The code the layer gives key position `pos`; 0 for none.
    pub fn code_at(&self, pos: u16) -> (r: u16)
        requires
            self.wf(),
        ensures
            r == spec_code_at(self.codes@, pos),
    {
        let mut i: usize = 0;
        while i < self.codes.len()
            invariant
                i <= self.codes@.len(),
                sorted_keys(self.codes@),
                forall|k: int| 0 <= k < i ==> self.codes@[k].0 != pos,
            decreases self.codes@.len() - i,
        {
            if self.codes[i].0 == pos {
                proof {
                    lemma_code_at_unique(self.codes@, pos, i as int);
                }
                return self.codes[i].1;
            }
            i = i + 1;
        }
        0
    }

    /// Gives key position `pos` the code `code`.
    pub fn set_code(&mut self, pos: u16, code: u16)
        requires
            old(self).wf(),
        ensures
            final(self).wf(),
            spec_code_at(final(self).codes@, pos) == code,
            forall|p: u16| p != pos ==> spec_code_at(final(self).codes@, p) == spec_code_at(
                old(self).codes@,
                p,
            ),
            final(self).index == old(self).index,
            final(self).suffix == old(self).suffix,
            final(self).composite_part == old(self).composite_part,
    {
        let n = self.codes.len();
        let mut i: usize = 0;
        while i < n && self.codes[i].0 < pos
            invariant
                n == self.codes@.len(),
                i <= n,
                sorted_keys(self.codes@),
                forall|k: int| 0 <= k < i ==> self.codes@[k].0 < pos,
            decreases n - i,
        {
            i = i + 1;
        }
        let ghost c0 = self.codes@;
        if i < n && self.codes[i].0 == pos {
            self.codes.set(i, (pos, code));
            proof {
                let c1 = self.codes@;
                assert(sorted_keys(c1)) by {
                    assert forall|a: int, b: int| 0 <= a < b < c1.len() implies #[trigger] c1[a].0
                        < #[trigger] c1[b].0 by {
                        assert(c0[a].0 < c0[b].0);
                    }
                }
                assert(exists|j: int| 0 <= j < c1.len() && c1[j].0 == pos) by {
                    assert(c1[i as int].0 == pos);
                }
                lemma_code_at_unique(c1, pos, i as int);
                assert forall|p: u16| p != pos implies spec_code_at(c1, p) == spec_code_at(c0, p) by {
                    lemma_code_at_same(c0, c1, p, i as int);
                }
            }
        } else {
            self.codes.insert(i, (pos, code));
            proof {
                let c1 = self.codes@;
                assert(c1 == c0.insert(i as int, (pos, code)));
                assert(sorted_keys(c1)) by {
                    assert forall|a: int, b: int| 0 <= a < b < c1.len() implies #[trigger] c1[a].0
                        < #[trigger] c1[b].0 by {
                        if b < i {
                            assert(c0[a].0 < c0[b].0);
                        } else if b == i {
                            assert(c0[a].0 < pos);
                        } else if a < i {
                            assert(c0[a].0 < pos);
                            assert(c0[b - 1].0 >= pos);
                        } else if a == i {
                            assert(c0[b - 1].0 >= pos);
                            assert(c0[b - 1].0 != pos || i >= n || c0[i as int].0 != pos);
                            if i < n {
                                assert(c0[i as int].0 > pos);
                                if b - 1 > i {
                                    assert(c0[i as int].0 < c0[b - 1].0);
                                }
                            }
                        } else {
                            assert(c0[a - 1].0 < c0[b - 1].0);
                        }
                    }
                }
                assert(c1[i as int].0 == pos);
                lemma_code_at_unique(c1, pos, i as int);
                assert forall|p: u16| p != pos implies spec_code_at(c1, p) == spec_code_at(c0, p) by {
                    lemma_code_at_insert(c0, c1, p, pos, code, i as int);
                }
            }
        }
    }
}

/// In keys that rise strictly, the entry at `i` is the one for its key.
pub proof fn lemma_code_at_unique(c: Seq<(u16, u16)>, pos: u16, i: int)
    requires
        sorted_keys(c),
        0 <= i < c.len(),
        c[i].0 == pos,
    ensures
        spec_code_at(c, pos) == c[i].1,
{
    let j = choose|j: int| 0 <= j < c.len() && c[j].0 == pos;
    if j < i {
        assert(c[j].0 < c[i].0);
    } else if j > i {
        assert(c[i].0 < c[j].0);
    }
}

proof fn lemma_code_at_same(c0: Seq<(u16, u16)>, c1: Seq<(u16, u16)>, p: u16, i: int)
    requires
        sorted_keys(c0),
        sorted_keys(c1),
        c0.len() == c1.len(),
        0 <= i < c0.len(),
        c1[i].0 == c0[i].0,
        c0[i].0 != p,
        forall|k: int| 0 <= k < c0.len() && k != i ==> c1[k] == c0[k],
    ensures
        spec_code_at(c1, p) == spec_code_at(c0, p),
{
    if exists|j: int| 0 <= j < c0.len() && c0[j].0 == p {
        let j = choose|j: int| 0 <= j < c0.len() && c0[j].0 == p;
        lemma_code_at_unique(c0, p, j);
        lemma_code_at_unique(c1, p, j);
    } else {
        assert forall|j: int| 0 <= j < c1.len() implies c1[j].0 != p by {
            if j != i {
                assert(c1[j] == c0[j]);
            }
        }
    }
}

proof fn lemma_code_at_insert(
    c0: Seq<(u16, u16)>,
    c1: Seq<(u16, u16)>,
    p: u16,
    pos: u16,
    code: u16,
    i: int,
)
    requires
        sorted_keys(c0),
        sorted_keys(c1),
        0 <= i <= c0.len(),
        c1 == c0.insert(i, (pos, code)),
        p != pos,
    ensures
        spec_code_at(c1, p) == spec_code_at(c0, p),
{
    if exists|j: int| 0 <= j < c0.len() && c0[j].0 == p {
        let j = choose|j: int| 0 <= j < c0.len() && c0[j].0 == p;
        lemma_code_at_unique(c0, p, j);
        if j < i {
            lemma_code_at_unique(c1, p, j);
        } else {
            assert(c1[j + 1] == c0[j]);
            lemma_code_at_unique(c1, p, j + 1);
        }
    } else {
        assert forall|j: int| 0 <= j < c1.len() implies c1[j].0 != p by {
            if j < i {
                assert(c1[j] == c0[j]);
            } else if j > i {
                assert(c1[j] == c0[j - 1]);
            }
        }
    }
}

/// The key position of entry `i` of a row-by-row array with `cols` columns.
pub open spec fn pos_of(i: int, cols: int) -> u16 {
    ((i / cols) * 256 + i % cols) as u16
}

proof fn lemma_pos_of(i: int, rows: int, cols: int, k: u16)
    requires
        0 < cols <= 255,
        0 <= rows <= 255,
        0 <= i < rows * cols,
    ensures
        pos_of(i, cols) == k <==> (k / 256 < rows && k % 256 < cols && i == (k / 256) * cols + k
            % 256),
{
    let r = i / cols;
    let c = i % cols;
    assert(i == r * cols + c && 0 <= c < cols) by (nonlinear_arith)
        requires
            0 < cols,
            r == i / cols,
            c == i % cols,
    ;
    assert(r < rows) by (nonlinear_arith)
        requires
            i == r * cols + c,
            0 <= c,
            i < rows * cols,
            0 < cols,
    ;
    assert(0 <= r * 256 + c < 0x10000) by (nonlinear_arith)
        requires
            0 <= r < rows <= 255,
            0 <= c < cols <= 255,
    ;
    assert(pos_of(i, cols) as int == r * 256 + c);
    if k / 256 < rows && k % 256 < cols && i == (k / 256) * cols + k % 256 {
        let kr = k / 256;
        let kc = k % 256;
        assert(r == kr && c == kc) by (nonlinear_arith)
            requires
                i == r * cols + c,
                i == kr * cols + kc,
                0 <= c < cols,
                0 <= kc < cols,
        ;
    }
}

/// Appending an entry to keys that still rise strictly changes only the code of its key.
pub proof fn lemma_code_at_push(c: Seq<(u16, u16)>, e: (u16, u16), p: u16)
    requires
        sorted_keys(c.push(e)),
    ensures
        e.0 == p ==> spec_code_at(c.push(e), p) == e.1,
        e.0 != p ==> spec_code_at(c.push(e), p) == spec_code_at(c, p),
{
    let c1 = c.push(e);
    if e.0 == p {
        lemma_code_at_unique(c1, p, c.len() as int);
    } else {
        assert(sorted_keys(c)) by {
            assert forall|a: int, b: int| 0 <= a < b < c.len() implies #[trigger] c[a].0
                < #[trigger] c[b].0 by {
                assert(c1[a] == c[a] && c1[b] == c[b]);
            }
        }
        if exists|j: int| 0 <= j < c.len() && c[j].0 == p {
            let j = choose|j: int| 0 <= j < c.len() && c[j].0 == p;
            lemma_code_at_unique(c, p, j);
            assert(c1[j] == c[j]);
            lemma_code_at_unique(c1, p, j);
        } else {
            assert forall|j: int| 0 <= j < c1.len() implies c1[j].0 != p by {
                if j < c.len() {
                    assert(c1[j] == c[j]);
                }
            }
        }
    }
}

impl ConfigLayer {
    /// The binary form of the layer in a matrix of `rows` by `cols` keys, as part of the
    /// composite layer `composite` where that is not 0.
    pub fn serialize(&self, rows: usize, cols: usize, composite: u32) -> (r: Vec<u16>)
        requires
            self.wf(),
            rows <= 255,
            cols <= 255,
        ensures
            r@ == spec_layer_binary(*self, rows as int, cols as int, composite),
    {
        let mode: u16 = if self.composite_part {
            COMPOSITE_PART_BIT
        } else if composite != 0 {
            COMPOSITE_BIT
        } else {
            0
        };
        let mut bin: Vec<u16> = Vec::new();
        bin.push(self.suffix as u16 | mode);
        if composite != 0 {
            bin.push((composite & 0xffff) as u16);
            bin.push((composite >> 16) as u16);
        }
        let ghost head = bin@;
        assert(head =~= seq![layer_mode(self.suffix, self.composite_part, composite)] + if composite
            != 0 {
            seq![(composite & 0xffff) as u16, (composite >> 16) as u16]
        } else {
            Seq::<u16>::empty()
        });
        let start = bin.len();
        assert(start <= 3);
        let n = self.codes.len();
        proof {
            assert(rows * cols <= 255 * 255) by (nonlinear_arith)
                requires
                    rows <= 255,
                    cols <= 255,
            ;
        }
        let size = rows * cols;
        if n > size / 3 {
            assert(n * 3 > size);
            let mut i: usize = 0;
            while i < size
                invariant
                    i <= size,
                    bin@.len() == start + i,
                    bin@.subrange(0, start as int) == head,
                    forall|k: int| start <= k < start + i ==> bin@[k] == 0,
                decreases size - i,
            {
                bin.push(0);
                i = i + 1;
            }
            let mut j: usize = 0;
            while j < n
                invariant
                    self.wf(),
                    n == self.codes@.len(),
                    size == rows * cols,
                    rows <= 255,
                    cols <= 255,
                    j <= n,
                    start <= 3,
                    size <= 255 * 255,
                    bin@.len() == start + size,
                    bin@.subrange(0, start as int) == head,
                    forall|x: int| 0 <= x < size ==> #[trigger] bin@[start + x] == spec_code_at(
                        self.codes@.subrange(0, j as int),
                        pos_of(x, cols as int),
                    ),
                decreases n - j,
            {
                let (k, v) = self.codes[j];
                let row = (k >> 8) as usize;
                let col = (k & 0xff) as usize;
                assert(k >> 8u16 == k / 256 && k & 0xffu16 == k % 256) by (bit_vector);
                let ghost pre = self.codes@.subrange(0, j as int);
                let ghost post = self.codes@.subrange(0, j + 1);
                assert(post =~= pre.push((k, v)));
                assert(sorted_keys(post)) by {
                    assert forall|a: int, b: int| 0 <= a < b < post.len() implies #[trigger] post[a].0
                        < #[trigger] post[b].0 by {
                        assert(self.codes@[a].0 < self.codes@[b].0);
                    }
                }
                if row < rows && col < cols {
                    proof {
                        assert(row * cols + col < rows * cols) by (nonlinear_arith)
                            requires
                                row < rows,
                                col < cols,
                        ;
                    }
                    let x = row * cols + col;
                    bin.set(start + x, v);
                    proof {
                        assert forall|y: int| 0 <= y < size implies #[trigger] bin@[start + y]
                            == spec_code_at(post, pos_of(y, cols as int)) by {
                            lemma_pos_of(y, rows as int, cols as int, k);
                            lemma_code_at_push(pre, (k, v), pos_of(y, cols as int));
                        }
                    }
                } else {
                    proof {
                        assert forall|y: int| 0 <= y < size implies #[trigger] bin@[start + y]
                            == spec_code_at(post, pos_of(y, cols as int)) by {
                            lemma_pos_of(y, rows as int, cols as int, k);
                            lemma_code_at_push(pre, (k, v), pos_of(y, cols as int));
                        }
                    }
                }
                j = j + 1;
            }
            assert(self.codes@.subrange(0, n as int) =~= self.codes@);
            assert(bin@ =~= spec_layer_binary(*self, rows as int, cols as int, composite)) by {
                let tail = Seq::new(
                    (rows * cols) as nat,
                    |i: int| spec_code_at(self.codes@, ((i / cols as int) * 256 + i % cols as int) as u16),
                );
                assert forall|x: int| 0 <= x < size implies bin@[start + x] == tail[x] by {
                    assert(bin@[start + x] == spec_code_at(self.codes@, pos_of(x, cols as int)));
                }
                assert(bin@ =~= head + tail);
            }
        } else {
            assert(n * 3 <= size);
            let mut j: usize = 0;
            while j < n
                invariant
                    n == self.codes@.len(),
                    j <= n,
                    bin@ == head + Seq::new(
                        (2 * j) as nat,
                        |i: int|
                            if i % 2 == 0 {
                                self.codes@[i / 2].0
                            } else {
                                self.codes@[i / 2].1
                            },
                    ),
                decreases n - j,
            {
                let (k, v) = self.codes[j];
                bin.push(k);
                bin.push(v);
                j = j + 1;
                assert(bin@ =~= head + Seq::new(
                    (2 * j) as nat,
                    |i: int|
                        if i % 2 == 0 {
                            self.codes@[i / 2].0
                        } else {
                            self.codes@[i / 2].1
                        },
                ));
            }
        }
        bin
    }
}

/// A macro of a config.
#[derive(Debug)]
pub enum Macro {
    Modifier { keycode: u16, modifiers: u8 },
    Tap(Vec<u16>),
    HoldRelease { hold: u16, release: u16 },
    Hold(Vec<u16>),
    Release(Vec<u16>),
    DualAction(u16, u16),
    TimedDualAction(u16, u16, u16, u16),
    Delay(u16),
}

/// The binary form of a macro.
pub open spec fn spec_macro_binary(m: Macro) -> Seq<u16> {
    match m {
        Macro::Modifier { keycode, modifiers } => seq![((modifiers as u16) << 8u16) as u16, keycode],
        Macro::Tap(s) => seq![macro_types::TAP] + s@,
        Macro::HoldRelease { hold, release } => seq![macro_types::HOLD_RELEASE, hold, release],
        Macro::Hold(s) => seq![macro_types::HOLD] + s@,
        Macro::Release(s) => seq![macro_types::RELEASE] + s@,
        Macro::DualAction(tap, hold) => seq![macro_types::DUAL_ACTION, tap, hold],
        Macro::TimedDualAction(tap, hold, t1, t2) => if t2 == u16::MAX {
            seq![macro_types::DUAL_ACTION, tap, hold, t1]
        } else {
            seq![macro_types::DUAL_ACTION, tap, hold, t1, t2]
        },
        Macro::Delay(n) => seq![macro_types::DELAY, n],
    }
}

/// `id` followed by `seq`.
pub fn binary_seq(id: u16, seq: &[u16]) -> (r: Vec<u16>)
    ensures
        r@ == seq![id] + seq@,
{
    let mut result: Vec<u16> = Vec::new();
    result.push(id);
    let mut i: usize = 0;
    while i < seq.len()
        invariant
            i <= seq@.len(),
            result@ == seq![id] + seq@.subrange(0, i as int),
        decreases seq@.len() - i,
    {
        result.push(seq[i]);
        i = i + 1;
        assert(result@ =~= seq![id] + seq@.subrange(0, i as int));
    }
    assert(seq@.subrange(0, seq@.len() as int) =~= seq@);
    result
}

impl Macro {
    /// The binary form of the macro.
    pub fn serialize(&self) -> (r: Vec<u16>)
        ensures
            r@ == spec_macro_binary(*self),
    {
        match self {
            Macro::Modifier { keycode, modifiers } => {
                let v = vec![(*modifiers as u16) << 8, *keycode];
                assert(v@ =~= spec_macro_binary(*self));
                v
            },
            Macro::Tap(seq) => binary_seq(macro_types::TAP, seq.as_slice()),
            Macro::HoldRelease { hold, release } => {
                let v = vec![macro_types::HOLD_RELEASE, *hold, *release];
                assert(v@ =~= spec_macro_binary(*self));
                v
            },
            Macro::Hold(seq) => binary_seq(macro_types::HOLD, seq.as_slice()),
            Macro::Release(seq) => binary_seq(macro_types::RELEASE, seq.as_slice()),
            Macro::DualAction(tap, hold) => {
                let v = vec![macro_types::DUAL_ACTION, *tap, *hold];
                assert(v@ =~= spec_macro_binary(*self));
                v
            },
            Macro::TimedDualAction(tap, hold, time1, time2) => {
                if *time2 == u16::MAX {
                    let v = vec![macro_types::DUAL_ACTION, *tap, *hold, *time1];
                    assert(v@ =~= spec_macro_binary(*self));
                    v
                } else {
                    let v = vec![macro_types::DUAL_ACTION, *tap, *hold, *time1, *time2];
                    assert(v@ =~= spec_macro_binary(*self));
                    v
                }
            },
            Macro::Delay(n) => {
                let v = vec![macro_types::DELAY, *n];
                assert(v@ =~= spec_macro_binary(*self));
                v
            },
        }
    }
}

} // verus!
