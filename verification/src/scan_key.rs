//! Key switch events as the key scanner reports them.
use vstd::prelude::*;

verus! {

/// A key switch event: the row, with bit 7 set when the key went down, and the column.
/// A column of `0xff` marks no key.
#[derive(Debug, Clone, Copy, PartialEq, Eq, Structural)]
pub struct ScanKey {
    pub row: u8,
    pub col: u8,
}

impl ScanKey {
    pub fn new(row: u8, col: u8, is_down: bool) -> (r: Self)
        ensures
            r.row == (row | if is_down { 0x80u8 } else { 0u8 }),
            r.col == col,
    {
        Self { row: row | if is_down { 0x80 } else { 0 }, col }
    }

    pub fn none() -> (r: Self)
        ensures
            r.row == 0xff,
            r.col == 0xff,
    {
        Self { row: 0xff, col: 0xff }
    }

    pub fn is_none(&self) -> (r: bool)
        ensures
            r == (self.col == 0xff),
    {
        self.col == 0xff
    }

    pub open spec fn spec_row(&self) -> u8 {
        self.row & 0x7fu8
    }

    pub open spec fn spec_is_down(&self) -> bool {
        self.row & 0x80u8 == 0x80u8
    }

    pub fn row(&self) -> (r: usize)
        ensures
            r == self.spec_row(),
            r < 0x80,
    {
        let r = self.row;
        assert(r & 0x7fu8 < 0x80) by (bit_vector);
        (r & 0x7f) as usize
    }

    pub fn column(&self) -> (r: usize)
        ensures
            r == self.col,
    {
        self.col as usize
    }

    pub fn is_down(&self) -> (r: bool)
        ensures
            r == self.spec_is_down(),
    {
        self.row & 0x80 == 0x80
    }

    /// Whether `other` is an event of the same key, up or down.
    pub fn is_same_key(&self, other: ScanKey) -> (r: bool)
        ensures
            r == (self.col == other.col && self.spec_row() == other.spec_row()),
    {
        self.col == other.col && self.row & 0x7f == other.row & 0x7f
    }

    /// Whether `other` is an event of the same key, up or down.
    pub fn same_key(&self, other: ScanKey) -> (r: bool)
        ensures
            r == (self.col == other.col && self.spec_row() == other.spec_row()),
    {
        self.col == other.col && self.row & 0x7f == other.row & 0x7f
    }

    pub open spec fn spec_as_memo(&self) -> u16 {
        (self.row as u16 | ((self.col as u16) << 8u16)) as u16
    }

    /// The event packed into one word: the row byte low, the column byte high.
    pub fn as_memo(&self) -> (r: u16)
        ensures
            r == self.spec_as_memo(),
    {
        self.row as u16 | ((self.col as u16) << 8)
    }

    pub fn as_memo_bytes(&self) -> (r: (u8, u8))
        ensures
            r == (self.row, self.col),
    {
        (self.row, self.col)
    }

    pub open spec fn spec_from_memo(memo: u16) -> ScanKey {
        ScanKey { row: memo as u8, col: (memo >> 8u16) as u8 }
    }

    /// Unpacks an event packed by `as_memo`.
    pub fn from_memo(memo: u16) -> (r: Self)
        ensures
            r == Self::spec_from_memo(memo),
    {
        Self { row: memo as u8, col: (memo >> 8) as u8 }
    }

    /// Marks the event as a key going down or up.
    pub fn set_down(&mut self, down: bool)
        ensures
            final(self).col == old(self).col,
            final(self).spec_row() == old(self).spec_row(),
            final(self).spec_is_down() == down,
    {
        let r = self.row;
        if down {
            self.row = r | 0x80;
            assert((r | 0x80u8) & 0x7fu8 == r & 0x7fu8 && (r | 0x80u8) & 0x80u8 == 0x80u8) by (bit_vector);
        } else {
            self.row = r & !0x80;
            assert((r & !0x80u8) & 0x7fu8 == r & 0x7fu8 && (r & !0x80u8) & 0x80u8 != 0x80u8) by (bit_vector);
        }
    }
}

/// A key event packed into one word unpacks to the same event.
pub proof fn law_scan_key_memo_round_trip(k: ScanKey)
    ensures
        ScanKey::spec_from_memo(k.spec_as_memo()) == k,
{
    let row = k.row;
    let col = k.col;
    assert(((row as u16 | ((col as u16) << 8u16)) as u16) as u8 == row && (((row as u16 | ((col as u16)
        << 8u16)) as u16) >> 8u16) as u8 == col) by (bit_vector);
}

/// A key event with the time it happened, in milliseconds.
#[derive(Debug, Clone, Copy, PartialEq, Eq, Structural)]
pub struct TimedScanKey(pub ScanKey, pub u64);

/// Bits `shift..shift + 16` of `t`.
pub open spec fn spec_u64tou16(t: u64, shift: u64) -> u16 {
    ((t >> shift) & 0xffffu64) as u16
}

/// Bits `shift..shift + 16` of `t`.
pub fn u64tou16(t: u64, shift: u64) -> (r: u16)
    requires
        shift < 64,
    ensures
        r == spec_u64tou16(t, shift),
{
    ((t >> shift) & 0xffff) as u16
}

/// The four words that hold a time, most significant first.
pub open spec fn time_words(t: u64) -> Seq<u16> {
    seq![spec_u64tou16(t, 48), spec_u64tou16(t, 32), spec_u64tou16(t, 16), spec_u64tou16(t, 0)]
}

/// The time that four words, most significant first, hold.
pub open spec fn words_time(w: Seq<u16>) -> u64 {
    ((((w[0] as u64) << 48u64) | ((w[1] as u64) << 32u64)) | ((w[2] as u64) << 16u64)
        | (w[3] as u64)) as u64
}

impl TimedScanKey {
    pub fn same_key(&self, scan_key: &TimedScanKey) -> (r: bool)
        ensures
            r == (self.0.col == scan_key.0.col && self.0.spec_row() == scan_key.0.spec_row()),
    {
        self.0.same_key(scan_key.0)
    }

    pub fn is_none(&self) -> (r: bool)
        ensures
            r == (self.0.col == 0xff),
    {
        self.0.is_none()
    }

    pub fn none() -> (r: Self)
        ensures
            r.0.row == 0xff,
            r.0.col == 0xff,
            r.1 == 0,
    {
        Self(ScanKey::none(), 0)
    }

    pub open spec fn spec_as_memo(&self) -> Seq<u16> {
        seq![self.0.spec_as_memo()] + time_words(self.1)
    }

    /// The event packed into five words: the key, then the time, most significant first.
    pub fn as_memo(&self) -> (r: [u16; 5])
        ensures
            r@ == self.spec_as_memo(),
    {
        let r = [
            self.0.as_memo(),
            u64tou16(self.1, 48),
            u64tou16(self.1, 32),
            u64tou16(self.1, 16),
            u64tou16(self.1, 0),
        ];
        assert(r@ =~= self.spec_as_memo());
        r
    }

    pub open spec fn spec_from_memo(memo: Seq<u16>) -> TimedScanKey {
        TimedScanKey(ScanKey::spec_from_memo(memo[0]), words_time(memo.subrange(1, 5)))
    }

    /// Unpacks an event packed by `as_memo`.
    pub fn from_memo(memo: &[u16]) -> (r: Self)
        requires
            memo@.len() >= 5,
        ensures
            r == Self::spec_from_memo(memo@),
    {
        let t: u64 = ((((memo[1] as u64) << 48) | ((memo[2] as u64) << 32)) | ((memo[3] as u64)
            << 16)) | (memo[4] as u64);
        Self(ScanKey::from_memo(memo[0]), t)
    }
}

/// A timed key event packed into five words unpacks to the same event.
pub proof fn law_timed_scan_key_memo_round_trip(k: TimedScanKey)
    ensures
        TimedScanKey::spec_from_memo(k.spec_as_memo()) == k,
{
    law_scan_key_memo_round_trip(k.0);
    let t = k.1;
    let m = k.spec_as_memo();
    assert(m.subrange(1, 5) =~= time_words(t));
    assert(((((((t >> 48u64) & 0xffffu64) as u16 as u64) << 48u64) | ((((t >> 32u64)
        & 0xffffu64) as u16 as u64) << 32u64)) | ((((t >> 16u64) & 0xffffu64) as u16 as u64)
        << 16u64) | (((t >> 0u64) & 0xffffu64) as u16 as u64)) == t) by (bit_vector);
}

} // verus!
