//! Bytes as little-endian 16-bit words, the form of values in a layout.
use vstd::prelude::*;

verus! {

/// The little-endian words of the byte pairs of `b` from `i` on; an odd last byte is left
/// out.
pub open spec fn le_words(b: Seq<u8>, i: int) -> Seq<u16>
    decreases b.len() - i,
{
    if 0 <= i && i + 1 < b.len() {
        seq![(b[i] as u16 | ((b[i + 1] as u16) << 8u16)) as u16] + le_words(b, i + 2)
    } else {
        seq![]
    }
}

/// The words of the byte pairs of an array of `N` bytes, read one by one; an odd last
/// byte is left out.
pub struct ByteToU16IntoIter<const N: usize>(pub [u8; N], pub usize);

impl<const N: usize> ByteToU16IntoIter<N> {
    pub fn new(bytes: [u8; N]) -> (r: Self)
        ensures
            r.0 == bytes,
            r.1 == 0,
    {
        ByteToU16IntoIter(bytes, 0)
    }

    /// The next word: the next byte, then the one after as the high byte.
    pub fn next(&mut self) -> (r: Option<u16>)
        ensures
            final(self).0 == old(self).0,
            old(self).1 + 1 < N ==> r == Some((old(self).0@[old(self).1 as int] as u16 | ((old(
                self,
            ).0@[old(self).1 + 1] as u16) << 8u16)) as u16) && final(self).1 == old(self).1 + 2,
            old(self).1 + 1 >= N ==> r is None && final(self).1 == old(self).1,
    {
        let i = self.1;
        if i < N && i + 1 < N {
            self.1 = i + 2;
            Some(self.0[i] as u16 | ((self.0[i + 1] as u16) << 8))
        } else {
            None
        }
    }

    /// The words that are left.
    pub fn collect_words(&mut self) -> (r: Vec<u16>)
        ensures
            final(self).0 == old(self).0,
            r@ == le_words(old(self).0@, old(self).1 as int),
    {
        let mut out: Vec<u16> = Vec::new();
        while self.1 < N && self.1 + 1 < N
            invariant
                self.0 == old(self).0,
                self.0@.len() == N,
                out@ + le_words(self.0@, self.1 as int) == le_words(old(self).0@, old(self).1 as int),
            ensures
                self.0 == old(self).0,
                out@ + le_words(self.0@, self.1 as int) == le_words(old(self).0@, old(self).1 as int),
                !(self.1 + 1 < N),
            decreases N - self.1,
        {
            let ghost before = out@;
            let ghost i = self.1 as int;
            match self.next() {
                Some(w) => {
                    out.push(w);
                    assert(le_words(self.0@, i) == seq![w] + le_words(self.0@, i + 2));
                    assert(out@ + le_words(self.0@, self.1 as int) =~= before + le_words(self.0@, i));
                },
                None => {
                    break;
                },
            }
        }
        assert(le_words(self.0@, self.1 as int) == Seq::<u16>::empty());
        assert(out@ =~= out@ + le_words(self.0@, self.1 as int));
        out
    }
}

/// The words of the byte pairs of `bytes`.
pub fn bytes_to_u16<const N: usize>(bytes: [u8; N]) -> (r: ByteToU16IntoIter<N>)
    ensures
        r.0 == bytes,
        r.1 == 0,
{
    ByteToU16IntoIter::new(bytes)
}

} // verus!
