//! Bit sets of pressed keys, one bit per key code.
use vstd::prelude::*;

verus! {

/// Key `k`'s bit lies in byte `k >> 3` of 32, at bit `k & 7`; two keys in one byte have
/// different bits.
proof fn lemma_bit_slot(k: u8, kc: u8)
    by (bit_vector)
    ensures
        k >> 3u8 < 32,
        kc >> 3u8 < 32,
        kc & 7u8 < 8,
        k >> 3u8 == kc >> 3u8 && k != kc ==> k & 7u8 != kc & 7u8,
{
}

/// The number of bytes in a key bit set: one bit for each 8-bit key code.
pub const KEY_BITS_SIZE: usize = 32;

/// Whether bit `kc` is set in the byte sequence `bits`.
pub open spec fn bit_set(bits: Seq<u8>, kc: u8) -> bool {
    (bits[(kc >> 3u8) as int] >> (kc & 7u8)) & 1u8 == 1u8
}

/// Sets bit `kc` in `keys_down`. Returns `true` if the bit was clear before.
pub fn add_key_bit(keys_down: &mut [u8], kc: u8) -> (changed: bool)
    requires
        old(keys_down)@.len() == KEY_BITS_SIZE,
    ensures
        final(keys_down)@.len() == KEY_BITS_SIZE,
        changed == !bit_set(old(keys_down)@, kc),
        bit_set(final(keys_down)@, kc),
        forall|k: u8| k != kc ==> bit_set(final(keys_down)@, k) == bit_set(old(keys_down)@, k),
{
    let i = (kc >> 3) as usize;
    proof {
        lemma_bit_slot(kc, kc);
    }
    let bp: u8 = 1u8 << (kc & 7);
    let old_v = keys_down[i];
    keys_down[i] = old_v | bp;
    proof {
        assert forall|k: u8| k != kc implies bit_set(keys_down@, k) == bit_set(old(keys_down)@, k) by {
            assert(keys_down@ == old(keys_down)@.update(i as int, old_v | bp));
            lemma_bit_slot(k, kc);
            if k >> 3u8 == kc >> 3u8 {
                let o = old_v;
                assert(k & 7u8 != kc & 7u8 ==> ((o | (1u8 << (kc & 7u8))) >> (k & 7u8)) & 1u8
                    == (o >> (k & 7u8)) & 1u8) by (bit_vector);
            }
        }
        let o = old_v;
        assert(((o | (1u8 << (kc & 7u8))) >> (kc & 7u8)) & 1u8 == 1u8) by (bit_vector);
        assert((o & (1u8 << (kc & 7u8)) == 0u8) == ((o >> (kc & 7u8)) & 1u8 != 1u8)) by (bit_vector);
    }
    old_v & bp == 0
}

/// Clears bit `kc` in `keys_down`. Returns `true` if the bit was set before.
pub fn del_key_bit(keys_down: &mut [u8], kc: u8) -> (changed: bool)
    requires
        old(keys_down)@.len() == KEY_BITS_SIZE,
    ensures
        final(keys_down)@.len() == KEY_BITS_SIZE,
        changed == bit_set(old(keys_down)@, kc),
        !bit_set(final(keys_down)@, kc),
        forall|k: u8| k != kc ==> bit_set(final(keys_down)@, k) == bit_set(old(keys_down)@, k),
{
    let i = (kc >> 3) as usize;
    proof {
        lemma_bit_slot(kc, kc);
    }
    let bp: u8 = 1u8 << (kc & 7);
    let old_v = keys_down[i];
    keys_down[i] = old_v & !bp;
    proof {
        assert forall|k: u8| k != kc implies bit_set(keys_down@, k) == bit_set(old(keys_down)@, k) by {
            assert(keys_down@ == old(keys_down)@.update(i as int, old_v & !bp));
            lemma_bit_slot(k, kc);
            if k >> 3u8 == kc >> 3u8 {
                let o = old_v;
                assert(k & 7u8 != kc & 7u8 ==> ((o & !(1u8 << (kc & 7u8))) >> (k & 7u8)) & 1u8
                    == (o >> (k & 7u8)) & 1u8) by (bit_vector);
            }
        }
        let o = old_v;
        assert(((o & !(1u8 << (kc & 7u8))) >> (kc & 7u8)) & 1u8 != 1u8) by (bit_vector);
        assert((o & (1u8 << (kc & 7u8)) != 0u8) == ((o >> (kc & 7u8)) & 1u8 == 1u8)) by (bit_vector);
    }
    old_v & bp != 0
}

} // verus!
