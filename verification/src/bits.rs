//! Bitmask utilities: building a mask from bit positions and testing whether
//! every bit of a mask is present in a value.

use vstd::prelude::*;

verus! {

/// The mask with bit `p` set for every position `p` in `bits`.
pub open spec fn mask_of(bits: Seq<u8>) -> u64
    decreases bits.len(),
{
    if bits.len() == 0 {
        0u64
    } else {
        mask_of(bits.drop_last()) | (1u64 << bits.last())
    }
}

/// Build a capability mask by setting bit `p` for each position `p` in `bits`.
pub fn mask_build(bits: &[u8]) -> (r: u64)
    requires
        forall|i: int| 0 <= i < bits@.len() ==> bits@[i] < 64,
    ensures
        r == mask_of(bits@),
{
    let mut acc: u64 = 0;
    let mut i: usize = 0;
    while i < bits.len()
        invariant
            i <= bits@.len(),
            forall|j: int| 0 <= j < bits@.len() ==> bits@[j] < 64,
            acc == mask_of(bits@.subrange(0, i as int)),
        decreases bits@.len() - i,
    {
        proof {
            assert(bits@.subrange(0, i + 1).drop_last() =~= bits@.subrange(0, i as int));
            assert(bits@.subrange(0, i + 1).last() == bits@[i as int]);
        }
        acc = acc | (1u64 << bits[i]);
        i = i + 1;
    }
    proof {
        assert(bits@.subrange(0, bits@.len() as int) =~= bits@);
    }
    acc
}

/// True exactly when every bit set in `mask` is also set in `val`; bits of
/// `val` outside the mask play no part.
pub fn bits_set(val: u64, mask: u64) -> (r: bool)
    ensures
        r == (val & mask == mask),
{
    (val & mask) == mask
}

/// Whether bit `i` of `x` is set.
pub open spec fn bit_at(x: u64, i: u64) -> bool {
    (x >> i) & 1u64 == 1u64
}

/// Every nonzero word has a set bit.
proof fn lemma_nonzero_has_bit(x: u64)
    requires
        x != 0,
    ensures
        exists|i: u64| i < 64 && #[trigger] bit_at(x, i),
    decreases x,
{
    if x & 1u64 == 1u64 {
        assert(x & 1u64 == 1u64 ==> (x >> 0u64) & 1u64 == 1u64) by (bit_vector);
        assert(bit_at(x, 0));
    } else {
        assert(x != 0 && x & 1u64 != 1u64 ==> x >> 1u64 != 0 && x >> 1u64 < x) by (bit_vector);
        lemma_nonzero_has_bit(x >> 1u64);
        let i = choose|i: u64| i < 64 && #[trigger] bit_at(x >> 1u64, i);
        assert(i < 64 && ((x >> 1u64) >> i) & 1u64 == 1u64 ==> i < 63 && (x >> (i + 1)) & 1u64
            == 1u64) by (bit_vector);
        assert(bit_at(x, (i + 1) as u64));
    }
}

/// The mask test `val & mask == mask` holds exactly when every bit position
/// set in `mask` is also set in `val`.
pub proof fn lemma_bits_set_iff(val: u64, mask: u64)
    ensures
        (val & mask == mask) <==> (forall|i: u64| i < 64 && #[trigger] bit_at(mask, i)
            ==> bit_at(val, i)),
{
    if val & mask == mask {
        assert forall|i: u64| i < 64 && #[trigger] bit_at(mask, i) implies bit_at(val, i) by {
            assert(val & mask == mask && i < 64 && (mask >> i) & 1u64 == 1u64
                ==> (val >> i) & 1u64 == 1u64) by (bit_vector);
        }
    }
    if val & mask != mask {
        assert(val & mask != mask ==> mask & !val != 0) by (bit_vector);
        lemma_nonzero_has_bit(mask & !val);
        let i = choose|i: u64| i < 64 && #[trigger] bit_at(mask & !val, i);
        assert(i < 64 && ((mask & !val) >> i) & 1u64 == 1u64 ==> ((mask >> i) & 1u64 == 1u64
            && (val >> i) & 1u64 != 1u64)) by (bit_vector);
        assert(bit_at(mask, i) && !bit_at(val, i));
    }
}

} // verus!
