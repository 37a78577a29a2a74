//! Membership in a 64-bit square set, and the few bit-level facts the
//! board representation needs.

use vstd::prelude::*;

verus! {

/// True when bit `i` of the 64-bit square set `bb` is set.
pub open spec fn bb_has(bb: u64, i: u64) -> bool {
    bb & (1u64 << i) != 0u64
}

/// The word whose `w` lowest bits are set.
pub open spec fn low_mask(w: u64) -> u64 {
    if w >= 64 {
        0xffff_ffff_ffff_ffffu64
    } else {
        ((1u64 << w) - 1) as u64
    }
}

/// Setting bit `pos` adds `pos` to the set and leaves every other bit as it was.
pub proof fn lemma_set_bit(bb: u64, pos: u64, i: u64)
    by (bit_vector)
    requires
        pos < 64,
        i < 64,
    ensures
        bb_has(bb | (1u64 << pos), i) == (bb_has(bb, i) || i == pos),
{
}

/// The all-zero word is the empty square set.
pub proof fn lemma_empty_bits()
    by (bit_vector)
    ensures
        forall|i: u64| i < 64 ==> !bb_has(0u64, i),
{
}

/// Words that agree on each of the `w` lowest bits agree under `low_mask(w)`.
proof fn lemma_low_bits_ext(x: u64, y: u64, w: u64)
    requires
        w <= 64,
        forall|i: u64| i < w ==> bb_has(x, i) == bb_has(y, i),
    ensures
        (x & low_mask(w)) == (y & low_mask(w)),
    decreases w,
{
    if w == 0 {
        assert((x & low_mask(0)) == (y & low_mask(0))) by (bit_vector);
    } else {
        let v = (w - 1) as u64;
        lemma_low_bits_ext(x, y, v);
        assert(bb_has(x, v) == bb_has(y, v));
        assert((x & low_mask(w)) == (y & low_mask(w))) by (bit_vector)
            requires
                1 <= w <= 64,
                v == (w - 1) as u64,
                (x & low_mask(v)) == (y & low_mask(v)),
                bb_has(x, v) == bb_has(y, v),
        ;
    }
}

/// Two 64-bit square sets with the same members are the same word.
pub proof fn lemma_bit_ext(x: u64, y: u64)
    requires
        forall|i: u64| i < 64 ==> bb_has(x, i) == bb_has(y, i),
    ensures
        x == y,
{
    lemma_low_bits_ext(x, y, 64);
    assert((x & low_mask(64)) == x) by (bit_vector);
    assert((y & low_mask(64)) == y) by (bit_vector);
}

} // verus!
