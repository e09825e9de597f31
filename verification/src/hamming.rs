//! The Hamming distance between two words of 64 bits.

use vstd::prelude::*;

verus! {

/// The number of bits of `x` that are one.
pub open spec fn ones(x: u64) -> nat
    decreases x,
{
    if x == 0 {
        0
    } else {
        proof {
            assert(x != 0 ==> (x >> 1) < x) by (bit_vector);
        }
        (x & 1) as nat + ones(x >> 1)
    }
}

/// `u64::count_ones` of the standard library returns the number of ones in
/// the binary representation of its argument. Verus takes this on trust.
pub assume_specification[ u64::count_ones ](x: u64) -> (count: u32)
    ensures
        count == ones(x),
;

/// Only zero has no bit set.
pub proof fn lemma_ones_zero(x: u64)
    ensures
        ones(x) == 0 <==> x == 0,
    decreases x,
{
    if x != 0 {
        assert(x != 0 ==> (x >> 1) < x) by (bit_vector);
        assert(x != 0 && x & 1 == 0 ==> (x >> 1) != 0) by (bit_vector);
        assert(x & 1 == 0 || x & 1 == 1) by (bit_vector);
        lemma_ones_zero(x >> 1);
    }
}

/// The Hamming distance of two words is zero exactly when they are equal.
pub proof fn lemma_hamming_zero(a: u64, b: u64)
    ensures
        ones(a ^ b) == 0 <==> a == b,
{
    lemma_ones_zero(a ^ b);
    assert(a ^ b == 0 <==> a == b) by (bit_vector);
}

/// The number of bits in which `a` and `b` differ.
pub fn hamming(a: u64, b: u64) -> (distance: u32)
    ensures
        distance == ones(a ^ b),
{
    (a ^ b).count_ones()
}

} // verus!
