//! Facts about single bits of a 64-bit word.

use vstd::prelude::*;

verus! {

/// Whether bit `i` of `x` is set. No bit is set outside `0..64`.
pub open spec fn bit_at(x: u64, i: int) -> bool {
    0 <= i < 64 && (x >> (i as u64)) & 1 == 1
}

/// The word zero has no bit set.
pub proof fn lemma_zero_has_no_bit(i: int)
    ensures
        !bit_at(0, i),
{
    if 0 <= i < 64 {
        let k = i as u64;
        assert((0u64 >> k) & 1 == 0) by (bit_vector);
    }
}

/// If `x` has a bit set at or above position `k`, one such position can be named.
proof fn lemma_find_bit_from(x: u64, k: u64) -> (i: int)
    requires
        k < 64,
        x >> k != 0,
    ensures
        k <= i < 64,
        bit_at(x, i),
    decreases 64 - k,
{
    if (x >> k) & 1 == 1 {
        k as int
    } else {
        let next = (k + 1) as u64;
        assert(k < 63 && x >> next != 0) by (bit_vector)
            requires
                k < 64,
                x >> k != 0,
                (x >> k) & 1 != 1,
                next == k + 1,
        ;
        lemma_find_bit_from(x, next)
    }
}

/// A word that is not zero has a bit set.
pub proof fn lemma_nonzero_has_bit(x: u64) -> (i: int)
    requires
        x != 0,
    ensures
        bit_at(x, i),
{
    assert(x >> 0 == x) by (bit_vector);
    lemma_find_bit_from(x, 0)
}

/// A word with a bit set is not zero.
pub proof fn lemma_bit_means_nonzero(x: u64, i: int)
    requires
        bit_at(x, i),
    ensures
        x != 0,
{
    let k = i as u64;
    assert(x != 0) by (bit_vector)
        requires
            (x >> k) & 1 == 1,
    ;
}

/// Setting bit `t` of a word sets that bit and changes no other.
pub proof fn lemma_bit_after_set(x: u64, t: u64, i: int)
    requires
        t < 64,
    ensures
        bit_at(x | (1u64 << t), i) == (i == t || bit_at(x, i)),
{
    if 0 <= i < 64 {
        let k = i as u64;
        assert(((x | (1u64 << t)) >> k) & 1 == 1 <==> k == t || (x >> k) & 1 == 1) by (bit_vector)
            requires
                t < 64,
                k < 64,
        ;
    }
}

/// Two words that share no bit still share none after one of them gets a
/// bit that the other lacks.
pub proof fn lemma_disjoint_after_set(x: u64, y: u64, t: u64)
    requires
        t < 64,
        x & y == 0,
        !bit_at(y, t as int),
    ensures
        (x | (1u64 << t)) & y == 0,
        y & (x | (1u64 << t)) == 0,
{
    assert((x | (1u64 << t)) & y == 0 && y & (x | (1u64 << t)) == 0) by (bit_vector)
        requires
            t < 64,
            x & y == 0,
            (y >> t) & 1 != 1,
    ;
}

/// Which of two words comes first does not matter to the bits they share.
pub proof fn lemma_and_commutes(x: u64, y: u64)
    ensures
        x & y == y & x,
{
    assert(x & y == y & x) by (bit_vector);
}

/// Two words that share no bit do not both have bit `i`.
pub proof fn lemma_disjoint_bit(x: u64, y: u64, i: int)
    requires
        x & y == 0,
    ensures
        !(bit_at(x, i) && bit_at(y, i)),
{
    if 0 <= i < 64 {
        let k = i as u64;
        assert(!((x >> k) & 1 == 1 && (y >> k) & 1 == 1)) by (bit_vector)
            requires
                x & y == 0,
        ;
    }
}

/// The starts of the runs of four in `x`: bit `i` of the result is set when
/// `x` has the bits `i`, `i + stride`, `i + 2 * stride` and `i + 3 * stride`.
pub open spec fn runs(x: u64, stride: u64) -> u64 {
    x & (x >> stride) & (x >> ((2 * stride) as u64)) & (x >> ((3 * stride) as u64))
}

/// Bit `i` of `runs(x, stride)` is set exactly when `x` has four bits set,
/// `stride` apart, from bit `i` up.
pub proof fn lemma_run_start(x: u64, stride: u64, i: int)
    requires
        stride <= 21,
    ensures
        bit_at(runs(x, stride), i) == (bit_at(x, i) && bit_at(x, i + stride) && bit_at(
            x,
            i + 2 * stride,
        ) && bit_at(x, i + 3 * stride)),
{
    if 0 <= i < 64 {
        let k = i as u64;
        let k1 = (k + stride) as u64;
        let k2 = (k + 2 * stride) as u64;
        let k3 = (k + 3 * stride) as u64;
        let s2 = (2 * stride) as u64;
        let s3 = (3 * stride) as u64;
        assert(((x & (x >> stride) & (x >> s2) & (x >> s3)) >> k) & 1 == 1 <==> (x >> k) & 1 == 1
            && (k1 < 64 && (x >> k1) & 1 == 1) && (k2 < 64 && (x >> k2) & 1 == 1) && (k3 < 64 && (x
            >> k3) & 1 == 1)) by (bit_vector)
            requires
                stride <= 21,
                k < 64,
                k1 == k + stride,
                k2 == k + 2 * stride,
                k3 == k + 3 * stride,
                s2 == 2 * stride,
                s3 == 3 * stride,
        ;
    }
}

/// Shifting a word down by `i` and masking with 1 reads bit `i`: the result
/// is 1 when the bit is set and 0 when it is not.
pub proof fn lemma_read_bit(x: u64, i: u64)
    requires
        i < 64,
    ensures
        (x >> i) & 1 == if bit_at(x, i as int) { 1u64 } else { 0u64 },
{
    assert((x >> i) & 1 == 0 || (x >> i) & 1 == 1) by (bit_vector);
}

/// Two words with the same bits are the same word.
pub proof fn lemma_same_bits_same_word(x: u64, y: u64)
    requires
        forall|i: int| 0 <= i < 64 ==> bit_at(x, i) == bit_at(y, i),
    ensures
        x == y,
{
    if x != y {
        let differ = x ^ y;
        assert(differ != 0) by (bit_vector)
            requires
                differ == x ^ y,
                x != y,
        ;
        let i = lemma_nonzero_has_bit(differ);
        let k = i as u64;
        assert(((x >> k) & 1 == 1) != ((y >> k) & 1 == 1)) by (bit_vector)
            requires
                differ == x ^ y,
                (differ >> k) & 1 == 1,
        ;
        assert(bit_at(x, i) == bit_at(y, i));
    }
}

} // verus!
