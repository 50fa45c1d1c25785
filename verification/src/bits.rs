//! Facts about single bits of 64-bit words.
use vstd::prelude::*;

verus! {

/// Bit `i` of `m` is set. False for every `i` outside `0..64`.
pub open spec fn bit_at(m: u64, i: int) -> bool {
    0 <= i < 64 && m & (1u64 << (i as u64)) != 0
}

/// The word whose only set bit is bit `i`, or zero when `i` is outside `0..64`.
pub open spec fn single(i: int) -> u64 {
    if 0 <= i < 64 {
        1u64 << (i as u64)
    } else {
        0
    }
}

/// `a` and `b` share no set bit.
pub open spec fn disjoint(a: u64, b: u64) -> bool {
    a & b == 0
}

/// `s` sets no bit outside `m`.
pub open spec fn submask(s: u64, m: u64) -> bool {
    s & m == s
}

proof fn lemma_bitwise(a: u64, b: u64, i: u64)
    by (bit_vector)
    requires
        i < 64,
    ensures
        ((a | b) & (1u64 << i) != 0) == ((a & (1u64 << i) != 0) || (b & (1u64 << i) != 0)),
        ((a & b) & (1u64 << i) != 0) == ((a & (1u64 << i) != 0) && (b & (1u64 << i) != 0)),
        ((a ^ b) & (1u64 << i) != 0) == ((a & (1u64 << i) != 0) != (b & (1u64 << i) != 0)),
        ((!a) & (1u64 << i) != 0) == !(a & (1u64 << i) != 0),
        0u64 & (1u64 << i) == 0,
        1u64 << i != 0,
{
}

proof fn lemma_single_bit(i: u64, j: u64)
    by (bit_vector)
    requires
        i < 64,
        j < 64,
    ensures
        ((1u64 << j) & (1u64 << i) != 0) == (i == j),
{
}

proof fn lemma_shift_down(a: u64, j: u64)
    by (bit_vector)
    requires
        j < 63,
        (a >> 1) & (1u64 << j) != 0,
    ensures
        a & (1u64 << ((j + 1) as u64)) != 0,
{
}

proof fn lemma_low_bit(a: u64, hi: u64)
    by (bit_vector)
    requires
        a != 0,
        hi <= 64,
        hi < 64 ==> a >> hi == 0,
        a & (1u64 << 0) == 0,
    ensures
        hi > 1,
        a >> 1 != 0,
        hi - 1 < 64 ==> (a >> 1) >> ((hi - 1) as u64) == 0,
{
}

proof fn lemma_find_bit(a: u64, hi: u64) -> (i: u64)
    requires
        a != 0,
        hi <= 64,
        hi < 64 ==> a >> hi == 0,
    ensures
        i < hi,
        a & (1u64 << i) != 0,
    decreases hi,
{
    if a & (1u64 << 0) != 0 {
        assert(hi > 0) by (bit_vector)
            requires
                a != 0,
                hi <= 64,
                hi < 64 ==> a >> hi == 0,
        ;
        0
    } else {
        lemma_low_bit(a, hi);
        let j = lemma_find_bit(a >> 1, (hi - 1) as u64);
        lemma_shift_down(a, j);
        (j + 1) as u64
    }
}

/// Union of words is associative and commutative, and zero is neutral for it.
pub proof fn lemma_or_laws(a: u64, b: u64, c: u64)
    by (bit_vector)
    ensures
        a | (b | c) == (a | b) | c,
        a | b == b | a,
        a | 0 == a,
        0 | a == a,
{
}

/// Intersection of words is associative, commutative and idempotent, and
/// zero absorbs it.
pub proof fn lemma_and_laws(a: u64, b: u64, c: u64)
    by (bit_vector)
    ensures
        a & (b & c) == (a & b) & c,
        a & b == b & a,
        a & a == a,
        (a & b) & b == a & b,
        a & 0 == 0,
        0 & a == 0,
{
}

/// The bits of `a | b` are those of `a` together with those of `b`.
pub broadcast proof fn lemma_or_bits(a: u64, b: u64, i: int)
    ensures
        #[trigger] bit_at(a | b, i) == (bit_at(a, i) || bit_at(b, i)),
{
    if 0 <= i < 64 {
        lemma_bitwise(a, b, i as u64);
    }
}

/// The bits of `a & b` are those set in both `a` and `b`.
pub broadcast proof fn lemma_and_bits(a: u64, b: u64, i: int)
    ensures
        #[trigger] bit_at(a & b, i) == (bit_at(a, i) && bit_at(b, i)),
{
    if 0 <= i < 64 {
        lemma_bitwise(a, b, i as u64);
    }
}

/// The bits of `a ^ b` are those set in exactly one of `a` and `b`.
pub broadcast proof fn lemma_xor_bits(a: u64, b: u64, i: int)
    ensures
        #[trigger] bit_at(a ^ b, i) == (bit_at(a, i) != bit_at(b, i)),
{
    if 0 <= i < 64 {
        lemma_bitwise(a, b, i as u64);
    }
}

/// Within `0..64`, the bits of `!a` are those that `a` leaves clear.
pub broadcast proof fn lemma_not_bits(a: u64, i: int)
    ensures
        #[trigger] bit_at(!a, i) == (0 <= i < 64 && !bit_at(a, i)),
{
    if 0 <= i < 64 {
        lemma_bitwise(a, a, i as u64);
    }
}

/// Zero has no bit set.
pub broadcast proof fn lemma_zero_bits(i: int)
    ensures
        !#[trigger] bit_at(0u64, i),
{
    if 0 <= i < 64 {
        lemma_bitwise(0, 0, i as u64);
    }
}

/// `single(j)` has bit `j` set, and no other.
pub broadcast proof fn lemma_single_bits(j: int, i: int)
    ensures
        #[trigger] bit_at(single(j), i) == (0 <= j < 64 && i == j),
{
    if 0 <= j < 64 {
        if 0 <= i < 64 {
            lemma_single_bit(i as u64, j as u64);
        }
    } else {
        lemma_zero_bits(i);
    }
}

/// A word that is not zero has a set bit.
pub proof fn lemma_nonzero_bit(a: u64) -> (i: int)
    requires
        a != 0,
    ensures
        bit_at(a, i),
{
    lemma_find_bit(a, 64) as int
}

/// Two words with the same bits are the same word.
pub proof fn lemma_same_bits(a: u64, b: u64)
    requires
        forall|i: int| 0 <= i < 64 ==> bit_at(a, i) == bit_at(b, i),
    ensures
        a == b,
{
    if a != b {
        assert(a ^ b != 0) by (bit_vector)
            requires
                a != b,
        ;
        let i = lemma_nonzero_bit(a ^ b);
        lemma_xor_bits(a, b, i);
    }
}

/// Two words are disjoint exactly when no bit is set in both.
pub proof fn lemma_disjoint_bits(a: u64, b: u64)
    ensures
        disjoint(a, b) <==> (forall|i: int| !(bit_at(a, i) && bit_at(b, i))),
{
    if disjoint(a, b) {
        assert forall|i: int| !(bit_at(a, i) && bit_at(b, i)) by {
            lemma_and_bits(a, b, i);
            lemma_zero_bits(i);
        }
    } else {
        let i = lemma_nonzero_bit(a & b);
        lemma_and_bits(a, b, i);
    }
}

/// Two squares of the board with the same one-square set are the same.
pub proof fn lemma_single_injective(i: int, j: int)
    requires
        0 <= i < 64,
        0 <= j < 64,
    ensures
        single(i) == single(j) <==> i == j,
{
    broadcast use group_bits;

    assert(bit_at(single(i), i));
    assert(bit_at(single(j), j));
}

pub broadcast group group_bits {
    lemma_or_bits,
    lemma_and_bits,
    lemma_xor_bits,
    lemma_not_bits,
    lemma_zero_bits,
    lemma_single_bits,
}

} // verus!
