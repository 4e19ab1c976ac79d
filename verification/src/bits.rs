//! Single-bit bitboard operations and the lemmas that relate them.

use vstd::prelude::*;

verus! {

/// True when bit `square` of `bitboard` is set.
pub open spec fn bit(bitboard: u64, square: u64) -> bool
    recommends
        square < 64,
{
    bitboard & (1u64 << square) != 0
}

/// Number of set bits of `m` at positions `from` and above.
pub open spec fn popcount_from(m: u64, from: int) -> nat
    decreases 64 - from,
{
    if from < 0 || from >= 64 {
        0
    } else {
        (if bit(m, from as u64) {
            1nat
        } else {
            0nat
        }) + popcount_from(m, from + 1)
    }
}

/// Number of set bits of `m`.
pub open spec fn popcount(m: u64) -> nat {
    popcount_from(m, 0)
}

pub fn set_bit(bitboard: &mut u64, square: usize)
    requires
        square < 64,
    ensures
        *final(bitboard) == *old(bitboard) | (1u64 << square as u64),
{
    *bitboard |= 1u64 << square;
}

pub fn get_bit(bitboard: u64, square: usize) -> (r: bool)
    requires
        square < 64,
    ensures
        r == bit(bitboard, square as u64),
{
    (bitboard & (1u64 << square)) != 0
}

pub fn pop_bit(bitboard: &mut u64, square: usize)
    requires
        square < 64,
    ensures
        *final(bitboard) == *old(bitboard) & !(1u64 << square as u64),
{
    *bitboard &= !(1u64 << square);
}

/// Counts the set bits of `m`.
pub fn count_bits(m: u64) -> (c: u32)
    ensures
        c == popcount(m),
{
    let mut c: u32 = 0;
    let mut i: usize = 0;
    while i < 64
        invariant
            i <= 64,
            c + popcount_from(m, i as int) == popcount(m),
            c <= i,
        decreases 64 - i,
    {
        if (m & (1u64 << i)) != 0 {
            c = c + 1;
        }
        i = i + 1;
    }
    c
}

/// Zero is the identity of union, intersection absorbs it, conjunction
/// is idempotent, and a zero shift changes nothing.
pub proof fn lemma_bit_identities(x: u64)
    by (bit_vector)
    ensures
        x | 0u64 == x,
        0u64 | x == x,
        x & x == x,
        x >> 0u64 == x,
        0u64 & x == 0,
{
}

/// A member of an intersection is a member of both parts.
pub proof fn lemma_and_member(a: u64, b: u64, c: u64, t: u64)
    by (bit_vector)
    requires
        t < 64,
        c == a & b,
        c & (1u64 << t) != 0,
    ensures
        a & (1u64 << t) != 0,
        b & (1u64 << t) != 0,
{
}

/// Masking twice by the same mask masks once.
pub proof fn lemma_mask_idem(a: u64, b: u64)
    by (bit_vector)
    ensures
        (a & b) & b == a & b,
{
}

} // verus!
