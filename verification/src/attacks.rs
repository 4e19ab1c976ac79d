//! Attack-pattern tables: fixed leaper attacks and the magic-bitboard
//! sliding-piece lookup, with proofs that every table entry equals the
//! directly ray-cast attack set.

use vstd::prelude::*;
use vstd::arithmetic::power2::{
    pow2,
    lemma_pow2_adds,
    lemma_pow2_strictly_increases,
    lemma2_to64,
    lemma2_to64_rest,
};
use vstd::std_specs::bits::{u64_trailing_zeros, axiom_u64_trailing_zeros};
use crate::bits::{bit, popcount, popcount_from, count_bits, pop_bit};

verus! {

pub const NOT_A_FILE: u64 = 18374403900871474942;

pub const NOT_H_FILE: u64 = 9187201950435737471;

pub const NOT_HG_FILE: u64 = 4557430888798830399;

pub const NOT_AB_FILE: u64 = 18229723555195321596;

/// Squares a pawn of `side` (0 white, 1 black) on `sq` attacks: the two
/// forward diagonals, masked so that they never wrap around a board edge.
pub open spec fn pawn_attacks_spec(side: int, sq: int) -> u64
    recommends
        0 <= side < 2,
        0 <= sq < 64,
{
    let b = 1u64 << sq as u64;
    if side == 0 {
        ((b >> 7u64) & NOT_A_FILE) | ((b >> 9u64) & NOT_H_FILE)
    } else {
        ((b << 7u64) & NOT_H_FILE) | ((b << 9u64) & NOT_A_FILE)
    }
}

/// Squares a knight on `sq` attacks: the eight jump offsets, masked
/// against edge wrap-around.
pub open spec fn knight_attacks_spec(sq: int) -> u64
    recommends
        0 <= sq < 64,
{
    let b = 1u64 << sq as u64;
    ((b >> 17u64) & NOT_H_FILE) | ((b >> 15u64) & NOT_A_FILE) | ((b >> 10u64) & NOT_HG_FILE) | ((b
        >> 6u64) & NOT_AB_FILE) | ((b << 17u64) & NOT_A_FILE) | ((b << 15u64) & NOT_H_FILE) | ((b
        << 10u64) & NOT_AB_FILE) | ((b << 6u64) & NOT_HG_FILE)
}

/// Squares a king on `sq` attacks: the eight neighbours, masked against
/// edge wrap-around.
pub open spec fn king_attacks_spec(sq: int) -> u64
    recommends
        0 <= sq < 64,
{
    let b = 1u64 << sq as u64;
    (b >> 8u64) | ((b >> 9u64) & NOT_H_FILE) | ((b >> 7u64) & NOT_A_FILE) | ((b >> 1u64)
        & NOT_H_FILE) | (b << 8u64) | ((b << 9u64) & NOT_A_FILE) | ((b << 7u64) & NOT_H_FILE) | ((b
        << 1u64) & NOT_A_FILE)
}

/// The squares reached by walking from rank `r`, file `f` in direction
/// (`dr`, `df`) until the board edge or a blocker in `occ`, the blocking
/// square included.
pub open spec fn ray_attacks(r: int, f: int, dr: int, df: int, occ: u64) -> u64
    decreases
            (if dr > 0 {
                7 - r
            } else if dr < 0 {
                r
            } else if df > 0 {
                7 - f
            } else {
                f
            }),
{
    if dr == 0 && df == 0 {
        0
    } else {
        let nr = r + dr;
        let nf = f + df;
        if nr < 0 || nr > 7 || nf < 0 || nf > 7 {
            0
        } else {
            let s = (nr * 8 + nf) as u64;
            (1u64 << s) | (if bit(occ, s) {
                0u64
            } else {
                ray_attacks(nr, nf, dr, df, occ)
            })
        }
    }
}

/// The relevant-occupancy squares of one ray: the walked squares with the
/// final edge square left out, since a blocker there can never shorten
/// the ray.
pub open spec fn ray_mask(r: int, f: int, dr: int, df: int) -> u64
    decreases
            (if dr > 0 {
                7 - r
            } else if dr < 0 {
                r
            } else if df > 0 {
                7 - f
            } else {
                f
            }),
{
    if dr == 0 && df == 0 {
        0
    } else {
        let nr = r + dr;
        let nf = f + df;
        if nr < 0 || nr > 7 || nf < 0 || nf > 7 {
            0
        } else if nr + dr < 0 || nr + dr > 7 || nf + df < 0 || nf + df > 7 {
            0
        } else {
            (1u64 << ((nr * 8 + nf) as u64)) | ray_mask(nr, nf, dr, df)
        }
    }
}

/// The ray-cast rook attack set from `sq` given blockers `occ`.
pub open spec fn rook_rays(sq: int, occ: u64) -> u64
    recommends
        0 <= sq < 64,
{
    ray_attacks(sq / 8, sq % 8, 1, 0, occ) | ray_attacks(sq / 8, sq % 8, -1, 0, occ) | ray_attacks(
        sq / 8,
        sq % 8,
        0,
        1,
        occ,
    ) | ray_attacks(sq / 8, sq % 8, 0, -1, occ)
}

/// The ray-cast bishop attack set from `sq` given blockers `occ`.
pub open spec fn bishop_rays(sq: int, occ: u64) -> u64
    recommends
        0 <= sq < 64,
{
    ray_attacks(sq / 8, sq % 8, 1, 1, occ) | ray_attacks(sq / 8, sq % 8, -1, 1, occ) | ray_attacks(
        sq / 8,
        sq % 8,
        1,
        -1,
        occ,
    ) | ray_attacks(sq / 8, sq % 8, -1, -1, occ)
}

/// The relevant-occupancy mask of a rook on `sq`.
pub open spec fn rook_mask_spec(sq: int) -> u64
    recommends
        0 <= sq < 64,
{
    ray_mask(sq / 8, sq % 8, 1, 0) | ray_mask(sq / 8, sq % 8, -1, 0) | ray_mask(sq / 8, sq % 8, 0, 1)
        | ray_mask(sq / 8, sq % 8, 0, -1)
}

/// The relevant-occupancy mask of a bishop on `sq`.
pub open spec fn bishop_mask_spec(sq: int) -> u64
    recommends
        0 <= sq < 64,
{
    ray_mask(sq / 8, sq % 8, 1, 1) | ray_mask(sq / 8, sq % 8, -1, 1) | ray_mask(sq / 8, sq % 8, 1, -1)
        | ray_mask(sq / 8, sq % 8, -1, -1)
}

/// What a rook attack lookup returns: the ray cast against the occupancy
/// restricted to the relevant mask (blockers on edge squares and off the
/// rays never matter).
pub open spec fn rook_attacks_spec(sq: int, occ: u64) -> u64
    recommends
        0 <= sq < 64,
{
    rook_rays(sq, occ & rook_mask_spec(sq))
}

/// What a bishop attack lookup returns.
pub open spec fn bishop_attacks_spec(sq: int, occ: u64) -> u64
    recommends
        0 <= sq < 64,
{
    bishop_rays(sq, occ & bishop_mask_spec(sq))
}

/// What a queen attack lookup returns: the union of the rook and bishop
/// sets.
pub open spec fn queen_attacks_spec(sq: int, occ: u64) -> u64
    recommends
        0 <= sq < 64,
{
    rook_attacks_spec(sq, occ) | bishop_attacks_spec(sq, occ)
}

/// Attack set of a pawn of `side` on `square`, by the fixed shift-and-mask
/// pattern.
pub fn mask_pawn_attacks(side: usize, square: usize) -> (a: u64)
    requires
        side < 2,
        square < 64,
    ensures
        a == pawn_attacks_spec(side as int, square as int),
{
    let bitboard: u64 = 1u64 << square;
    if side == 0 {
        ((bitboard >> 7u64) & NOT_A_FILE) | ((bitboard >> 9u64) & NOT_H_FILE)
    } else {
        ((bitboard << 7u64) & NOT_H_FILE) | ((bitboard << 9u64) & NOT_A_FILE)
    }
}

/// Attack set of a knight on `square`.
pub fn mask_knight_attacks(square: usize) -> (a: u64)
    requires
        square < 64,
    ensures
        a == knight_attacks_spec(square as int),
{
    let b: u64 = 1u64 << square;
    ((b >> 17u64) & NOT_H_FILE) | ((b >> 15u64) & NOT_A_FILE) | ((b >> 10u64) & NOT_HG_FILE) | ((b
        >> 6u64) & NOT_AB_FILE) | ((b << 17u64) & NOT_A_FILE) | ((b << 15u64) & NOT_H_FILE) | ((b
        << 10u64) & NOT_AB_FILE) | ((b << 6u64) & NOT_HG_FILE)
}

/// Attack set of a king on `square`.
pub fn mask_king_attacks(square: usize) -> (a: u64)
    requires
        square < 64,
    ensures
        a == king_attacks_spec(square as int),
{
    let b: u64 = 1u64 << square;
    (b >> 8u64) | ((b >> 9u64) & NOT_H_FILE) | ((b >> 7u64) & NOT_A_FILE) | ((b >> 1u64)
        & NOT_H_FILE) | (b << 8u64) | ((b << 9u64) & NOT_A_FILE) | ((b << 7u64) & NOT_H_FILE) | ((b
        << 1u64) & NOT_A_FILE)
}

/// Walks one ray from rank `r`, file `f`, collecting squares up to and
/// including the first blocker or the board edge.
fn cast_ray(r: i32, f: i32, dr: i32, df: i32, block: u64) -> (a: u64)
    requires
        -1 <= dr <= 1,
        -1 <= df <= 1,
        !(dr == 0 && df == 0),
        0 <= r <= 7,
        0 <= f <= 7,
    ensures
        a == ray_attacks(r as int, f as int, dr as int, df as int, block),
    decreases
            (if dr > 0 {
                7 - r
            } else if dr < 0 {
                r as int
            } else if df > 0 {
                7 - f
            } else {
                f as int
            }),
{
    let nr: i32 = r + dr;
    let nf: i32 = f + df;
    if nr < 0 || nr > 7 || nf < 0 || nf > 7 {
        0
    } else {
        let sbit: u64 = 1u64 << ((nr * 8 + nf) as u64);
        if block & sbit != 0 {
            proof {
                crate::bits::lemma_bit_identities(sbit);
            }
            sbit
        } else {
            sbit | cast_ray(nr, nf, dr, df, block)
        }
    }
}

/// Walks one ray from rank `r`, file `f` with no blockers, stopping
/// before the board edge: one ray of a relevant-occupancy mask.
fn cast_mask_ray(r: i32, f: i32, dr: i32, df: i32) -> (a: u64)
    requires
        -1 <= dr <= 1,
        -1 <= df <= 1,
        !(dr == 0 && df == 0),
        0 <= r <= 7,
        0 <= f <= 7,
    ensures
        a == ray_mask(r as int, f as int, dr as int, df as int),
    decreases
            (if dr > 0 {
                7 - r
            } else if dr < 0 {
                r as int
            } else if df > 0 {
                7 - f
            } else {
                f as int
            }),
{
    let nr: i32 = r + dr;
    let nf: i32 = f + df;
    if nr < 0 || nr > 7 || nf < 0 || nf > 7 {
        0
    } else if nr + dr < 0 || nr + dr > 7 || nf + df < 0 || nf + df > 7 {
        0
    } else {
        (1u64 << ((nr * 8 + nf) as u64)) | cast_mask_ray(nr, nf, dr, df)
    }
}

/// The relevant-occupancy mask of a bishop on `square`.
pub fn mask_bishop_attacks(square: usize) -> (a: u64)
    requires
        square < 64,
    ensures
        a == bishop_mask_spec(square as int),
{
    let r: i32 = (square / 8) as i32;
    let f: i32 = (square % 8) as i32;
    cast_mask_ray(r, f, 1, 1) | cast_mask_ray(r, f, -1, 1) | cast_mask_ray(r, f, 1, -1)
        | cast_mask_ray(r, f, -1, -1)
}

/// The relevant-occupancy mask of a rook on `square`.
pub fn mask_rook_attacks(square: usize) -> (a: u64)
    requires
        square < 64,
    ensures
        a == rook_mask_spec(square as int),
{
    let r: i32 = (square / 8) as i32;
    let f: i32 = (square % 8) as i32;
    cast_mask_ray(r, f, 1, 0) | cast_mask_ray(r, f, -1, 0) | cast_mask_ray(r, f, 0, 1)
        | cast_mask_ray(r, f, 0, -1)
}

/// The ray-cast bishop attack set from `square` given blockers `block`.
pub fn bishop_attacks_on_the_fly(square: usize, block: u64) -> (a: u64)
    requires
        square < 64,
    ensures
        a == bishop_rays(square as int, block),
{
    let r: i32 = (square / 8) as i32;
    let f: i32 = (square % 8) as i32;
    cast_ray(r, f, 1, 1, block) | cast_ray(r, f, -1, 1, block) | cast_ray(r, f, 1, -1, block)
        | cast_ray(r, f, -1, -1, block)
}

/// `x` with its bits below position `b` cleared.
pub open spec fn bits_from(x: u64, b: int) -> u64 {
    if b <= 0 {
        x
    } else if b >= 64 {
        0
    } else {
        (x >> b as u64) << b as u64
    }
}

/// The blocker subset of `mask` selected by the low bits of `index`:
/// walking the board squares from `b` upward, each set bit of `mask`
/// consumes the next bit of `index` and contributes its square when that
/// bit is one.
pub open spec fn occupancy_projection(index: u64, mask: u64, b: int) -> u64
    decreases 64 - b,
{
    if b < 0 || b >= 64 {
        0
    } else if bit(mask, b as u64) {
        (if index & 1 == 1 {
            1u64 << b as u64
        } else {
            0u64
        }) | occupancy_projection(index >> 1u64, mask, b + 1)
    } else {
        occupancy_projection(index, mask, b + 1)
    }
}

/// The index whose projection onto `mask` is `sub`: the inverse of
/// `occupancy_projection` on subsets of `mask`.
pub open spec fn occupancy_index_of(sub: u64, mask: u64, b: int) -> nat
    decreases 64 - b,
{
    if b < 0 || b >= 64 {
        0
    } else if bit(mask, b as u64) {
        (if bit(sub, b as u64) {
            1nat
        } else {
            0nat
        }) + 2 * occupancy_index_of(sub, mask, b + 1)
    } else {
        occupancy_index_of(sub, mask, b + 1)
    }
}

/// There are at most `64 - b` mask bits at positions `b` and above.
proof fn lemma_popcount_from_bound(m: u64, b: int)
    ensures
        popcount_from(m, b) <= 64 - b || b > 64,
    decreases 64 - b,
{
    if 0 <= b < 64 {
        lemma_popcount_from_bound(m, b + 1);
    }
}

/// Positions with no mask bits contribute nothing to the projection, the
/// index, or the bit count.
proof fn lemma_projection_skip(j: u64, sub: u64, m: u64, b: int, t: int)
    requires
        0 <= b <= t <= 64,
        forall|k: int| b <= k < t ==> #[trigger] bit(m, k as u64) == false,
    ensures
        occupancy_projection(j, m, b) == occupancy_projection(j, m, t),
        occupancy_index_of(sub, m, b) == occupancy_index_of(sub, m, t),
        popcount_from(m, b) == popcount_from(m, t),
    decreases t - b,
{
    if b < t {
        lemma_projection_skip(j, sub, m, b + 1, t);
    }
}

/// A region with no mask bits left projects to the empty subset.
proof fn lemma_projection_empty(j: u64, m: u64, b: int)
    requires
        popcount_from(m, b) == 0,
    ensures
        occupancy_projection(j, m, b) == 0,
    decreases 64 - b,
{
    if 0 <= b < 64 {
        lemma_projection_empty(j, m, b + 1);
    }
}

/// A region with a mask bit left is not all zero.
proof fn lemma_popcount_from_pos(m: u64, b: int)
    requires
        0 <= b < 64,
        popcount_from(m, b) > 0,
    ensures
        bits_from(m, b) != 0,
    decreases 64 - b,
{
    if bit(m, b as u64) {
        let bu = b as u64;
        assert(m & (1u64 << bu) != 0 && bu < 64 ==> (if bu <= 0 {
            m
        } else {
            (m >> bu) << bu
        }) != 0) by (bit_vector);
    } else {
        if b == 63 {
            assert(popcount_from(m, 64) == 0);
        } else {
            lemma_popcount_from_pos(m, b + 1);
            let bu = b as u64;
            let bu1 = (b + 1) as u64;
            assert((m >> bu1) << bu1 != 0 && bu1 == bu + 1 && bu < 63 ==> (if bu <= 0 {
                m
            } else {
                (m >> bu) << bu
            }) != 0) by (bit_vector);
        }
    }
}

/// The index of a subset fits in the table of its mask: it is below two
/// to the power of the number of relevant bits.
proof fn lemma_index_of_bound(sub: u64, m: u64, b: int)
    ensures
        occupancy_index_of(sub, m, b) < pow2(popcount_from(m, b)),
    decreases 64 - b,
{
    if b < 0 || b >= 64 {
        lemma2_to64();
    } else {
        lemma_index_of_bound(sub, m, b + 1);
        if bit(m, b as u64) {
            lemma_pow2_adds(1, popcount_from(m, b + 1));
            lemma2_to64();
        }
    }
}

/// Projecting the index of a subset of `mask` returns that subset: the
/// projection is onto for subsets, so every masked occupancy has a table
/// slot of its own.
proof fn lemma_projection_roundtrip(sub: u64, m: u64, b: int)
    requires
        sub & m == sub,
        0 <= b,
    ensures
        occupancy_projection(occupancy_index_of(sub, m, b) as u64, m, b) == bits_from(sub, b),
    decreases 64 - b,
{
    let i_n = occupancy_index_of(sub, m, b);
    lemma_index_of_bound(sub, m, b);
    lemma_popcount_from_bound(m, b);
    if b >= 64 {
        // both sides are zero
    } else {
        let bu = b as u64;
        let bu1 = (b + 1) as u64;
        lemma_projection_roundtrip(sub, m, b + 1);
        let i_rest = occupancy_index_of(sub, m, b + 1);
        lemma_index_of_bound(sub, m, b + 1);
        lemma_popcount_from_bound(m, b + 1);
        if popcount_from(m, b + 1) <= 63 {
            lemma_pow2_strictly_increases(popcount_from(m, b + 1), 64);
        }
        lemma2_to64_rest();
        assert(i_rest < pow2(64));
        assert(pow2(63) == 0x8000_0000_0000_0000) by {
            lemma2_to64_rest();
        }
        if popcount_from(m, b + 1) < 63 {
            lemma_pow2_strictly_increases(popcount_from(m, b + 1), 63);
        }
        assert(i_rest < pow2(63));
        let iru = i_rest as u64;
        if bit(m, bu) {
            let s: u64 = if bit(sub, bu) {
                1
            } else {
                0
            };
            let iu = i_n as u64;
            assert(iu == s + 2 * iru);
            assert(iu & 1 == s && iu >> 1u64 == iru) by (bit_vector)
                requires
                    s <= 1,
                    iru < 0x8000_0000_0000_0000u64,
                    iu == s + 2 * iru,
            ;
            if b == 63 {
                assert(occupancy_projection(iru, m, 64) == 0);
                assert(((if s == 1 {
                    1u64 << 63u64
                } else {
                    0u64
                }) | 0u64) == (sub >> 63u64) << 63u64) by (bit_vector)
                    requires
                        s == (if sub & (1u64 << 63u64) != 0 {
                            1u64
                        } else {
                            0u64
                        }),
                ;
            } else {
                assert(((if s == 1 {
                    1u64 << bu
                } else {
                    0u64
                }) | ((sub >> bu1) << bu1)) == (if bu == 0 {
                    sub
                } else {
                    (sub >> bu) << bu
                })) by (bit_vector)
                    requires
                        bu < 63,
                        bu1 == bu + 1,
                        s == (if sub & (1u64 << bu) != 0 {
                            1u64
                        } else {
                            0u64
                        }),
                ;
            }
        } else {
            assert(sub & (1u64 << bu) == 0) by (bit_vector)
                requires
                    sub & m == sub,
                    m & (1u64 << bu) == 0,
                    bu < 64,
            ;
            if b == 63 {
                assert(0u64 == (sub >> 63u64) << 63u64) by (bit_vector)
                    requires
                        sub & (1u64 << 63u64) == 0,
                ;
            } else {
                assert(((sub >> bu1) << bu1) == (if bu == 0 {
                    sub
                } else {
                    (sub >> bu) << bu
                })) by (bit_vector)
                    requires
                        bu < 63,
                        bu1 == bu + 1,
                        sub & (1u64 << bu) == 0,
                ;
            }
        }
    }
}

/// Enumerates blocker subset number `index` of `attack_mask`: the bits of
/// `index` decide, square by square, which relevant squares are occupied.
pub fn set_occupancy(index: i32, bits_in_mask: u32, attack_mask: u64) -> (occupancy: u64)
    requires
        index >= 0,
        bits_in_mask == popcount(attack_mask),
    ensures
        occupancy == occupancy_projection(index as u64, attack_mask, 0),
{
    let idx: u64 = index as u64;
    let mut occupancy: u64 = 0;
    let mut mask_copy: u64 = attack_mask;
    let mut count: u32 = 0;
    let ghost mut b: int = 0;
    proof {
        lemma_popcount_from_bound(attack_mask, 0);
        crate::bits::lemma_bit_identities(idx);
        crate::bits::lemma_bit_identities(occupancy_projection(idx, attack_mask, 0));
    }
    while count < bits_in_mask
        invariant
            idx == index as u64,
            bits_in_mask == popcount(attack_mask),
            bits_in_mask <= 64,
            0 <= b <= 64,
            count <= bits_in_mask,
            mask_copy == bits_from(attack_mask, b),
            count + popcount_from(attack_mask, b) == bits_in_mask,
            occupancy_projection(idx, attack_mask, 0) == occupancy | occupancy_projection(
                idx >> count as u64,
                attack_mask,
                b,
            ),
        decreases bits_in_mask - count,
    {
        proof {
            lemma_popcount_from_bound(attack_mask, b);
            assert(popcount_from(attack_mask, b) > 0);
            lemma_popcount_from_pos(attack_mask, b);
            axiom_u64_trailing_zeros(mask_copy);
        }
        let square = mask_copy.trailing_zeros() as usize;
        let ghost old_b = b;
        let ghost j = idx >> count as u64;
        let ghost occ_before = occupancy;
        proof {
            let t = u64_trailing_zeros(mask_copy) as u64;
            let bu = old_b as u64;
            assert(t >= bu && attack_mask & (1u64 << t) != 0) by (bit_vector)
                requires
                    bu < 64,
                    t < 64,
                    mask_copy == (if bu == 0 {
                        attack_mask
                    } else {
                        (attack_mask >> bu) << bu
                    }),
                    (mask_copy >> t) & 1u64 == 1u64,
            ;
            assert forall|k: int| old_b <= k < t implies #[trigger] bit(attack_mask, k as u64) == false by {
                let ku = k as u64;
                assert((mask_copy >> ku) & 1u64 == 0u64);
                assert(attack_mask & (1u64 << ku) == 0) by (bit_vector)
                    requires
                        bu <= ku < 64,
                        bu < 64,
                        mask_copy == (if bu == 0 {
                            attack_mask
                        } else {
                            (attack_mask >> bu) << bu
                        }),
                        (mask_copy >> ku) & 1u64 == 0u64,
                ;
            }
            lemma_projection_skip(j, 0, attack_mask, old_b, t as int);
            b = t as int;
        }
        let ghost mc0 = mask_copy;
        pop_bit(&mut mask_copy, square);
        if idx & (1u64 << count as u64) != 0 {
            occupancy |= 1u64 << square;
        }
        proof {
            let tu = b as u64;
            let bu = old_b as u64;
            assert(bit(attack_mask, tu));
            // the bit of idx tested in exec is bit 0 of the remaining index
            let c1 = (count + 1) as u64;
            assert(((idx & (1u64 << count as u64) != 0) == (j & 1 == 1)) && (idx >> c1) == j
                >> 1u64) by (bit_vector)
                requires
                    count < 64,
                    c1 == count + 1,
                    j == idx >> count as u64,
            ;
            // the popped copy holds exactly the mask bits above the one consumed
            if b == 63 {
                assert(mask_copy == 0) by (bit_vector)
                    requires
                        mask_copy == mc0 & !(1u64 << 63u64),
                        mc0 << 1u64 == 0,
                ;
            } else {
                let tu1 = (b + 1) as u64;
                let t64 = (64 - b) as u64;
                assert(mask_copy == (mc0 >> tu1) << tu1) by (bit_vector)
                    requires
                        tu < 63,
                        tu1 == tu + 1,
                        t64 == 64 - tu,
                        mask_copy == mc0 & !(1u64 << tu),
                        mc0 << t64 == 0,
                        (mc0 >> tu) & 1u64 == 1u64,
                ;
                let hb: u64 = !(((1u64 << bu) - 1) as u64);
                let ht: u64 = !(((1u64 << tu1) - 1) as u64);
                assert(mc0 == attack_mask & hb) by (bit_vector)
                    requires
                        bu < 64,
                        hb == !(((1u64 << bu) - 1) as u64),
                        mc0 == (if bu == 0 {
                            attack_mask
                        } else {
                            (attack_mask >> bu) << bu
                        }),
                ;
                assert(hb & ht == ht && (attack_mask & hb) & ht == attack_mask & ht)
                    by (bit_vector)
                    requires
                        bu <= tu1 < 64,
                        hb == !(((1u64 << bu) - 1) as u64),
                        ht == !(((1u64 << tu1) - 1) as u64),
                ;
                assert((mc0 >> tu1) << tu1 == mc0 & ht && (attack_mask >> tu1) << tu1
                    == attack_mask & ht) by (bit_vector)
                    requires
                        tu1 < 64,
                        ht == !(((1u64 << tu1) - 1) as u64),
                ;
            }
            // fold the consumed square into the accumulated occupancy
            let added_sq: u64 = if j & 1 == 1 {
                1u64 << tu
            } else {
                0u64
            };
            let rest = occupancy_projection(j >> 1u64, attack_mask, b + 1);
            assert(occupancy == occ_before | added_sq && occ_before | (added_sq | rest) == (
            occ_before | added_sq) | rest) by (bit_vector)
                requires
                    tu < 64,
                    added_sq == (if j & 1 == 1 {
                        1u64 << tu
                    } else {
                        0u64
                    }),
                    occupancy == (if j & 1 == 1 {
                        occ_before | (1u64 << tu)
                    } else {
                        occ_before
                    }),
            ;
            b = b + 1;
        }
        count = count + 1;
    }
    proof {
        lemma_projection_empty(idx >> count as u64, attack_mask, b);
        crate::bits::lemma_bit_identities(occupancy);
    }
    occupancy
}

/// The ray-cast rook attack set from `square` given blockers `block`.
pub fn rook_attacks_on_the_fly(square: usize, block: u64) -> (a: u64)
    requires
        square < 64,
    ensures
        a == rook_rays(square as int, block),
{
    let r: i32 = (square / 8) as i32;
    let f: i32 = (square % 8) as i32;
    cast_ray(r, f, 1, 0, block) | cast_ray(r, f, -1, 0, block) | cast_ray(r, f, 0, 1, block)
        | cast_ray(r, f, 0, -1, block)
}

/// The table slot of one blocker subset: the wrapping multiply by the
/// magic constant, shifted down to the relevant-bit count.
pub open spec fn magic_index(sub: u64, magic: u64, bits: u32) -> u64
    recommends
        1 <= bits <= 12,
{
    vstd::wrapping::u64_specs::wrapping_mul(sub, magic) >> ((64 - bits) as u64)
}

/// The slider attack set by piece kind: bishop rays or rook rays.
pub open spec fn rays_of(bishop: bool, sq: int, occ: u64) -> u64 {
    if bishop {
        bishop_rays(sq, occ)
    } else {
        rook_rays(sq, occ)
    }
}

/// The relevant-occupancy mask by piece kind.
pub open spec fn slider_mask_of(bishop: bool, sq: int) -> u64 {
    if bishop {
        bishop_mask_spec(sq)
    } else {
        rook_mask_spec(sq)
    }
}

/// Table entries per square: 512 bishop slots, 4096 rook slots.
pub open spec fn slots_per_square(bishop: bool) -> int {
    if bishop {
        512
    } else {
        4096
    }
}

/// A magic index stays below the table size of its square.
proof fn lemma_magic_index_bound(sub: u64, magic: u64, bits: u32)
    requires
        1 <= bits <= 12,
    ensures
        magic_index(sub, magic, bits) < (1u64 << bits as u64),
        bits <= 9 ==> magic_index(sub, magic, bits) < 512,
        magic_index(sub, magic, bits) < 4096,
{
    let m = vstd::wrapping::u64_specs::wrapping_mul(sub, magic);
    let sh = (64 - bits) as u64;
    assert((m >> sh) < (1u64 << ((64 - sh) as u64)) && ((64 - sh) <= 9 ==> (m >> sh) < 512) && (m
        >> sh) < 4096) by (bit_vector)
        requires
            52 <= sh < 64,
    ;
}

/// One filled slot of a slider table: the subset's slot is marked written
/// and holds the ray-cast attack set.
pub open spec fn slot_filled(
    t: Seq<u64>,
    w: Seq<bool>,
    base: int,
    sub: u64,
    magic: u64,
    bits: u32,
    bishop: bool,
    sq: int,
) -> bool {
    &&& w[base + magic_index(sub, magic, bits) as int] == true
    &&& t[base + magic_index(sub, magic, bits) as int] == rays_of(bishop, sq, sub)
}

/// One finished square of a slider table: every blocker subset of the
/// square's mask finds its ray-cast attack set at its magic slot.
pub open spec fn square_done(t: Seq<u64>, sq: int, magic: u64, bits: u32, bishop: bool) -> bool {
    forall|sub: u64|
        sub & slider_mask_of(bishop, sq) == sub ==> t[sq * slots_per_square(bishop) + magic_index(
            sub,
            magic,
            bits,
        ) as int] == rays_of(bishop, sq, sub)
}

/// Fills the slider table slots of one square by enumerating every
/// blocker subset of its mask, refusing a magic constant that maps two
/// subsets with different attack sets to one slot.
fn fill_slider_square(
    table: &mut Vec<u64>,
    written: &mut Vec<bool>,
    square: usize,
    mask: u64,
    magic: u64,
    bits: u32,
    bishop: bool,
) -> (ok: bool)
    requires
        old(table)@.len() == 64 * slots_per_square(bishop),
        old(written)@.len() == 64 * slots_per_square(bishop),
        square < 64,
        bits == popcount(mask),
        1 <= bits,
        bishop ==> bits <= 9,
        !bishop ==> bits <= 12,
        mask == slider_mask_of(bishop, square as int),
        forall|k: int|
            square * slots_per_square(bishop) <= k < 64 * slots_per_square(bishop) ==> old(
                written,
            )@[k] == false,
    ensures
        final(table)@.len() == old(table)@.len(),
        final(written)@.len() == old(written)@.len(),
        forall|k: int|
            0 <= k < old(table)@.len() && !(square * slots_per_square(bishop) <= k < square
                * slots_per_square(bishop) + slots_per_square(bishop)) ==> final(table)@[k] == old(
                table,
            )@[k] && final(written)@[k] == old(written)@[k],
        ok ==> square_done(final(table)@, square as int, magic, bits, bishop),
{
    let ghost per = slots_per_square(bishop);
    let base: usize = square * (if bishop {
        512
    } else {
        4096
    });
    let total: u64 = 1u64 << bits;
    proof {
        assert((1u64 << bits) <= 4096) by (bit_vector)
            requires
                bits <= 12,
        ;
    }
    let mut index: u64 = 0;
    while index < total
        invariant
            table@.len() == 64 * per,
            written@.len() == 64 * per,
            old(table)@.len() == 64 * per,
            old(written)@.len() == 64 * per,
            square < 64,
            per == slots_per_square(bishop),
            base == square * per,
            bits == popcount(mask),
            1 <= bits,
            bishop ==> bits <= 9,
            !bishop ==> bits <= 12,
            mask == slider_mask_of(bishop, square as int),
            total == (1u64 << bits as u64),
            total <= 4096,
            index <= total,
            forall|k: int|
                0 <= k < 64 * per && !(square * per <= k < square * per + per) ==> table@[k] == old(
                    table,
                )@[k] && written@[k] == old(written)@[k],
            forall|i: u64|
                i < index ==> #[trigger] slot_filled(
                    table@,
                    written@,
                    square * per,
                    occupancy_projection(i, mask, 0),
                    magic,
                    bits,
                    bishop,
                    square as int,
                ),
        decreases total - index,
    {
        proof {
            assert((index as i32) as u64 == index) by (bit_vector)
                requires
                    index < 4096,
            ;
        }
        let occ = set_occupancy(index as i32, bits, mask);
        let att = if bishop {
            bishop_attacks_on_the_fly(square, occ)
        } else {
            rook_attacks_on_the_fly(square, occ)
        };
        proof {
            lemma_magic_index_bound(occ, magic, bits);
        }
        let shifted: u64 = occ.wrapping_mul(magic) >> ((64 - bits) as u64);
        let slot: usize = base + (shifted as usize);
        let ghost t0 = table@;
        let ghost w0 = written@;
        let was_written = written[slot];
        if was_written {
            if table[slot] != att {
                return false;
            }
        } else {
            written[slot] = true;
            table[slot] = att;
        }
        proof {
            let sl = square * per + magic_index(occ, magic, bits) as int;
            assert(slot == sl);
            assert(occ == occupancy_projection(index, mask, 0));
            assert(written@[sl] == true);
            assert(table@[sl] == rays_of(bishop, square as int, occ));
            assert forall|i: u64| i < index + 1 implies #[trigger] slot_filled(
                table@,
                written@,
                square * per,
                occupancy_projection(i, mask, 0),
                magic,
                bits,
                bishop,
                square as int,
            ) by {
                if i < index {
                    assert(slot_filled(
                        t0,
                        w0,
                        square * per,
                        occupancy_projection(i, mask, 0),
                        magic,
                        bits,
                        bishop,
                        square as int,
                    ));
                    lemma_magic_index_bound(occupancy_projection(i, mask, 0), magic, bits);
                    let sli = square * per + magic_index(
                        occupancy_projection(i, mask, 0),
                        magic,
                        bits,
                    ) as int;
                    if !was_written {
                        assert(w0[sli] == true);
                        assert(sli != sl);
                    }
                    assert(written@[sli] == true);
                    assert(table@[sli] == t0[sli]);
                } else {
                    assert(occupancy_projection(i, mask, 0) == occ);
                    assert(written@[sl] == true);
                    assert(table@[sl] == rays_of(bishop, square as int, occ));
                }
            }
        }
        index = index + 1;
    }
    proof {
        assert forall|sub: u64| sub & mask == sub implies table@[square * per + magic_index(
            sub,
            magic,
            bits,
        ) as int] == rays_of(bishop, square as int, sub) by {
            lemma_index_of_bound(sub, mask, 0);
            lemma_projection_roundtrip(sub, mask, 0);
            lemma_magic_index_bound(sub, magic, bits);
            lemma2_to64();
            if bits < 12 {
                lemma_pow2_strictly_increases(bits as nat, 12);
            }
            vstd::bits::lemma_u64_shl_is_mul(1u64, bits as u64);
            let i_n = occupancy_index_of(sub, mask, 0);
            assert(pow2(popcount(mask)) == total);
            assert(i_n < total);
            let iu = i_n as u64;
            assert(slot_filled(
                table@,
                written@,
                square * per,
                occupancy_projection(iu, mask, 0),
                magic,
                bits,
                bishop,
                square as int,
            ));
            assert(occupancy_projection(iu, mask, 0) == sub);
        }
    }
    true
}

/// Fills the slider tables of every square for one piece kind.
fn fill_slider_tables(
    table: &mut Vec<u64>,
    written: &mut Vec<bool>,
    masks: &[u64; 64],
    magics: &[u64; 64],
    bitcounts: &[u32; 64],
    bishop: bool,
) -> (ok: bool)
    requires
        old(table)@.len() == 64 * slots_per_square(bishop),
        old(written)@.len() == 64 * slots_per_square(bishop),
        forall|k: int| 0 <= k < old(written)@.len() ==> old(written)@[k] == false,
        forall|s: int|
            0 <= s < 64 ==> {
                &&& #[trigger] masks@[s] == slider_mask_of(bishop, s)
                &&& bitcounts@[s] == popcount(masks@[s])
                &&& 1 <= bitcounts@[s]
                &&& (bishop ==> bitcounts@[s] <= 9)
                &&& (!bishop ==> bitcounts@[s] <= 12)
            },
    ensures
        final(table)@.len() == old(table)@.len(),
        ok ==> forall|s: int|
            0 <= s < 64 ==> #[trigger] square_done(
                final(table)@,
                s,
                magics@[s],
                bitcounts@[s],
                bishop,
            ),
{
    let ghost per = slots_per_square(bishop);
    let mut sq: usize = 0;
    while sq < 64
        invariant
            table@.len() == 64 * per,
            written@.len() == 64 * per,
            old(table)@.len() == 64 * per,
            old(written)@.len() == 64 * per,
            per == slots_per_square(bishop),
            sq <= 64,
            forall|s: int|
                0 <= s < 64 ==> {
                    &&& #[trigger] masks@[s] == slider_mask_of(bishop, s)
                    &&& bitcounts@[s] == popcount(masks@[s])
                    &&& 1 <= bitcounts@[s]
                    &&& (bishop ==> bitcounts@[s] <= 9)
                    &&& (!bishop ==> bitcounts@[s] <= 12)
                },
            forall|s: int|
                0 <= s < sq ==> #[trigger] square_done(table@, s, magics@[s], bitcounts@[s], bishop),
            forall|k: int| sq * per <= k < written@.len() ==> written@[k] == false,
        decreases 64 - sq,
    {
        let ghost tp = table@;
        let ghost wp = written@;
        let ok = fill_slider_square(
            table,
            written,
            sq,
            masks[sq],
            magics[sq],
            bitcounts[sq],
            bishop,
        );
        if !ok {
            return false;
        }
        proof {
            assert forall|s: int| 0 <= s < sq + 1 implies #[trigger] square_done(
                table@,
                s,
                magics@[s],
                bitcounts@[s],
                bishop,
            ) by {
                if s < sq {
                    assert(square_done(tp, s, magics@[s], bitcounts@[s], bishop));
                    assert forall|sub: u64| sub & slider_mask_of(bishop, s) == sub implies table@[s
                        * slots_per_square(bishop) + magic_index(
                        sub,
                        magics@[s],
                        bitcounts@[s],
                    ) as int] == rays_of(bishop, s, sub) by {
                        assert(masks@[s] == slider_mask_of(bishop, s));
                        lemma_magic_index_bound(sub, magics@[s], bitcounts@[s]);
                        let sli = s * per + magic_index(sub, magics@[s], bitcounts@[s]) as int;
                        assert(tp[sli] == rays_of(bishop, s, sub));
                        assert(sli < sq * per);
                        assert(table@[sli] == tp[sli]);
                    }
                }
            }
            assert forall|k: int| (sq + 1) * per <= k < written@.len() implies written@[k]
                == false by {
                assert(written@[k] == wp[k]);
            }
        }
        sq += 1;
    }
    true
}

/// The one-time attack tables: fixed leaper attacks per square, and the
/// magic-bitboard tables for the sliding pieces. Immutable once built.
pub struct AttackTables {
    pawn: [u64; 128],
    knight: [u64; 64],
    king: [u64; 64],
    bishop_masks: [u64; 64],
    rook_masks: [u64; 64],
    bishop_magics: [u64; 64],
    rook_magics: [u64; 64],
    bishop_bits: [u32; 64],
    rook_bits: [u32; 64],
    bishop_attacks: Vec<u64>,
    rook_attacks: Vec<u64>,
}

impl AttackTables {
    /// The leaper entries, masks, magic metadata of one square are exact.
    pub closed spec fn square_tables_ok(self, s: int) -> bool {
        &&& self.pawn[s] == pawn_attacks_spec(0, s)
        &&& self.pawn[64 + s] == pawn_attacks_spec(1, s)
        &&& self.knight[s] == knight_attacks_spec(s)
        &&& self.king[s] == king_attacks_spec(s)
        &&& self.bishop_masks[s] == bishop_mask_spec(s)
        &&& self.rook_masks[s] == rook_mask_spec(s)
        &&& self.bishop_bits[s] == popcount(bishop_mask_spec(s))
        &&& 1 <= self.bishop_bits[s] <= 9
        &&& self.rook_bits[s] == popcount(rook_mask_spec(s))
        &&& 1 <= self.rook_bits[s] <= 12
    }

    /// Well-formedness: every table entry is the exact attack set of its
    /// square, and every slider slot holds the ray cast of its subset.
    pub closed spec fn wf(self) -> bool {
        &&& self.bishop_attacks@.len() == 64 * 512
        &&& self.rook_attacks@.len() == 64 * 4096
        &&& forall|s: int| 0 <= s < 64 ==> #[trigger] self.square_tables_ok(s)
        &&& forall|s: int|
            0 <= s < 64 ==> #[trigger] square_done(
                self.bishop_attacks@,
                s,
                self.bishop_magics[s],
                self.bishop_bits[s],
                true,
            )
        &&& forall|s: int|
            0 <= s < 64 ==> #[trigger] square_done(
                self.rook_attacks@,
                s,
                self.rook_magics[s],
                self.rook_bits[s],
                false,
            )
    }
}

/// A vector of `n` zero entries.
fn zero_u64_vec(n: usize) -> (v: Vec<u64>)
    ensures
        v@.len() == n,
{
    let mut v: Vec<u64> = Vec::new();
    let mut i: usize = 0;
    while i < n
        invariant
            v@.len() == i,
            i <= n,
        decreases n - i,
    {
        v.push(0);
        i += 1;
    }
    v
}

/// A vector of `n` false flags.
fn false_vec(n: usize) -> (v: Vec<bool>)
    ensures
        v@.len() == n,
        forall|k: int| 0 <= k < n ==> v@[k] == false,
    decreases n,
{
    let mut v: Vec<bool> = Vec::new();
    let mut i: usize = 0;
    while i < n
        invariant
            v@.len() == i,
            i <= n,
            forall|k: int| 0 <= k < i ==> v@[k] == false,
        decreases n - i,
    {
        v.push(false);
        i += 1;
    }
    v
}

/// Builds every attack table once, before first use. Returns nothing if a
/// magic constant maps two blocker subsets with different attack sets to
/// one slot, or a relevant-bit count falls outside its table size; the
/// fixed constants below never do.
pub fn init_attack_tables() -> (r: Option<AttackTables>)
    ensures
        r matches Some(t) ==> t.wf(),
{
    let bishop_magics: [u64; 64] = [
        0x40040844404084, 0x2004208a004208, 0x10190041080202, 0x108060845042010,
        0x581104180800210, 0x2112080446200010, 0x1080820820060210, 0x3c0808410220200,
        0x4050404440404, 0x21001420088, 0x24d0080801082102, 0x1020a0a020400, 0x40308200402,
        0x4011002100800, 0x401484104104005, 0x801010402020200, 0x400210c3880100, 0x404022024108200,
        0x810018200204102, 0x4002801a02003, 0x85040820080400, 0x810102c808880400, 0xe900410884800,
        0x8002020480840102, 0x220200865090201, 0x2010100a02021202, 0x152048408022401,
        0x20080002081110, 0x4001001021004000, 0x800040400a011002, 0xe4004081011002,
        0x1c004001012080, 0x8004200962a00220, 0x8422100208500202, 0x2000402200300c08,
        0x8646020080080080, 0x80020a0200100808, 0x2010004880111000, 0x623000a080011400,
        0x42008c0340209202, 0x209188240001000, 0x400408a884001800, 0x110400a6080400,
        0x1840060a44020800, 0x90080104000041, 0x201011000808101, 0x1a2208080504f080,
        0x8012020600211212, 0x500861011240000, 0x180806108200800, 0x4000020e01040044,
        0x300000261044000a, 0x802241102020002, 0x20906061210001, 0x5a84841004010310,
        0x4010801011c04, 0xa010109502200, 0x4a02012000, 0x500201010098b028, 0x8040002811040900,
        0x28000010020204, 0x6000020202d0240, 0x8918844842082200, 0x4010011029020020,
    ];
    let rook_magics: [u64; 64] = [
        0x8a80104000800020, 0x140002000100040, 0x2801880a0017001, 0x100081001000420,
        0x200020010080420, 0x3001c0002010008, 0x8480008002000100, 0x2080088004402900,
        0x800098204000, 0x2024401000200040, 0x100802000801000, 0x120800800801000,
        0x208808088000400, 0x2802200800400, 0x2200800100020080, 0x801000060821100,
        0x80044006422000, 0x100808020004000, 0x12108a0010204200, 0x140848010000802,
        0x481828014002800, 0x8094004002004100, 0x4010040010010802, 0x20008806104,
        0x100400080208000, 0x2040002120081000, 0x21200680100081, 0x20100080080080,
        0x2000a00200410, 0x20080800400, 0x80088400100102, 0x80004600042881, 0x4040008040800020,
        0x440003000200801, 0x4200011004500, 0x188020010100100, 0x14800401802800,
        0x2080040080800200, 0x124080204001001, 0x200046502000484, 0x480400080088020,
        0x1000422010034000, 0x30200100110040, 0x100021010009, 0x2002080100110004,
        0x202008004008002, 0x20020004010100, 0x2048440040820001, 0x101002200408200,
        0x40802000401080, 0x4008142004410100, 0x2060820c0120200, 0x1001004080100,
        0x20c020080040080, 0x2935610830022400, 0x44440041009200, 0x280001040802101,
        0x2100190040002085, 0x80c0084100102001, 0x4024081001000421, 0x20030a0244872,
        0x12001008414402, 0x2006104900a0804, 0x1004081002402,
    ];
    let mut pawn: [u64; 128] = [0u64; 128];
    let mut knight: [u64; 64] = [0u64; 64];
    let mut king: [u64; 64] = [0u64; 64];
    let mut bishop_masks: [u64; 64] = [0u64; 64];
    let mut rook_masks: [u64; 64] = [0u64; 64];
    let mut bishop_bits: [u32; 64] = [0u32; 64];
    let mut rook_bits: [u32; 64] = [0u32; 64];
    let mut square: usize = 0;
    while square < 64
        invariant
            square <= 64,
            forall|s: int| 0 <= s < square ==> #[trigger] pawn@[s] == pawn_attacks_spec(0, s),
            forall|s: int| 0 <= s < square ==> #[trigger] pawn@[64 + s] == pawn_attacks_spec(1, s),
            forall|s: int| 0 <= s < square ==> #[trigger] knight@[s] == knight_attacks_spec(s),
            forall|s: int| 0 <= s < square ==> #[trigger] king@[s] == king_attacks_spec(s),
            forall|s: int|
                0 <= s < square ==> #[trigger] bishop_masks@[s] == bishop_mask_spec(s),
            forall|s: int| 0 <= s < square ==> #[trigger] rook_masks@[s] == rook_mask_spec(s),
            forall|s: int|
                0 <= s < square ==> (#[trigger] bishop_bits@[s]) == popcount(bishop_mask_spec(s))
                    && 1 <= bishop_bits@[s] <= 9,
            forall|s: int|
                0 <= s < square ==> (#[trigger] rook_bits@[s]) == popcount(rook_mask_spec(s)) && 1
                    <= rook_bits@[s] <= 12,
        decreases 64 - square,
    {
        pawn[square] = mask_pawn_attacks(0, square);
        pawn[64 + square] = mask_pawn_attacks(1, square);
        knight[square] = mask_knight_attacks(square);
        king[square] = mask_king_attacks(square);
        let bm = mask_bishop_attacks(square);
        let rm = mask_rook_attacks(square);
        bishop_masks[square] = bm;
        rook_masks[square] = rm;
        let bb = count_bits(bm);
        let rb = count_bits(rm);
        if bb < 1 || bb > 9 || rb < 1 || rb > 12 {
            return None;
        }
        bishop_bits[square] = bb;
        rook_bits[square] = rb;
        square += 1;
    }
    let mut bishop_attacks = zero_u64_vec(64 * 512);
    let mut bishop_written = false_vec(64 * 512);
    let ok_b = fill_slider_tables(
        &mut bishop_attacks,
        &mut bishop_written,
        &bishop_masks,
        &bishop_magics,
        &bishop_bits,
        true,
    );
    if !ok_b {
        return None;
    }
    let mut rook_attacks = zero_u64_vec(64 * 4096);
    let mut rook_written = false_vec(64 * 4096);
    let ok_r = fill_slider_tables(
        &mut rook_attacks,
        &mut rook_written,
        &rook_masks,
        &rook_magics,
        &rook_bits,
        false,
    );
    if !ok_r {
        return None;
    }
    let t = AttackTables {
        pawn,
        knight,
        king,
        bishop_masks,
        rook_masks,
        bishop_magics,
        rook_magics,
        bishop_bits,
        rook_bits,
        bishop_attacks,
        rook_attacks,
    };
    Some(t)
}

/// Looks up the pawn attack set of `side` from `square`.
pub fn get_pawn_attacks(tables: &AttackTables, side: usize, square: usize) -> (a: u64)
    requires
        tables.wf(),
        side < 2,
        square < 64,
    ensures
        a == pawn_attacks_spec(side as int, square as int),
{
    proof {
        assert(tables.square_tables_ok(square as int));
    }
    tables.pawn[side * 64 + square]
}

/// Looks up the knight attack set from `square`.
pub fn get_knight_attacks(tables: &AttackTables, square: usize) -> (a: u64)
    requires
        tables.wf(),
        square < 64,
    ensures
        a == knight_attacks_spec(square as int),
{
    proof {
        assert(tables.square_tables_ok(square as int));
    }
    tables.knight[square]
}

/// Looks up the king attack set from `square`.
pub fn get_king_attacks(tables: &AttackTables, square: usize) -> (a: u64)
    requires
        tables.wf(),
        square < 64,
    ensures
        a == king_attacks_spec(square as int),
{
    proof {
        assert(tables.square_tables_ok(square as int));
    }
    tables.king[square]
}

/// The magic-table bishop lookup: mask the occupancy, multiply by the
/// magic constant, shift, and index.
pub fn get_bishop_attacks(tables: &AttackTables, square: usize, occupancy: u64) -> (a: u64)
    requires
        tables.wf(),
        square < 64,
    ensures
        a == bishop_attacks_spec(square as int, occupancy),
{
    proof {
        assert(tables.square_tables_ok(square as int));
    }
    let mask = tables.bishop_masks[square];
    let masked = occupancy & mask;
    let bits = tables.bishop_bits[square];
    proof {
        crate::bits::lemma_mask_idem(occupancy, mask);
        lemma_magic_index_bound(masked, tables.bishop_magics@[square as int], bits);
        assert(square_done(
            tables.bishop_attacks@,
            square as int,
            tables.bishop_magics[square as int],
            tables.bishop_bits[square as int],
            true,
        ));
    }
    let shifted: u64 = masked.wrapping_mul(tables.bishop_magics[square]) >> ((64 - bits) as u64);
    proof {
        assert(shifted == magic_index(masked, tables.bishop_magics[square as int], bits));
        assert(tables.bishop_attacks@[square as int * slots_per_square(true) + magic_index(
            masked,
            tables.bishop_magics[square as int],
            tables.bishop_bits[square as int],
        ) as int] == rays_of(true, square as int, masked));
    }
    tables.bishop_attacks[square * 512 + (shifted as usize)]
}

/// The magic-table rook lookup.
pub fn get_rook_attacks(tables: &AttackTables, square: usize, occupancy: u64) -> (a: u64)
    requires
        tables.wf(),
        square < 64,
    ensures
        a == rook_attacks_spec(square as int, occupancy),
{
    proof {
        assert(tables.square_tables_ok(square as int));
    }
    let mask = tables.rook_masks[square];
    let masked = occupancy & mask;
    let bits = tables.rook_bits[square];
    proof {
        crate::bits::lemma_mask_idem(occupancy, mask);
        lemma_magic_index_bound(masked, tables.rook_magics@[square as int], bits);
        assert(square_done(
            tables.rook_attacks@,
            square as int,
            tables.rook_magics[square as int],
            tables.rook_bits[square as int],
            false,
        ));
    }
    let shifted: u64 = masked.wrapping_mul(tables.rook_magics[square]) >> ((64 - bits) as u64);
    proof {
        assert(shifted == magic_index(masked, tables.rook_magics[square as int], bits));
        assert(tables.rook_attacks@[square as int * slots_per_square(false) + magic_index(
            masked,
            tables.rook_magics[square as int],
            tables.rook_bits[square as int],
        ) as int] == rays_of(false, square as int, masked));
    }
    tables.rook_attacks[square * 4096 + (shifted as usize)]
}

/// The queen attack set: the union of the rook and bishop lookups.
pub fn get_queen_attacks(tables: &AttackTables, square: usize, occupancy: u64) -> (a: u64)
    requires
        tables.wf(),
        square < 64,
    ensures
        a == queen_attacks_spec(square as int, occupancy),
{
    get_rook_attacks(tables, square, occupancy) | get_bishop_attacks(tables, square, occupancy)
}

/// Law: for every square, the magic-table lookup under an empty global
/// occupancy equals the directly ray-cast attack set with no blockers,
/// for rook and bishop alike.
pub proof fn lemma_empty_occupancy_lookup(sq: int)
    requires
        0 <= sq < 64,
    ensures
        rook_attacks_spec(sq, 0) == rook_rays(sq, 0),
        bishop_attacks_spec(sq, 0) == bishop_rays(sq, 0),
{
    crate::bits::lemma_bit_identities(rook_mask_spec(sq));
    crate::bits::lemma_bit_identities(bishop_mask_spec(sq));
}

} // verus!
