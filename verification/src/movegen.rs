//! Pseudo-legal move generation and the make-move state transition with
//! its legality filter.

use vstd::prelude::*;
use vstd::std_specs::bits::{u64_trailing_zeros, axiom_u64_trailing_zeros};
use crate::bits::bit;
use crate::board::{BoardPosition, Move, Piece, piece_index, encode_move};
use crate::attacks::{
    AttackTables,
    NOT_A_FILE,
    NOT_H_FILE,
    pawn_attacks_spec,
    knight_attacks_spec,
    king_attacks_spec,
    bishop_attacks_spec,
    rook_attacks_spec,
    queen_attacks_spec,
    get_pawn_attacks,
    get_knight_attacks,
    get_king_attacks,
    get_bishop_attacks,
    get_rook_attacks,
    get_queen_attacks,
};

verus! {

/// The aggregate occupancies are the unions of the piece bitboards.
pub open spec fn occ_consistent(p: BoardPosition) -> bool {
    &&& p.occupancies[0] == p.bitboards[0] | p.bitboards[1] | p.bitboards[2] | p.bitboards[3]
        | p.bitboards[4] | p.bitboards[5]
    &&& p.occupancies[1] == p.bitboards[6] | p.bitboards[7] | p.bitboards[8] | p.bitboards[9]
        | p.bitboards[10] | p.bitboards[11]
    &&& p.occupancies[2] == p.occupancies[0] | p.occupancies[1]
}

/// No two piece bitboards claim the same square.
pub open spec fn boards_disjoint(p: BoardPosition) -> bool {
    forall|i: int, j: int|
        0 <= i < j < 12 ==> #[trigger] (p.bitboards[i] & p.bitboards[j]) == 0
}

/// Exactly one square is set.
pub open spec fn single_bit(x: u64) -> bool {
    exists|k: u64| k < 64 && x == (1u64 << k)
}

/// The en-passant target square sits empty on the rank passed over by
/// the last double push of the side that just moved.
pub open spec fn ep_range_ok(p: BoardPosition) -> bool {
    p.enpassant < 64 ==> {
        &&& (p.side == 1 ==> 40 <= p.enpassant < 48)
        &&& (p.side == 0 ==> 16 <= p.enpassant < 24)
        &&& !bit(p.occupancies[2], p.enpassant as u64)
    }
}

/// A castling right is only held while its king and rook still stand on
/// their home squares.
pub open spec fn castle_rights_ok(p: BoardPosition) -> bool {
    &&& (p.castle & 1 != 0 ==> bit(p.bitboards[5], 60) && bit(p.bitboards[3], 63))
    &&& (p.castle & 2 != 0 ==> bit(p.bitboards[5], 60) && bit(p.bitboards[3], 56))
    &&& (p.castle & 4 != 0 ==> bit(p.bitboards[11], 4) && bit(p.bitboards[9], 7))
    &&& (p.castle & 8 != 0 ==> bit(p.bitboards[11], 4) && bit(p.bitboards[9], 0))
}

/// The live-position invariant: a side to move, consistent occupancies,
/// one king per side, an en-passant square on the proper rank, and
/// castling rights only for untouched home squares.
pub open spec fn pos_wf(p: BoardPosition) -> bool {
    &&& p.side < 2
    &&& p.enpassant <= 64
    &&& p.castle < 16
    &&& occ_consistent(p)
    &&& single_bit(p.bitboards[5])
    &&& single_bit(p.bitboards[11])
    &&& ep_range_ok(p)
    &&& castle_rights_ok(p)
}

/// Whether the side opposite to `side` attacks `sq`, given the piece
/// bitboards `bb` and the global occupancy `occ2`: each opposing piece
/// kind is tested through its attack pattern probed from `sq`.
pub open spec fn square_attacked_raw(bb: Seq<u64>, occ2: u64, side: int, sq: int) -> bool
    recommends
        bb.len() == 12,
        0 <= side < 2,
        0 <= sq < 64,
{
    ||| (side == 1 && pawn_attacks_spec(1, sq) & bb[0] != 0)
    ||| (side == 0 && pawn_attacks_spec(0, sq) & bb[6] != 0)
    ||| knight_attacks_spec(sq) & (if side == 0 {
        bb[7]
    } else {
        bb[1]
    }) != 0
    ||| bishop_attacks_spec(sq, occ2) & (if side == 0 {
        bb[8]
    } else {
        bb[2]
    }) != 0
    ||| rook_attacks_spec(sq, occ2) & (if side == 0 {
        bb[9]
    } else {
        bb[3]
    }) != 0
    ||| queen_attacks_spec(sq, occ2) & (if side == 0 {
        bb[10]
    } else {
        bb[4]
    }) != 0
    ||| king_attacks_spec(sq) & (if side == 0 {
        bb[11]
    } else {
        bb[5]
    }) != 0
}

/// Whether the opponent of the side to move attacks `sq` in `p`.
pub open spec fn square_attacked(p: BoardPosition, sq: int) -> bool
    recommends
        p.side < 2,
        0 <= sq < 64,
{
    square_attacked_raw(p.bitboards@, p.occupancies[2], p.side as int, sq)
}

/// True when any piece of the side opposite to `board.side` attacks
/// `square`: the single primitive behind the check test and the castling
/// path-safety test.
pub fn is_square_attacked(tables: &AttackTables, square: usize, board: &BoardPosition) -> (r: bool)
    requires
        tables.wf(),
        square < 64,
        board.side < 2,
    ensures
        r == square_attacked(*board, square as int),
{
    if board.side == 1 && (get_pawn_attacks(tables, 1, square) & board.bitboards[0]) != 0 {
        return true;
    }
    if board.side == 0 && (get_pawn_attacks(tables, 0, square) & board.bitboards[6]) != 0 {
        return true;
    }
    if get_knight_attacks(tables, square) & (if board.side == 0 {
        board.bitboards[7]
    } else {
        board.bitboards[1]
    }) != 0 {
        return true;
    }
    if get_bishop_attacks(tables, square, board.occupancies[2]) & (if board.side == 0 {
        board.bitboards[8]
    } else {
        board.bitboards[2]
    }) != 0 {
        return true;
    }
    if get_rook_attacks(tables, square, board.occupancies[2]) & (if board.side == 0 {
        board.bitboards[9]
    } else {
        board.bitboards[3]
    }) != 0 {
        return true;
    }
    if get_queen_attacks(tables, square, board.occupancies[2]) & (if board.side == 0 {
        board.bitboards[10]
    } else {
        board.bitboards[4]
    }) != 0 {
        return true;
    }
    if get_king_attacks(tables, square) & (if board.side == 0 {
        board.bitboards[11]
    } else {
        board.bitboards[5]
    }) != 0 {
        return true;
    }
    false
}

/// The union of six consecutive piece bitboards.
pub open spec fn or6(bb: Seq<u64>, off: int) -> u64
    recommends
        0 <= off,
        off + 6 <= bb.len(),
{
    bb[off] | bb[off + 1] | bb[off + 2] | bb[off + 3] | bb[off + 4] | bb[off + 5]
}

/// The castling rights that survive a move touching `sq` as source or
/// target: the four king and rook home squares each clear their rights.
pub open spec fn castling_rights_spec(sq: int) -> usize {
    if sq == 0 {
        7
    } else if sq == 4 {
        3
    } else if sq == 7 {
        11
    } else if sq == 56 {
        13
    } else if sq == 60 {
        12
    } else if sq == 63 {
        14
    } else {
        15
    }
}

/// The rights-removal entry of one square.
pub fn castling_rights(square: usize) -> (r: u8)
    ensures
        r as usize == castling_rights_spec(square as int),
        r < 16,
{
    if square == 0 {
        7
    } else if square == 4 {
        3
    } else if square == 7 {
        11
    } else if square == 56 {
        13
    } else if square == 60 {
        12
    } else if square == 63 {
        14
    } else {
        15
    }
}

/// A pseudo-legal move record fits its position: the moved piece belongs
/// to the side to move and stands on the source square, the capture flag
/// mirrors the opponent occupancy of the target, quiet targets are empty,
/// and each special flag carries its own preconditions.
pub open spec fn move_wf(m: Move, p: BoardPosition) -> bool {
    let pc = m.piece() as int;
    &&& pc < 12
    &&& (p.side == 0 ==> pc < 6)
    &&& (p.side == 1 ==> pc >= 6)
    &&& bit(p.bitboards[pc], m.source() as u64)
    &&& (!m.is_enpassant() ==> m.is_capture() == bit(
        p.occupancies[1 - p.side as int],
        m.target() as u64,
    ))
    &&& (!m.is_capture() ==> !bit(p.occupancies[2], m.target() as u64))
    &&& (m.is_enpassant() ==> {
        &&& m.is_capture()
        &&& p.enpassant == m.target()
        &&& pc == (if p.side == 0 {
            0int
        } else {
            6int
        })
        &&& !m.is_double_push() && !m.is_castling() && m.promoted() == 0
    })
    &&& (m.promoted() != 0 ==> {
        &&& pc == (if p.side == 0 {
            0int
        } else {
            6int
        })
        &&& (p.side == 0 ==> 1 <= m.promoted() <= 4 && m.target() < 8)
        &&& (p.side == 1 ==> 7 <= m.promoted() <= 10 && m.target() >= 56)
    })
    &&& (m.is_double_push() ==> {
        &&& pc == (if p.side == 0 {
            0int
        } else {
            6int
        })
        &&& !m.is_capture() && !m.is_castling() && m.promoted() == 0
        &&& (p.side == 0 ==> 32 <= m.target() < 40 && m.source() == m.target() + 16 && !bit(
            p.occupancies[2],
            (m.target() + 8) as u64,
        ))
        &&& (p.side == 1 ==> 24 <= m.target() < 32 && m.source() == m.target() - 16 && !bit(
            p.occupancies[2],
            (m.target() - 8) as u64,
        ))
    })
    &&& (m.is_castling() ==> {
        &&& pc == (if p.side == 0 {
            5int
        } else {
            11int
        })
        &&& !m.is_capture() && m.promoted() == 0 && !m.is_double_push() && !m.is_enpassant()
        &&& (p.side == 0 ==> m.source() == 60 && (m.target() == 62 || m.target() == 58))
        &&& (p.side == 1 ==> m.source() == 4 && (m.target() == 6 || m.target() == 2))
        &&& (p.side == 0 && m.target() == 62 ==> p.castle & 1 != 0 && !bit(p.occupancies[2], 61)
            && !bit(p.occupancies[2], 62) && !square_attacked(p, 60) && !square_attacked(p, 61))
        &&& (p.side == 0 && m.target() == 58 ==> p.castle & 2 != 0 && !bit(p.occupancies[2], 59)
            && !bit(p.occupancies[2], 58) && !bit(p.occupancies[2], 57) && !square_attacked(p, 60)
            && !square_attacked(p, 59))
        &&& (p.side == 1 && m.target() == 6 ==> p.castle & 4 != 0 && !bit(p.occupancies[2], 5)
            && !bit(p.occupancies[2], 6) && !square_attacked(p, 4) && !square_attacked(p, 5))
        &&& (p.side == 1 && m.target() == 2 ==> p.castle & 8 != 0 && !bit(p.occupancies[2], 3)
            && !bit(p.occupancies[2], 2) && !bit(p.occupancies[2], 1) && !square_attacked(p, 4)
            && !square_attacked(p, 3))
    })
}

/// The piece bitboards after playing `m`: the moved piece's bit travels
/// from source to target; a capture clears the target square on all six
/// opposing boards; a promotion swaps the pawn bit for the promoted
/// piece's; en passant removes the passed pawn; castling relocates the
/// rook between its fixed home and transit squares.
pub open spec fn apply_bitboards(bb: Seq<u64>, side: int, m: Move) -> Seq<u64>
    recommends
        bb.len() == 12,
        m.piece() < 12,
{
    let src = m.source() as u64;
    let tgt = m.target() as u64;
    let pc = m.piece() as int;
    let srcb = 1u64 << src;
    let tgtb = 1u64 << tgt;
    let b1 = bb.update(pc, (bb[pc] & !srcb) | tgtb);
    let b2 = if m.is_capture() {
        let off = if side == 0 {
            6int
        } else {
            0int
        };
        let c0 = b1.update(off, b1[off] & !tgtb);
        let c1 = c0.update(off + 1, c0[off + 1] & !tgtb);
        let c2 = c1.update(off + 2, c1[off + 2] & !tgtb);
        let c3 = c2.update(off + 3, c2[off + 3] & !tgtb);
        let c4 = c3.update(off + 4, c3[off + 4] & !tgtb);
        c4.update(off + 5, c4[off + 5] & !tgtb)
    } else {
        b1
    };
    let b3 = if m.promoted() != 0 {
        let p1 = b2.update(pc, b2[pc] & !tgtb);
        p1.update(m.promoted() as int, p1[m.promoted() as int] | tgtb)
    } else {
        b2
    };
    let b4 = if m.is_enpassant() {
        if pc < 6 {
            b3.update(6, b3[6] & !(1u64 << ((tgt + 8) as u64)))
        } else {
            b3.update(0, b3[0] & !(1u64 << ((tgt - 8) as u64)))
        }
    } else {
        b3
    };
    if m.is_castling() {
        if tgt == 58 {
            b4.update(3, (b4[3] & !(1u64 << 56u64)) | (1u64 << 59u64))
        } else if tgt == 62 {
            b4.update(3, (b4[3] & !(1u64 << 63u64)) | (1u64 << 61u64))
        } else if tgt == 2 {
            b4.update(9, (b4[9] & !(1u64 << 0u64)) | (1u64 << 3u64))
        } else if tgt == 6 {
            b4.update(9, (b4[9] & !(1u64 << 7u64)) | (1u64 << 5u64))
        } else {
            b4
        }
    } else {
        b4
    }
}

/// The en-passant target after playing `m`: set to the passed-over square
/// by a double push, cleared by every other move.
pub open spec fn apply_enpassant(m: Move) -> usize {
    if m.is_double_push() {
        if m.piece() < 6 {
            (m.target() + 8) as usize
        } else {
            (m.target() - 8) as usize
        }
    } else {
        64
    }
}

/// How one bit travels under a clear-then-set pair.
proof fn lemma_bit_move(x: u64, s: u64, t: u64, q: u64)
    by (bit_vector)
    requires
        s < 64,
        t < 64,
        q < 64,
    ensures
        bit((x & !(1u64 << s)) | (1u64 << t), q) == ((bit(x, q) && q != s) || q == t),
{
}

/// A single-bit board is not empty.
pub proof fn lemma_single_bit_nonzero(x: u64)
    requires
        single_bit(x),
    ensures
        x != 0,
{
    let k = choose|k: u64| k < 64 && x == (1u64 << k);
    assert(x != 0) by (bit_vector)
        requires
            x == (1u64 << k),
            k < 64,
    ;
}

/// A square is outside a six-board union exactly when it is outside
/// every board.
proof fn lemma_or6_zero(b0: u64, b1: u64, b2: u64, b3: u64, b4: u64, b5: u64, c: u64, t: u64)
    by (bit_vector)
    requires
        t < 64,
        c == b0 | b1 | b2 | b3 | b4 | b5,
    ensures
        (c & (1u64 << t) == 0) == (b0 & (1u64 << t) == 0 && b1 & (1u64 << t) == 0 && b2 & (1u64
            << t) == 0 && b3 & (1u64 << t) == 0 && b4 & (1u64 << t) == 0 && b5 & (1u64 << t) == 0),
{
}

/// A square outside the global occupancy is outside every piece board.
proof fn lemma_empty_square(p: BoardPosition, t: u64)
    requires
        occ_consistent(p),
        t < 64,
        !bit(p.occupancies[2], t),
    ensures
        forall|k: int| 0 <= k < 12 ==> !#[trigger] bit(p.bitboards[k], t),
{
    lemma_or_member(p.occupancies[0], p.occupancies[1], p.occupancies[2], t);
    lemma_or6_zero(
        p.bitboards[0],
        p.bitboards[1],
        p.bitboards[2],
        p.bitboards[3],
        p.bitboards[4],
        p.bitboards[5],
        p.occupancies[0],
        t,
    );
    lemma_or6_zero(
        p.bitboards[6],
        p.bitboards[7],
        p.bitboards[8],
        p.bitboards[9],
        p.bitboards[10],
        p.bitboards[11],
        p.occupancies[1],
        t,
    );
}

/// Clearing a square can only lose bits, setting one can only add its
/// own, and disjoint boards share no square.
proof fn lemma_bit_weaken(t: u64, q: u64)
    by (bit_vector)
    requires
        t < 64,
        q < 64,
    ensures
        forall|x: u64| #[trigger] bit(x & !(1u64 << t), q) ==> bit(x, q) && q != t,
        forall|x: u64| #[trigger] bit(x | (1u64 << t), q) ==> bit(x, q) || q == t,
        forall|x: u64, y: u64| #[trigger] (x & y) == 0 ==> !(bit(x, q) && bit(y, q)),
{
}

/// Boards that share no square under every bit are disjoint.
proof fn lemma_disjoint_from_pointwise(x: u64, y: u64)
    requires
        forall|q: u64| q < 64 && #[trigger] bit(x, q) ==> !bit(y, q),
    ensures
        x & y == 0,
{
    if x & y != 0 {
        lemma_tz_facts(x & y);
        let t = u64_trailing_zeros(x & y) as u64;
        crate::bits::lemma_and_member(x, y, x & y, t);
        assert(bit(x, t) && bit(y, t));
    }
}

/// Every bit of a board after a move either stood there before, is the
/// move's own landing square on the piece that ends there, or is the
/// castling rook's transit square; and a capture leaves no opposing bit
/// on the target.
proof fn lemma_apply_bit_origin(p: BoardPosition, m: Move, k: int, q: u64)
    requires
        pos_wf(p),
        move_wf(m, p),
        0 <= k < 12,
        q < 64,
    ensures
        ({
            let nb = apply_bitboards(p.bitboards@, p.side as int, m);
            let tgt = m.target() as u64;
            let fpc = if m.promoted() != 0 {
                m.promoted() as int
            } else {
                m.piece() as int
            };
            &&& (bit(nb[k], q) ==> bit(p.bitboards[k], q) || (q == tgt && k == fpc) || (
            m.is_castling() && ((k == 3 && ((m.target() == 58 && q == 59) || (m.target() == 62
                && q == 61))) || (k == 9 && ((m.target() == 2 && q == 3) || (m.target() == 6 && q
                == 5))))))
            &&& (m.is_capture() && (if p.side == 0 {
                6 <= k
            } else {
                k < 6
            }) ==> !bit(nb[k], tgt))
        }),
{
    crate::board::lemma_move_field_ranges(m.mv);
    let src = m.source() as u64;
    let tgt = m.target() as u64;
    lemma_bit_weaken(src, q);
    lemma_bit_weaken(tgt, q);
    lemma_bit_weaken(tgt, tgt);
    if m.is_enpassant() {
        if m.piece() < 6 {
            lemma_bit_weaken((tgt + 8) as u64, q);
            lemma_bit_weaken((tgt + 8) as u64, tgt);
        } else {
            lemma_bit_weaken((tgt - 8) as u64, q);
            lemma_bit_weaken((tgt - 8) as u64, tgt);
        }
    }
    if m.is_castling() {
        lemma_bit_weaken(56, q);
        lemma_bit_weaken(59, q);
        lemma_bit_weaken(63, q);
        lemma_bit_weaken(61, q);
        lemma_bit_weaken(0, q);
        lemma_bit_weaken(3, q);
        lemma_bit_weaken(7, q);
        lemma_bit_weaken(5, q);
    }
}

/// On a capture the target square holds only opposing pieces: no board of
/// the capturing side claims it.
proof fn lemma_capture_target_not_mover(p: BoardPosition, m: Move)
    requires
        pos_wf(p),
        boards_disjoint(p),
        move_wf(m, p),
        m.is_capture(),
        !m.is_enpassant(),
    ensures
        forall|k: int|
            (if p.side == 0 {
                0 <= k < 6
            } else {
                6 <= k < 12
            }) ==> !#[trigger] bit(p.bitboards[k], m.target() as u64),
{
    crate::board::lemma_move_field_ranges(m.mv);
    let tgt = m.target() as u64;
    let off: int = if p.side == 0 {
        6
    } else {
        0
    };
    lemma_bit_weaken(tgt, tgt);
    lemma_or6_zero(
        p.bitboards[off],
        p.bitboards[off + 1],
        p.bitboards[off + 2],
        p.bitboards[off + 3],
        p.bitboards[off + 4],
        p.bitboards[off + 5],
        p.occupancies[1 - p.side as int],
        tgt,
    );
    assert forall|k: int|
        (if p.side == 0 {
            0 <= k < 6
        } else {
            6 <= k < 12
        }) implies !#[trigger] bit(p.bitboards[k], tgt) by {
        if bit(p.bitboards[k], tgt) {
            // board k is disjoint from each opposing board, so the target
            // bit the capture flag promises cannot exist anywhere
            if p.side == 0 {
                assert(p.bitboards[k] & p.bitboards[off] == 0);
                assert(p.bitboards[k] & p.bitboards[off + 1] == 0);
                assert(p.bitboards[k] & p.bitboards[off + 2] == 0);
                assert(p.bitboards[k] & p.bitboards[off + 3] == 0);
                assert(p.bitboards[k] & p.bitboards[off + 4] == 0);
                assert(p.bitboards[k] & p.bitboards[off + 5] == 0);
            } else {
                assert(p.bitboards[off] & p.bitboards[k] == 0);
                assert(p.bitboards[off + 1] & p.bitboards[k] == 0);
                assert(p.bitboards[off + 2] & p.bitboards[k] == 0);
                assert(p.bitboards[off + 3] & p.bitboards[k] == 0);
                assert(p.bitboards[off + 4] & p.bitboards[k] == 0);
                assert(p.bitboards[off + 5] & p.bitboards[k] == 0);
            }
        }
    }
}

/// Playing a well-formed move on a position whose boards are disjoint
/// leaves them disjoint: the moved piece lands on a square that is empty,
/// captured clean, or vacated by the relocating rook's own corner.
pub proof fn lemma_apply_keeps_disjoint(p: BoardPosition, m: Move)
    requires
        pos_wf(p),
        boards_disjoint(p),
        move_wf(m, p),
    ensures
        ({
            let nb = apply_bitboards(p.bitboards@, p.side as int, m);
            forall|i: int, j: int| 0 <= i < j < 12 ==> #[trigger] (nb[i] & nb[j]) == 0
        }),
{
    let nb = apply_bitboards(p.bitboards@, p.side as int, m);
    assert forall|i: int, j: int| 0 <= i < j < 12 implies #[trigger] (nb[i] & nb[j]) == 0 by {
        lemma_apply_pair_disjoint(p, m, i, j);
    }
}

/// One pair of boards stays disjoint under a move.
proof fn lemma_apply_pair_disjoint(p: BoardPosition, m: Move, i: int, j: int)
    requires
        pos_wf(p),
        boards_disjoint(p),
        move_wf(m, p),
        0 <= i < j < 12,
    ensures
        ({
            let nb = apply_bitboards(p.bitboards@, p.side as int, m);
            nb[i] & nb[j] == 0
        }),
{
    let nb = apply_bitboards(p.bitboards@, p.side as int, m);
    crate::board::lemma_move_field_ranges(m.mv);
    let tgt = m.target() as u64;
    assert forall|q: u64| q < 64 && #[trigger] bit(nb[i], q) implies !bit(nb[j], q) by {
        if bit(nb[j], q) {
            lemma_apply_bit_origin(p, m, i, q);
            lemma_apply_bit_origin(p, m, j, q);
            lemma_bit_weaken(q, q);
            assert(p.bitboards[i] & p.bitboards[j] == 0);
            if q == tgt {
                if m.is_capture() && !m.is_enpassant() {
                    lemma_capture_target_not_mover(p, m);
                } else {
                    // a quiet target and an en-passant target are empty
                    lemma_empty_square(p, tgt);
                }
            }
            if m.is_castling() {
                if m.target() == 62 && (q == 61 || q == 62) {
                    lemma_empty_square(p, q);
                }
                if m.target() == 58 && (q == 59 || q == 58 || q == 57) {
                    lemma_empty_square(p, q);
                }
                if m.target() == 6 && (q == 5 || q == 6) {
                    lemma_empty_square(p, q);
                }
                if m.target() == 2 && (q == 3 || q == 2 || q == 1) {
                    lemma_empty_square(p, q);
                }
            }
            assert(false);
        }
    }
    lemma_disjoint_from_pointwise(nb[i], nb[j]);
}

/// Moving the only set bit leaves exactly the target bit.
proof fn lemma_single_bit_move(x: u64, s: u64, t: u64)
    requires
        single_bit(x),
        bit(x, s),
        s < 64,
        t < 64,
    ensures
        (x & !(1u64 << s)) | (1u64 << t) == (1u64 << t),
        single_bit((x & !(1u64 << s)) | (1u64 << t)),
{
    let k = choose|k: u64| k < 64 && x == (1u64 << k);
    assert((x & !(1u64 << s)) | (1u64 << t) == (1u64 << t)) by (bit_vector)
        requires
            x == (1u64 << k),
            x & (1u64 << s) != 0,
            k < 64,
            s < 64,
            t < 64,
    ;
}

/// Clearing a different square keeps a single-bit board intact, and
/// clearing its own square empties it.
proof fn lemma_single_bit_clear(x: u64, t: u64)
    requires
        single_bit(x),
        t < 64,
    ensures
        x & !(1u64 << t) == 0 || x & !(1u64 << t) == x,
        x & !(1u64 << t) != 0 ==> single_bit(x & !(1u64 << t)),
{
    let k = choose|k: u64| k < 64 && x == (1u64 << k);
    assert((x & !(1u64 << t)) == (if k == t {
        0u64
    } else {
        x
    })) by (bit_vector)
        requires
            x == (1u64 << k),
            k < 64,
            t < 64,
    ;
}

/// Whether the legality filter accepts playing `m` on `p`: the applied
/// position keeps the opposing king and leaves the mover's own king
/// unattacked.
pub open spec fn move_legal(p: BoardPosition, m: Move) -> bool
    recommends
        p.side < 2,
        m.piece() < 12,
{
    let nb = apply_bitboards(p.bitboards@, p.side as int, m);
    let occ0 = or6(nb, 0);
    let occ1 = or6(nb, 6);
    let myk = if p.side == 0 {
        5int
    } else {
        11int
    };
    let oppk = if p.side == 0 {
        11int
    } else {
        5int
    };
    &&& nb[oppk] != 0
    &&& !square_attacked_raw(
        nb,
        occ0 | occ1,
        p.side as int,
        vstd::std_specs::bits::u64_trailing_zeros(nb[myk]) as int,
    )
}

/// Whether any well-formed candidate move of the side to move is legal.
/// The candidates range over every record `move_wf` admits, a superset of
/// what the generator emits, so this failing is stronger than the
/// generated list drying up.
pub open spec fn has_legal_move(p: BoardPosition) -> bool {
    exists|m: Move| move_wf(m, p) && move_legal(p, m)
}

/// Clearing or setting one square keeps every other bit.
proof fn lemma_bit_keep(t: u64, q: u64)
    by (bit_vector)
    requires
        t < 64,
        q < 64,
        t != q,
    ensures
        forall|x: u64| #[trigger] bit(x & !(1u64 << t), q) == bit(x, q),
        forall|x: u64| #[trigger] bit(x | (1u64 << t), q) == bit(x, q),
{
}

/// The bitwise facts behind the rights-removal table: which of the four
/// castling bits each entry keeps.
proof fn lemma_rights_mask_facts()
    by (bit_vector)
    ensures
        7usize & 1 != 0 && 7usize & 2 != 0 && 7usize & 4 != 0 && 7usize & 8 == 0,
        3usize & 1 != 0 && 3usize & 2 != 0 && 3usize & 4 == 0 && 3usize & 8 == 0,
        11usize & 1 != 0 && 11usize & 2 != 0 && 11usize & 4 == 0 && 11usize & 8 != 0,
        13usize & 1 != 0 && 13usize & 2 == 0 && 13usize & 4 != 0 && 13usize & 8 != 0,
        12usize & 1 == 0 && 12usize & 2 == 0 && 12usize & 4 != 0 && 12usize & 8 != 0,
        14usize & 1 == 0 && 14usize & 2 != 0 && 14usize & 4 != 0 && 14usize & 8 != 0,
        15usize & 1 != 0 && 15usize & 2 != 0 && 15usize & 4 != 0 && 15usize & 8 != 0,
{
}

/// One home-square bit survives a move whose rights bit survived.
proof fn lemma_rights_bit_kept(p: BoardPosition, m: Move, c2: usize, ki: int, q: u64)
    requires
        pos_wf(p),
        move_wf(m, p),
        c2 == (p.castle & castling_rights_spec(m.source() as int)) & castling_rights_spec(
            m.target() as int,
        ),
        (ki == 5 && q == 60 && (c2 & 1 != 0 || c2 & 2 != 0)) || (ki == 3 && q == 63 && c2 & 1 != 0)
            || (ki == 3 && q == 56 && c2 & 2 != 0) || (ki == 11 && q == 4 && (c2 & 4 != 0 || c2 & 8
            != 0)) || (ki == 9 && q == 7 && c2 & 4 != 0) || (ki == 9 && q == 0 && c2 & 8 != 0),
    ensures
        bit(apply_bitboards(p.bitboards@, p.side as int, m)[ki], q),
{
    let bb = p.bitboards@;
    let nb = apply_bitboards(bb, p.side as int, m);
    crate::board::lemma_move_field_ranges(m.mv);
    let src = m.source() as u64;
    let tgt = m.target() as u64;
    let pc = m.piece() as int;
    let cr_s = castling_rights_spec(m.source() as int);
    let cr_t = castling_rights_spec(m.target() as int);
    let ca = p.castle;
    assert((c2 & 1 != 0 ==> ca & 1 != 0 && cr_s & 1 != 0 && cr_t & 1 != 0) && (c2 & 2 != 0 ==> ca
        & 2 != 0 && cr_s & 2 != 0 && cr_t & 2 != 0) && (c2 & 4 != 0 ==> ca & 4 != 0 && cr_s & 4
        != 0 && cr_t & 4 != 0) && (c2 & 8 != 0 ==> ca & 8 != 0 && cr_s & 8 != 0 && cr_t & 8 != 0))
        by (bit_vector)
        requires
            c2 == (ca & cr_s) & cr_t,
    ;
    lemma_rights_mask_facts();
    // neither endpoint of the move touched the surviving right's squares
    assert(src != q && tgt != q);
    assert(bit(bb[ki], q));
    if pc == ki {
        lemma_bit_move(bb[ki], src, tgt, q);
    }
    lemma_bit_keep(tgt, q);
    if m.is_enpassant() {
        if pc < 6 {
            lemma_bit_keep(((tgt + 8) as u64), q);
        } else {
            lemma_bit_keep(((tgt - 8) as u64), q);
        }
    }
    if m.is_castling() {
        // a castle clears its own side's rights, so the surviving right
        // belongs to the other color and its rook board stays untouched
        assert(ki == 3 ==> !(tgt == 58 || tgt == 62));
        assert(ki == 9 ==> !(tgt == 2 || tgt == 6));
    }
    assert(bit(nb[ki], q));
}

/// What playing a move preserves: one king each (unless the opponent king
/// itself was captured), and surviving castling rights still backed by
/// their home squares.
proof fn lemma_apply_move_wf(p: BoardPosition, m: Move)
    requires
        pos_wf(p),
        move_wf(m, p),
    ensures
        ({
            let nb = apply_bitboards(p.bitboards@, p.side as int, m);
            let myk = if p.side == 0 {
                5int
            } else {
                11int
            };
            let oppk = if p.side == 0 {
                11int
            } else {
                5int
            };
            let c2 = (p.castle & castling_rights_spec(m.source() as int)) & castling_rights_spec(
                m.target() as int,
            );
            &&& nb.len() == 12
            &&& single_bit(nb[myk])
            &&& (nb[oppk] != 0 ==> single_bit(nb[oppk]))
            &&& c2 < 16
            &&& (c2 & 1 != 0 ==> bit(nb[5], 60) && bit(nb[3], 63))
            &&& (c2 & 2 != 0 ==> bit(nb[5], 60) && bit(nb[3], 56))
            &&& (c2 & 4 != 0 ==> bit(nb[11], 4) && bit(nb[9], 7))
            &&& (c2 & 8 != 0 ==> bit(nb[11], 4) && bit(nb[9], 0))
        }),
{
    let bb = p.bitboards@;
    let nb = apply_bitboards(bb, p.side as int, m);
    crate::board::lemma_move_field_ranges(m.mv);
    let src = m.source() as u64;
    let tgt = m.target() as u64;
    let pc = m.piece() as int;
    let myk: int = if p.side == 0 {
        5
    } else {
        11
    };
    let oppk: int = if p.side == 0 {
        11
    } else {
        5
    };
    let c2 = (p.castle & castling_rights_spec(m.source() as int)) & castling_rights_spec(
        m.target() as int,
    );
    let ca = p.castle;
    let cr_s = castling_rights_spec(m.source() as int);
    let cr_t = castling_rights_spec(m.target() as int);
    assert(c2 < 16) by (bit_vector)
        requires
            ca < 16,
            c2 == (ca & cr_s) & cr_t,
    ;
    // the mover's king board: moved whole, or untouched
    if pc == myk {
        let kb = bb[myk];
        let km = choose|k: u64| k < 64 && kb == (1u64 << k);
        assert(src == km) by (bit_vector)
            requires
                kb & (1u64 << src) != 0,
                kb == (1u64 << km),
                km < 64,
                src < 64,
        ;
        lemma_single_bit_move(kb, src, tgt);
        assert(nb[myk] == (1u64 << tgt));
        assert(single_bit(nb[myk]));
    } else {
        assert(nb[myk] == bb[myk]);
    }
    // the opponent's king board: at most cleared at the capture target
    if m.is_capture() {
        assert(nb[oppk] == bb[oppk] & !(1u64 << tgt));
        lemma_single_bit_clear(bb[oppk], tgt);
    } else {
        assert(nb[oppk] == bb[oppk]);
    }
    // surviving castling rights still have king and rook at home
    if c2 & 1 != 0 {
        lemma_rights_bit_kept(p, m, c2, 5, 60);
        lemma_rights_bit_kept(p, m, c2, 3, 63);
    }
    if c2 & 2 != 0 {
        lemma_rights_bit_kept(p, m, c2, 5, 60);
        lemma_rights_bit_kept(p, m, c2, 3, 56);
    }
    if c2 & 4 != 0 {
        lemma_rights_bit_kept(p, m, c2, 11, 4);
        lemma_rights_bit_kept(p, m, c2, 9, 7);
    }
    if c2 & 8 != 0 {
        lemma_rights_bit_kept(p, m, c2, 11, 4);
        lemma_rights_bit_kept(p, m, c2, 9, 0);
    }
}

/// Plays one pseudo-legal move: moves the piece bit, resolves capture,
/// promotion, en passant and castling, recomputes the occupancies and the
/// castling rights, then discards the candidate when the mover's own king
/// would stand attacked. A candidate that would capture the opposing king
/// is likewise discarded: it only follows an illegal predecessor, which
/// the legality filter never lets through.
#[verifier::rlimit(50)]
pub fn make_move(tables: &AttackTables, board: &BoardPosition, move_to_make: &Move) -> (r: Option<
    BoardPosition,
>)
    requires
        tables.wf(),
        pos_wf(*board),
        move_wf(*move_to_make, *board),
    ensures
        ({
            let nb = apply_bitboards(board.bitboards@, board.side as int, *move_to_make);
            let occ0 = or6(nb, 0);
            let occ1 = or6(nb, 6);
            &&& (r is Some) == move_legal(*board, *move_to_make)
            &&& match r {
                Some(np) => {
                    &&& np.bitboards@ == nb
                    &&& np.occupancies@ == seq![occ0, occ1, occ0 | occ1]
                    &&& np.side == 1 - board.side
                    &&& np.enpassant == apply_enpassant(*move_to_make)
                    &&& np.castle == (board.castle & castling_rights_spec(
                        move_to_make.source() as int,
                    )) & castling_rights_spec(move_to_make.target() as int)
                    &&& pos_wf(np)
                    &&& boards_disjoint(*board) ==> boards_disjoint(np)
                },
                None => true,
            }
        }),
{
    let ghost nb_spec = apply_bitboards(board.bitboards@, board.side as int, *move_to_make);
    let mut bbs: [u64; 12] = board.bitboards;
    let piece = move_to_make.get_piece() as usize;
    let source = move_to_make.get_source_square() as usize;
    let target = move_to_make.get_target_square() as usize;
    let promoted = move_to_make.get_promoted() as usize;
    bbs[piece] = (bbs[piece] & !(1u64 << source)) | (1u64 << target);
    if move_to_make.get_capture() {
        let off: usize = if board.side == 0 {
            6
        } else {
            0
        };
        bbs[off] = bbs[off] & !(1u64 << target);
        bbs[off + 1] = bbs[off + 1] & !(1u64 << target);
        bbs[off + 2] = bbs[off + 2] & !(1u64 << target);
        bbs[off + 3] = bbs[off + 3] & !(1u64 << target);
        bbs[off + 4] = bbs[off + 4] & !(1u64 << target);
        bbs[off + 5] = bbs[off + 5] & !(1u64 << target);
    }
    if promoted != 0 {
        bbs[piece] = bbs[piece] & !(1u64 << target);
        bbs[promoted] = bbs[promoted] | (1u64 << target);
    }
    if move_to_make.get_enpassant() {
        if piece < 6 {
            bbs[6] = bbs[6] & !(1u64 << (target + 8));
        } else {
            bbs[0] = bbs[0] & !(1u64 << (target - 8));
        }
    }
    let enpassant: usize = if move_to_make.get_double_pawn_push() {
        if piece < 6 {
            target + 8
        } else {
            target - 8
        }
    } else {
        64
    };
    if move_to_make.get_castling() {
        if target == 58 {
            bbs[3] = (bbs[3] & !(1u64 << 56u64)) | (1u64 << 59u64);
        } else if target == 62 {
            bbs[3] = (bbs[3] & !(1u64 << 63u64)) | (1u64 << 61u64);
        } else if target == 2 {
            bbs[9] = (bbs[9] & !(1u64 << 0u64)) | (1u64 << 3u64);
        } else if target == 6 {
            bbs[9] = (bbs[9] & !(1u64 << 7u64)) | (1u64 << 5u64);
        }
    }
    proof {
        assert(bbs@ =~= nb_spec);
    }
    let castle: usize = (board.castle & (castling_rights(source) as usize)) & (castling_rights(
        target,
    ) as usize);
    let occ0: u64 = bbs[0] | bbs[1] | bbs[2] | bbs[3] | bbs[4] | bbs[5];
    let occ1: u64 = bbs[6] | bbs[7] | bbs[8] | bbs[9] | bbs[10] | bbs[11];
    proof {
        lemma_apply_move_wf(*board, *move_to_make);
    }
    let oppk: usize = if board.side == 0 {
        11
    } else {
        5
    };
    if bbs[oppk] == 0 {
        return None;
    }
    let myk: usize = if board.side == 0 {
        5
    } else {
        11
    };
    proof {
        lemma_single_bit_nonzero(nb_spec[myk as int]);
        axiom_u64_trailing_zeros(bbs@[myk as int]);
    }
    let king_sq = bbs[myk].trailing_zeros() as usize;
    let check_pos = BoardPosition {
        bitboards: bbs,
        occupancies: [occ0, occ1, occ0 | occ1],
        side: board.side,
        enpassant,
        castle,
    };
    proof {
        assert(check_pos.occupancies@ =~= seq![occ0, occ1, occ0 | occ1]);
        if boards_disjoint(*board) {
            lemma_apply_keeps_disjoint(*board, *move_to_make);
            assert forall|a: int, b: int| 0 <= a < b < 12 implies #[trigger] (
            check_pos.bitboards[a] & check_pos.bitboards[b]) == 0 by {
                assert(nb_spec[a] & nb_spec[b] == 0);
            }
        }
        if move_to_make.is_double_push() {
            // the square passed over stays empty, so the new en-passant
            // target is well formed
            let passed = enpassant as u64;
            lemma_empty_square(*board, passed);
            lemma_bit_move(
                board.bitboards@[piece as int],
                move_to_make.source() as u64,
                move_to_make.target() as u64,
                passed,
            );
            assert forall|k: int| 0 <= k < 12 implies !#[trigger] bit(nb_spec[k], passed) by {
            }
            assert(!bit(nb_spec[0], passed) && !bit(nb_spec[1], passed) && !bit(
                nb_spec[2],
                passed,
            ) && !bit(nb_spec[3], passed) && !bit(nb_spec[4], passed) && !bit(nb_spec[5], passed)
                && !bit(nb_spec[6], passed) && !bit(nb_spec[7], passed) && !bit(nb_spec[8], passed)
                && !bit(nb_spec[9], passed) && !bit(nb_spec[10], passed) && !bit(
                nb_spec[11],
                passed,
            ));
            lemma_or6_zero(
                nb_spec[0],
                nb_spec[1],
                nb_spec[2],
                nb_spec[3],
                nb_spec[4],
                nb_spec[5],
                occ0,
                passed,
            );
            lemma_or6_zero(
                nb_spec[6],
                nb_spec[7],
                nb_spec[8],
                nb_spec[9],
                nb_spec[10],
                nb_spec[11],
                occ1,
                passed,
            );
            lemma_or_member(occ0, occ1, occ0 | occ1, passed);
        }
    }
    if is_square_attacked(tables, king_sq, &check_pos) {
        return None;
    }
    Some(
        BoardPosition {
            side: (board.side + 1) % 2,
            bitboards: check_pos.bitboards,
            occupancies: check_pos.occupancies,
            enpassant: check_pos.enpassant,
            castle: check_pos.castle,
        },
    )
}

/// Walks all 64 squares in file-then-rank order and folds each attack
/// test into one bitboard-like accumulator, most significant square first.
pub open spec fn attack_fold(p: BoardPosition, n: int) -> u64
    recommends
        0 <= n <= 64,
    decreases n,
{
    if n <= 0 {
        0
    } else {
        (vstd::wrapping::u64_specs::wrapping_mul(attack_fold(p, n - 1), 2) + (if square_attacked(
            p,
            ((n - 1) / 8) * 8 + ((n - 1) % 8),
        ) {
            1u64
        } else {
            0u64
        })) as u64
    }
}

/// Folds `is_square_attacked` over the whole board into one number, for
/// diagnostics: square a8 ends up in the most significant position.
pub fn run_through_attacks(tables: &AttackTables, board_position: &BoardPosition) -> (cnt: u64)
    requires
        tables.wf(),
        board_position.side < 2,
    ensures
        cnt == attack_fold(*board_position, 64),
{
    let mut cnt: u64 = 0;
    let mut y: usize = 0;
    while y < 8
        invariant
            y <= 8,
            tables.wf(),
            board_position.side < 2,
            cnt == attack_fold(*board_position, 8 * y),
        decreases 8 - y,
    {
        let mut x: usize = 0;
        while x < 8
            invariant
                y < 8,
                x <= 8,
                tables.wf(),
                board_position.side < 2,
                cnt == attack_fold(*board_position, 8 * y + x),
            decreases 8 - x,
        {
            let ghost c0 = cnt;
            cnt = cnt.wrapping_mul(2);
            proof {
                assert(cnt == c0 << 1u64 && cnt & 1 == 0 && cnt < 0xffff_ffff_ffff_ffffu64)
                    by (bit_vector)
                    requires
                        cnt == vstd::wrapping::u64_specs::wrapping_mul(c0, 2),
                ;
            }
            if is_square_attacked(tables, x + 8 * y, board_position) {
                cnt = cnt + 1;
            }
            proof {
                let n = 8 * y + x + 1;
                assert((n - 1) / 8 == y && (n - 1) % 8 == x) by (nonlinear_arith)
                    requires
                        y < 8,
                        x < 8,
                        n == 8 * y + x + 1,
                ;
            }
            x += 1;
        }
        y += 1;
    }
    cnt
}


/// The white king-side castling move.
pub open spec fn castle_move_wk() -> Move {
    Move { mv: encode_move(60, 62, 5, 0, 0, 0, 1, 0) }
}

/// The white queen-side castling move.
pub open spec fn castle_move_wq() -> Move {
    Move { mv: encode_move(60, 58, 5, 0, 0, 0, 1, 0) }
}

/// The black king-side castling move.
pub open spec fn castle_move_bk() -> Move {
    Move { mv: encode_move(4, 6, 11, 0, 0, 0, 1, 0) }
}

/// The black queen-side castling move.
pub open spec fn castle_move_bq() -> Move {
    Move { mv: encode_move(4, 2, 11, 0, 0, 0, 1, 0) }
}

/// White may castle king-side: the right is held, f1 and g1 are empty,
/// and neither e1 nor f1 is attacked.
pub open spec fn castle_ok_wk(p: BoardPosition) -> bool {
    &&& p.castle & 1 != 0
    &&& !bit(p.occupancies[2], 61)
    &&& !bit(p.occupancies[2], 62)
    &&& !square_attacked(p, 60)
    &&& !square_attacked(p, 61)
}

/// White may castle queen-side: the right is held, b1 through d1 are
/// empty, and neither e1 nor d1 is attacked.
pub open spec fn castle_ok_wq(p: BoardPosition) -> bool {
    &&& p.castle & 2 != 0
    &&& !bit(p.occupancies[2], 59)
    &&& !bit(p.occupancies[2], 58)
    &&& !bit(p.occupancies[2], 57)
    &&& !square_attacked(p, 60)
    &&& !square_attacked(p, 59)
}

/// Black may castle king-side.
pub open spec fn castle_ok_bk(p: BoardPosition) -> bool {
    &&& p.castle & 4 != 0
    &&& !bit(p.occupancies[2], 5)
    &&& !bit(p.occupancies[2], 6)
    &&& !square_attacked(p, 4)
    &&& !square_attacked(p, 5)
}

/// Black may castle queen-side.
pub open spec fn castle_ok_bq(p: BoardPosition) -> bool {
    &&& p.castle & 8 != 0
    &&& !bit(p.occupancies[2], 3)
    &&& !bit(p.occupancies[2], 2)
    &&& !bit(p.occupancies[2], 1)
    &&& !square_attacked(p, 4)
    &&& !square_attacked(p, 3)
}

/// The castling moves a position admits, king-side first.
pub open spec fn castle_moves_spec(p: BoardPosition) -> Seq<Move> {
    if p.side == 0 {
        (if castle_ok_wk(p) {
            seq![castle_move_wk()]
        } else {
            Seq::empty()
        }) + (if castle_ok_wq(p) {
            seq![castle_move_wq()]
        } else {
            Seq::empty()
        })
    } else {
        (if castle_ok_bk(p) {
            seq![castle_move_bk()]
        } else {
            Seq::empty()
        }) + (if castle_ok_bq(p) {
            seq![castle_move_bq()]
        } else {
            Seq::empty()
        })
    }
}

/// A nonzero value's lowest set bit is a set bit, and popping it shrinks
/// the value.
proof fn lemma_tz_facts(m: u64)
    requires
        m != 0,
    ensures
        u64_trailing_zeros(m) < 64,
        bit(m, u64_trailing_zeros(m) as u64),
        m & !(1u64 << u64_trailing_zeros(m) as u64) < m,
{
    axiom_u64_trailing_zeros(m);
    let t = u64_trailing_zeros(m) as u64;
    assert(m & (1u64 << t) != 0 && m & !(1u64 << t) < m) by (bit_vector)
        requires
            t < 64,
            (m >> t) & 1u64 == 1u64,
    ;
}

/// Popping one bit keeps a subset a subset.
proof fn lemma_subset_pop(sub: u64, sup: u64, t: u64)
    by (bit_vector)
    requires
        sub & sup == sub,
        t < 64,
    ensures
        (sub & !(1u64 << t)) & sup == sub & !(1u64 << t),
{
}

/// A square is outside a union exactly when it is outside both parts.
proof fn lemma_or_member(a: u64, b: u64, c: u64, t: u64)
    by (bit_vector)
    requires
        t < 64,
        c == a | b,
    ensures
        (c & (1u64 << t) == 0) == (a & (1u64 << t) == 0 && b & (1u64 << t) == 0),
{
}

/// Appends the step and capture moves of one piece kind (1 knight,
/// 2 bishop, 3 rook, 4 queen, 5 king) for the side to move.
fn add_piece_moves(
    tables: &AttackTables,
    board: &BoardPosition,
    move_list: &mut Vec<Move>,
    kind: usize,
)
    requires
        tables.wf(),
        pos_wf(*board),
        1 <= kind <= 5,
    ensures
        old(move_list)@.len() <= final(move_list)@.len(),
        forall|i: int| 0 <= i < old(move_list)@.len() ==> final(move_list)@[i] == old(move_list)@[i],
        forall|i: int|
            old(move_list)@.len() <= i < final(move_list)@.len() ==> move_wf(
                #[trigger] final(move_list)@[i],
                *board,
            ) && !final(move_list)@[i].is_castling(),
{
    let piece_idx: usize = if board.side == 0 {
        kind
    } else {
        kind + 6
    };
    let own: u64 = board.occupancies[board.side];
    let opp: u64 = board.occupancies[1 - board.side];
    let pc: Piece = crate::board::piece_from_index(piece_idx);
    let mut bitboard: u64 = board.bitboards[piece_idx];
    proof {
        crate::bits::lemma_bit_identities(bitboard);
    }
    while bitboard != 0
        invariant
            tables.wf(),
            pos_wf(*board),
            1 <= kind <= 5,
            piece_idx == (if board.side == 0 {
                kind as int
            } else {
                kind + 6
            }),
            own == board.occupancies[board.side as int],
            opp == board.occupancies[1 - board.side as int],
            piece_index(pc) == piece_idx,
            bitboard & board.bitboards[piece_idx as int] == bitboard,
            old(move_list)@.len() <= move_list@.len(),
            forall|i: int| 0 <= i < old(move_list)@.len() ==> move_list@[i] == old(move_list)@[i],
            forall|i: int|
                old(move_list)@.len() <= i < move_list@.len() ==> move_wf(
                    #[trigger] move_list@[i],
                    *board,
                ) && !move_list@[i].is_castling(),
        decreases bitboard,
    {
        proof {
            lemma_tz_facts(bitboard);
            crate::bits::lemma_and_member(
                bitboard,
                board.bitboards[piece_idx as int],
                bitboard,
                u64_trailing_zeros(bitboard) as u64,
            );
            lemma_subset_pop(
                bitboard,
                board.bitboards[piece_idx as int],
                u64_trailing_zeros(bitboard) as u64,
            );
        }
        let source = bitboard.trailing_zeros() as usize;
        let looked_up: u64 = if kind == 1 {
            get_knight_attacks(tables, source)
        } else if kind == 2 {
            get_bishop_attacks(tables, source, board.occupancies[2])
        } else if kind == 3 {
            get_rook_attacks(tables, source, board.occupancies[2])
        } else if kind == 4 {
            get_queen_attacks(tables, source, board.occupancies[2])
        } else {
            get_king_attacks(tables, source)
        };
        let base: u64 = looked_up & !own;
        let mut attacks: u64 = base;
        proof {
            crate::bits::lemma_bit_identities(attacks);
        }
        while attacks != 0
            invariant
                pos_wf(*board),
                source < 64,
                own == board.occupancies[board.side as int],
                opp == board.occupancies[1 - board.side as int],
                piece_index(pc) == piece_idx,
                piece_idx < 12,
                (board.side == 0 ==> piece_idx < 6) && (board.side == 1 ==> piece_idx >= 6),
                bit(board.bitboards[piece_idx as int], source as u64),
                base == looked_up & !own,
                attacks & base == attacks,
                old(move_list)@.len() <= move_list@.len(),
                forall|i: int|
                    0 <= i < old(move_list)@.len() ==> move_list@[i] == old(move_list)@[i],
                forall|i: int|
                    old(move_list)@.len() <= i < move_list@.len() ==> move_wf(
                        #[trigger] move_list@[i],
                        *board,
                    ) && !move_list@[i].is_castling(),
            decreases attacks,
        {
            proof {
                lemma_tz_facts(attacks);
                crate::bits::lemma_and_member(
                    attacks,
                    base,
                    attacks,
                    u64_trailing_zeros(attacks) as u64,
                );
                lemma_subset_pop(attacks, base, u64_trailing_zeros(attacks) as u64);
                let t = u64_trailing_zeros(attacks) as u64;
                assert(own & (1u64 << t) == 0) by (bit_vector)
                    requires
                        t < 64,
                        base & (1u64 << t) != 0,
                        base == looked_up & !own,
                ;

            }
            let target = attacks.trailing_zeros() as usize;
            let mv = if crate::bits::get_bit(opp, target) {
                Move::create(source as u32, target as u32, pc, Piece::P, 1, 0, 0, 0)
            } else {
                proof {
                    lemma_or_member(
                        board.occupancies[0],
                        board.occupancies[1],
                        board.occupancies[2],
                        target as u64,
                    );
                }
                Move::create(source as u32, target as u32, pc, Piece::P, 0, 0, 0, 0)
            };
            proof {
                assert(move_wf(mv, *board));
            }
            move_list.push(mv);
            attacks = attacks & !(1u64 << target);
        }
        bitboard = bitboard & !(1u64 << source);
    }
}

/// Appends the castling moves the position admits: exactly those whose
/// right is held, whose path is empty, and whose king and transit squares
/// are unattacked.
fn add_castling_moves(tables: &AttackTables, board: &BoardPosition, move_list: &mut Vec<Move>)
    requires
        tables.wf(),
        pos_wf(*board),
    ensures
        final(move_list)@ == old(move_list)@ + castle_moves_spec(*board),
        forall|i: int|
            old(move_list)@.len() <= i < final(move_list)@.len() ==> move_wf(
                #[trigger] final(move_list)@[i],
                *board,
            ),
{
    let ghost base = move_list@;
    if board.side == 0 {
        if board.castle & 1 != 0 {
            if !crate::bits::get_bit(board.occupancies[2], 61) && !crate::bits::get_bit(
                board.occupancies[2],
                62,
            ) {
                if !is_square_attacked(tables, 60, board) && !is_square_attacked(
                    tables,
                    61,
                    board,
                ) {
                    let mv = Move::create(60, 62, Piece::K, Piece::P, 0, 0, 1, 0);
                    proof {
                        lemma_or_member(
                            board.occupancies[0],
                            board.occupancies[1],
                            board.occupancies[2],
                            62,
                        );
                        assert(mv == castle_move_wk());
                        assert(move_wf(mv, *board));
                    }
                    move_list.push(mv);
                }
            }
        }
        if board.castle & 2 != 0 {
            if !crate::bits::get_bit(board.occupancies[2], 59) && !crate::bits::get_bit(
                board.occupancies[2],
                58,
            ) && !crate::bits::get_bit(board.occupancies[2], 57) {
                if !is_square_attacked(tables, 60, board) && !is_square_attacked(
                    tables,
                    59,
                    board,
                ) {
                    let mv = Move::create(60, 58, Piece::K, Piece::P, 0, 0, 1, 0);
                    proof {
                        lemma_or_member(
                            board.occupancies[0],
                            board.occupancies[1],
                            board.occupancies[2],
                            58,
                        );
                        assert(mv == castle_move_wq());
                        assert(move_wf(mv, *board));
                    }
                    move_list.push(mv);
                }
            }
        }
        proof {
            assert(move_list@ =~= base + castle_moves_spec(*board));
        }
    } else {
        if board.castle & 4 != 0 {
            if !crate::bits::get_bit(board.occupancies[2], 5) && !crate::bits::get_bit(
                board.occupancies[2],
                6,
            ) {
                if !is_square_attacked(tables, 4, board) && !is_square_attacked(tables, 5, board) {
                    let mv = Move::create(4, 6, Piece::k, Piece::P, 0, 0, 1, 0);
                    proof {
                        lemma_or_member(
                            board.occupancies[0],
                            board.occupancies[1],
                            board.occupancies[2],
                            6,
                        );
                        assert(mv == castle_move_bk());
                        assert(move_wf(mv, *board));
                    }
                    move_list.push(mv);
                }
            }
        }
        if board.castle & 8 != 0 {
            if !crate::bits::get_bit(board.occupancies[2], 3) && !crate::bits::get_bit(
                board.occupancies[2],
                2,
            ) && !crate::bits::get_bit(board.occupancies[2], 1) {
                if !is_square_attacked(tables, 4, board) && !is_square_attacked(tables, 3, board) {
                    let mv = Move::create(4, 2, Piece::k, Piece::P, 0, 0, 1, 0);
                    proof {
                        lemma_or_member(
                            board.occupancies[0],
                            board.occupancies[1],
                            board.occupancies[2],
                            2,
                        );
                        assert(mv == castle_move_bq());
                        assert(move_wf(mv, *board));
                    }
                    move_list.push(mv);
                }
            }
        }
        proof {
            assert(move_list@ =~= base + castle_moves_spec(*board));
        }
    }
}


/// Appends the pawn moves of the side to move: single and double pushes,
/// promotions, diagonal captures, and en-passant captures.
fn add_pawn_moves(tables: &AttackTables, board: &BoardPosition, move_list: &mut Vec<Move>)
    requires
        tables.wf(),
        pos_wf(*board),
    ensures
        old(move_list)@.len() <= final(move_list)@.len(),
        forall|i: int| 0 <= i < old(move_list)@.len() ==> final(move_list)@[i] == old(move_list)@[i],
        forall|i: int|
            old(move_list)@.len() <= i < final(move_list)@.len() ==> move_wf(
                #[trigger] final(move_list)@[i],
                *board,
            ) && !final(move_list)@[i].is_castling(),
{
    let pawn_idx: usize = if board.side == 0 {
        0
    } else {
        6
    };
    let opp: u64 = board.occupancies[1 - board.side];
    let mut bitboard: u64 = board.bitboards[pawn_idx];
    proof {
        crate::bits::lemma_bit_identities(bitboard);
    }
    while bitboard != 0
        invariant
            tables.wf(),
            pos_wf(*board),
            pawn_idx == (if board.side == 0 {
                0int
            } else {
                6
            }),
            opp == board.occupancies[1 - board.side as int],
            bitboard & board.bitboards[pawn_idx as int] == bitboard,
            old(move_list)@.len() <= move_list@.len(),
            forall|i: int| 0 <= i < old(move_list)@.len() ==> move_list@[i] == old(move_list)@[i],
            forall|i: int|
                old(move_list)@.len() <= i < move_list@.len() ==> move_wf(
                    #[trigger] move_list@[i],
                    *board,
                ) && !move_list@[i].is_castling(),
        decreases bitboard,
    {
        proof {
            lemma_tz_facts(bitboard);
            crate::bits::lemma_and_member(
                bitboard,
                board.bitboards[pawn_idx as int],
                bitboard,
                u64_trailing_zeros(bitboard) as u64,
            );
            lemma_subset_pop(
                bitboard,
                board.bitboards[pawn_idx as int],
                u64_trailing_zeros(bitboard) as u64,
            );
        }
        let source = bitboard.trailing_zeros() as usize;
        if board.side == 0 {
            // a push off the top of the board cannot arise: the source
            // would have to stand on the back rank
            let target = if source >= 8 {
                source - 8
            } else {
                64
            };
            if !(target > 63) && !crate::bits::get_bit(board.occupancies[2], target) {
                proof {
                    lemma_or_member(
                        board.occupancies[0],
                        board.occupancies[1],
                        board.occupancies[2],
                        target as u64,
                    );
                }
                if source >= 8 && source <= 15 {
                    move_list.push(
                        Move::create(source as u32, target as u32, Piece::P, Piece::Q, 0, 0, 0, 0),
                    );
                    move_list.push(
                        Move::create(source as u32, target as u32, Piece::P, Piece::R, 0, 0, 0, 0),
                    );
                    move_list.push(
                        Move::create(source as u32, target as u32, Piece::P, Piece::B, 0, 0, 0, 0),
                    );
                    move_list.push(
                        Move::create(source as u32, target as u32, Piece::P, Piece::N, 0, 0, 0, 0),
                    );
                } else {
                    move_list.push(
                        Move::create(source as u32, target as u32, Piece::P, Piece::P, 0, 0, 0, 0),
                    );
                    if source >= 48 && source <= 55 && !crate::bits::get_bit(
                        board.occupancies[2],
                        target - 8,
                    ) {
                        proof {
                            lemma_or_member(
                                board.occupancies[0],
                                board.occupancies[1],
                                board.occupancies[2],
                                (target - 8) as u64,
                            );
                        }
                        move_list.push(
                            Move::create(
                                source as u32,
                                (target - 8) as u32,
                                Piece::P,
                                Piece::P,
                                0,
                                0,
                                0,
                                1,
                            ),
                        );
                    }
                }
            }
        } else {
            // quiet pushes move one rank down the board
            let target = source + 8;
            if !(target > 63) && !crate::bits::get_bit(board.occupancies[2], target) {
                proof {
                    lemma_or_member(
                        board.occupancies[0],
                        board.occupancies[1],
                        board.occupancies[2],
                        target as u64,
                    );
                }
                if source >= 48 && source <= 55 {
                    move_list.push(
                        Move::create(source as u32, target as u32, Piece::p, Piece::q, 0, 0, 0, 0),
                    );
                    move_list.push(
                        Move::create(source as u32, target as u32, Piece::p, Piece::r, 0, 0, 0, 0),
                    );
                    move_list.push(
                        Move::create(source as u32, target as u32, Piece::p, Piece::n, 0, 0, 0, 0),
                    );
                    move_list.push(
                        Move::create(source as u32, target as u32, Piece::p, Piece::b, 0, 0, 0, 0),
                    );
                } else {
                    move_list.push(
                        Move::create(source as u32, target as u32, Piece::p, Piece::P, 0, 0, 0, 0),
                    );
                    if source >= 8 && source <= 15 && !crate::bits::get_bit(
                        board.occupancies[2],
                        target + 8,
                    ) {
                        proof {
                            lemma_or_member(
                                board.occupancies[0],
                                board.occupancies[1],
                                board.occupancies[2],
                                (target + 8) as u64,
                            );
                        }
                        move_list.push(
                            Move::create(
                                source as u32,
                                (target + 8) as u32,
                                Piece::p,
                                Piece::P,
                                0,
                                0,
                                0,
                                1,
                            ),
                        );
                    }
                }
            }
        }
        // diagonal captures
        let pawn_att: u64 = get_pawn_attacks(tables, board.side, source);
        let base: u64 = pawn_att & opp;
        let mut attacks: u64 = base;
        proof {
            crate::bits::lemma_bit_identities(attacks);
        }
        while attacks != 0
            invariant
                pos_wf(*board),
                source < 64,
                pawn_idx == (if board.side == 0 {
                    0int
                } else {
                    6
                }),
                opp == board.occupancies[1 - board.side as int],
                bit(board.bitboards[pawn_idx as int], source as u64),
                pawn_att == pawn_attacks_spec(board.side as int, source as int),
                base == pawn_att & opp,
                attacks & base == attacks,
                old(move_list)@.len() <= move_list@.len(),
                forall|i: int|
                    0 <= i < old(move_list)@.len() ==> move_list@[i] == old(move_list)@[i],
                forall|i: int|
                    old(move_list)@.len() <= i < move_list@.len() ==> move_wf(
                        #[trigger] move_list@[i],
                        *board,
                    ) && !move_list@[i].is_castling(),
            decreases attacks,
        {
            proof {
                lemma_tz_facts(attacks);
                crate::bits::lemma_and_member(
                    attacks,
                    base,
                    attacks,
                    u64_trailing_zeros(attacks) as u64,
                );
                lemma_subset_pop(attacks, base, u64_trailing_zeros(attacks) as u64);
                let t = u64_trailing_zeros(attacks) as u64;
                crate::bits::lemma_and_member(pawn_att, opp, base, t);
            }
            let target = attacks.trailing_zeros() as usize;
            if board.side == 0 {
                if source >= 8 && source <= 15 {
                    proof {
                        let t = u64_trailing_zeros(attacks) as u64;
                        let src64 = source as u64;
                        crate::bits::lemma_and_member(pawn_att, opp, base, t);
                        assert(pawn_att == ((((1u64 << src64) >> 7u64) & NOT_A_FILE) | (((1u64
                            << src64) >> 9u64) & NOT_H_FILE)));
                        assert(t < 8) by (bit_vector)
                            requires
                                8 <= src64 < 16,
                                t < 64,
                                pawn_att == ((((1u64 << src64) >> 7u64) & NOT_A_FILE) | (((1u64
                                    << src64) >> 9u64) & NOT_H_FILE)),
                                pawn_att & (1u64 << t) != 0,
                        ;
                    }
                    move_list.push(
                        Move::create(source as u32, target as u32, Piece::P, Piece::Q, 1, 0, 0, 0),
                    );
                    move_list.push(
                        Move::create(source as u32, target as u32, Piece::P, Piece::R, 1, 0, 0, 0),
                    );
                    move_list.push(
                        Move::create(source as u32, target as u32, Piece::P, Piece::B, 1, 0, 0, 0),
                    );
                    move_list.push(
                        Move::create(source as u32, target as u32, Piece::P, Piece::N, 1, 0, 0, 0),
                    );
                } else {
                    move_list.push(
                        Move::create(source as u32, target as u32, Piece::P, Piece::P, 1, 0, 0, 0),
                    );
                }
            } else {
                if source >= 48 && source <= 55 {
                    proof {
                        let t = u64_trailing_zeros(attacks) as u64;
                        let src64 = source as u64;
                        crate::bits::lemma_and_member(pawn_att, opp, base, t);
                        assert(pawn_att == ((((1u64 << src64) << 7u64) & NOT_H_FILE) | (((1u64
                            << src64) << 9u64) & NOT_A_FILE)));
                        assert(t >= 56) by (bit_vector)
                            requires
                                48 <= src64 < 56,
                                t < 64,
                                pawn_att == ((((1u64 << src64) << 7u64) & NOT_H_FILE) | (((1u64
                                    << src64) << 9u64) & NOT_A_FILE)),
                                pawn_att & (1u64 << t) != 0,
                        ;
                    }
                    move_list.push(
                        Move::create(source as u32, target as u32, Piece::p, Piece::q, 1, 0, 0, 0),
                    );
                    move_list.push(
                        Move::create(source as u32, target as u32, Piece::p, Piece::r, 1, 0, 0, 0),
                    );
                    move_list.push(
                        Move::create(source as u32, target as u32, Piece::p, Piece::n, 1, 0, 0, 0),
                    );
                    move_list.push(
                        Move::create(source as u32, target as u32, Piece::p, Piece::b, 1, 0, 0, 0),
                    );
                } else {
                    move_list.push(
                        Move::create(source as u32, target as u32, Piece::p, Piece::P, 1, 0, 0, 0),
                    );
                }
            }
            attacks = attacks & !(1u64 << target);
        }
        // en-passant capture onto the stored target square
        if board.enpassant < 64 {
            let ep_att: u64 = pawn_att & (1u64 << board.enpassant);
            if ep_att != 0 {
                proof {
                    lemma_tz_facts(ep_att);
                    let e = board.enpassant as u64;
                    let t = u64_trailing_zeros(ep_att) as u64;
                    assert(t == e) by (bit_vector)
                        requires
                            e < 64,
                            t < 64,
                            ep_att == pawn_att & (1u64 << e),
                            ep_att & (1u64 << t) != 0,
                    ;
                }
                let target_enpassant = ep_att.trailing_zeros() as usize;
                if board.side == 0 {
                    move_list.push(
                        Move::create(
                            source as u32,
                            target_enpassant as u32,
                            Piece::P,
                            Piece::P,
                            1,
                            1,
                            0,
                            0,
                        ),
                    );
                } else {
                    move_list.push(
                        Move::create(
                            source as u32,
                            target_enpassant as u32,
                            Piece::p,
                            Piece::P,
                            1,
                            1,
                            0,
                            0,
                        ),
                    );
                }
            }
        }
        bitboard = bitboard & !(1u64 << source);
    }
}

/// Produces the pseudo-legal move list for the side to move: every listed
/// move is well formed for the position, and the castling moves appear
/// exactly when their right, path emptiness, and path safety allow them.
pub fn generate_moves(tables: &AttackTables, board: &BoardPosition) -> (r: Vec<Move>)
    requires
        tables.wf(),
        pos_wf(*board),
    ensures
        forall|i: int| 0 <= i < r@.len() ==> move_wf(#[trigger] r@[i], *board),
        board.side == 0 ==> (castle_ok_wk(*board) <==> r@.contains(castle_move_wk())),
        board.side == 0 ==> (castle_ok_wq(*board) <==> r@.contains(castle_move_wq())),
        board.side == 1 ==> (castle_ok_bk(*board) <==> r@.contains(castle_move_bk())),
        board.side == 1 ==> (castle_ok_bq(*board) <==> r@.contains(castle_move_bq())),
        forall|i: int|
            0 <= i < r@.len() && (#[trigger] r@[i]).is_castling() ==> r@[i]
                == castle_move_wk() || r@[i] == castle_move_wq() || r@[i] == castle_move_bk()
                || r@[i] == castle_move_bq(),
{
    let mut move_list: Vec<Move> = Vec::new();
    add_pawn_moves(tables, board, &mut move_list);
    add_piece_moves(tables, board, &mut move_list, 5);
    let ghost pre_castle = move_list@;
    add_castling_moves(tables, board, &mut move_list);
    let ghost post_castle = move_list@;
    add_piece_moves(tables, board, &mut move_list, 1);
    add_piece_moves(tables, board, &mut move_list, 2);
    add_piece_moves(tables, board, &mut move_list, 3);
    add_piece_moves(tables, board, &mut move_list, 4);
    proof {
        let full = move_list@;
        let cseq = castle_moves_spec(*board);
        crate::board::lemma_move_encoding_roundtrip(60, 62, 5, 0, 0, 0, 1, 0);
        crate::board::lemma_move_encoding_roundtrip(60, 58, 5, 0, 0, 0, 1, 0);
        crate::board::lemma_move_encoding_roundtrip(4, 6, 11, 0, 0, 0, 1, 0);
        crate::board::lemma_move_encoding_roundtrip(4, 2, 11, 0, 0, 0, 1, 0);
        // the castling moves stand in the list exactly when admitted
        assert forall|cm: Move|
            (cm == castle_move_wk() || cm == castle_move_wq() || cm == castle_move_bk() || cm
                == castle_move_bq()) implies (cseq.contains(cm) <==> full.contains(cm)) by {
            if cseq.contains(cm) {
                let j = choose|j: int| 0 <= j < cseq.len() && cseq[j] == cm;
                assert(full[pre_castle.len() + j] == cm);
            }
            if full.contains(cm) {
                let j = choose|j: int| 0 <= j < full.len() && full[j] == cm;
                assert(cm.is_castling());
                if j < pre_castle.len() || j >= post_castle.len() {
                    assert(!full[j].is_castling());
                    assert(false);
                }
                assert(cseq[j - pre_castle.len()] == cm);
                assert(cseq.contains(cm));
            }
        }
        if board.side == 0 {
            if castle_ok_wk(*board) {
                assert(cseq[0] == castle_move_wk());
                assert(cseq.contains(castle_move_wk()));
            }
            if cseq.contains(castle_move_wk()) {
                assert(castle_ok_wk(*board));
            }
            if castle_ok_wq(*board) {
                assert(cseq[cseq.len() - 1] == castle_move_wq());
                assert(cseq.contains(castle_move_wq()));
            }
            if cseq.contains(castle_move_wq()) {
                assert(castle_ok_wq(*board));
            }
        } else {
            if castle_ok_bk(*board) {
                assert(cseq[0] == castle_move_bk());
                assert(cseq.contains(castle_move_bk()));
            }
            if cseq.contains(castle_move_bk()) {
                assert(castle_ok_bk(*board));
            }
            if castle_ok_bq(*board) {
                assert(cseq[cseq.len() - 1] == castle_move_bq());
                assert(cseq.contains(castle_move_bq()));
            }
            if cseq.contains(castle_move_bq()) {
                assert(castle_ok_bq(*board));
            }
        }
    }
    move_list
}

} // verus!
