//! Reading a board snapshot from forsyth-edwards-style text, and the
//! runtime check that a snapshot satisfies the live-position invariant.

use vstd::prelude::*;
use vstd::string::StrSliceExecFns;
use vstd::std_specs::bits::{u64_trailing_zeros, axiom_u64_trailing_zeros};
use crate::bits::{bit, get_bit};
use crate::board::{BoardPosition, Move, coordinates_to_squares, coord_wf, coord_square};
use crate::attacks::AttackTables;
use crate::movegen::{pos_wf, boards_disjoint, occ_consistent, single_bit, move_wf, generate_moves};

verus! {

/// Reads a position from forsyth-edwards-style text: piece placement,
/// side to move, castling rights and en-passant square. The move counters
/// are ignored. Malformed text yields a snapshot with whatever fields
/// could be read, with placement kept to the eight files and ranks so
/// that no square is ever claimed twice; `position_ok` tells whether the
/// result is a live position.
pub fn parse_fen(fen: &str) -> (board: BoardPosition)
    ensures
        occ_consistent(board),
        boards_disjoint(board),
        board.side <= 2,
        board.enpassant <= 64,
        board.castle < 16,
        ({
            let sp = first_space(fen@, 0);
            &&& (sp + 1 < fen@.len() ==> board.side == (if fen@[sp + 1] == 'w' {
                0int
            } else if fen@[sp + 1] == 'b' {
                1int
            } else {
                2int
            }))
            &&& (sp + 1 >= fen@.len() ==> board.side == 2)
        }),
{
    let mut board_position = BoardPosition {
        bitboards: [0u64; 12],
        occupancies: [0u64; 3],
        side: 2,
        enpassant: 64,
        castle: 0,
    };
    let n = fen.unicode_len();
    let mut idx: usize = 0;
    let mut rank: usize = 0;
    let mut file: usize = 0;
    let mut saw_space: bool = false;
    proof {
        crate::bits::lemma_bit_identities(0u64);
        assert forall|a: int, b: int| 0 <= a < b < 12 implies #[trigger] (
        board_position.bitboards[a] & board_position.bitboards[b]) == 0 by {
        }
        assert forall|k: int| 0 <= k < 12 implies (#[trigger] board_position.bitboards[k]) >> 0u64
            == 0 by {
        }
    }
    // piece placement, up to the first space
    while idx < n && !saw_space
        invariant
            n == fen@.len(),
            idx <= n,
            rank <= 8,
            file <= 8,
            board_position.side == 2,
            board_position.enpassant == 64,
            board_position.castle == 0,
            board_position.occupancies@ =~= seq![0u64, 0u64, 0u64],
            !saw_space ==> first_space(fen@, 0) == first_space(fen@, idx as int),
            saw_space ==> idx >= 1 && first_space(fen@, 0) == idx - 1,
            forall|a: int, b: int|
                0 <= a < b < 12 ==> #[trigger] (board_position.bitboards[a]
                    & board_position.bitboards[b]) == 0,
            rank * 8 + file < 64 ==> forall|k: int|
                0 <= k < 12 ==> (#[trigger] board_position.bitboards[k]) >> ((rank * 8
                    + file) as u64) == 0,
        decreases n - idx, (if saw_space {
            0int
        } else {
            1
        }),
    {
        let ch = fen.get_char(idx);
        proof {
            if ch != ' ' {
                assert(first_space(fen@, idx as int) == first_space(fen@, idx + 1));
            }
        }
        idx += 1;
        let code = ch as u32;
        if (65 <= code && code <= 90) || (97 <= code && code <= 122) {
            let piece: usize = if ch == 'P' {
                0
            } else if ch == 'N' {
                1
            } else if ch == 'B' {
                2
            } else if ch == 'R' {
                3
            } else if ch == 'Q' {
                4
            } else if ch == 'K' {
                5
            } else if ch == 'p' {
                6
            } else if ch == 'n' {
                7
            } else if ch == 'b' {
                8
            } else if ch == 'r' {
                9
            } else if ch == 'q' {
                10
            } else if ch == 'k' {
                11
            } else {
                12
            };
            if piece < 12 {
                if rank < 8 && file < 8 {
                    let square = rank * 8 + file;
                    let ghost pre = board_position.bitboards@;
                    board_position.bitboards[piece] = board_position.bitboards[piece] | (1u64
                        << square);
                    proof {
                        let w = square as u64;
                        assert forall|a: int, b: int| 0 <= a < b < 12 implies #[trigger] (
                        board_position.bitboards[a] & board_position.bitboards[b]) == 0 by {
                            lemma_watermark(pre[a], pre[b], w, w);
                            lemma_watermark(pre[b], pre[a], w, w);
                        }
                        if square + 1 < 64 {
                            assert forall|k: int| 0 <= k < 12 implies (
                            #[trigger] board_position.bitboards[k]) >> ((square + 1) as u64)
                                == 0 by {
                                lemma_watermark(pre[k], 0, w, (square + 1) as u64);
                            }
                        }
                    }
                }
                if file < 8 {
                    file += 1;
                }
            }
        } else if 48 <= code && code <= 57 {
            let offset = (code - 48) as usize;
            let ghost old_file = file;
            if file + offset > 8 {
                file = 8;
            } else {
                file += offset;
            }
            proof {
                if rank * 8 + file < 64 {
                    assert forall|k: int| 0 <= k < 12 implies (
                    #[trigger] board_position.bitboards[k]) >> ((rank * 8 + file) as u64) == 0 by {
                        lemma_watermark(
                            board_position.bitboards[k],
                            0,
                            (rank * 8 + old_file) as u64,
                            (rank * 8 + file) as u64,
                        );
                    }
                }
            }
        } else if ch == '/' {
            let ghost old_rank = rank;
            let ghost old_file = file;
            if rank < 8 {
                rank += 1;
            }
            file = 0;
            proof {
                if rank * 8 < 64 {
                    assert forall|k: int| 0 <= k < 12 implies (
                    #[trigger] board_position.bitboards[k]) >> ((rank * 8) as u64) == 0 by {
                        lemma_watermark(
                            board_position.bitboards[k],
                            0,
                            (old_rank * 8 + old_file) as u64,
                            (rank * 8) as u64,
                        );
                    }
                }
            }
        } else if ch == ' ' {
            saw_space = true;
        }
    }
    let ghost boards_read = board_position.bitboards;
    proof {
        assert forall|a: int, b: int| 0 <= a < b < 12 implies #[trigger] (boards_read[a]
            & boards_read[b]) == 0 by {
            assert(board_position.bitboards[a] & board_position.bitboards[b] == 0);
        }
    }
    // side to move: the character after the first space
    if idx < n {
        let ch = fen.get_char(idx);
        idx += 1;
        board_position.side = if ch == 'w' {
            0
        } else if ch == 'b' {
            1
        } else {
            2
        };
        if idx < n {
            idx += 1;  // the separating space
        }
    }
    let ghost side_read = board_position.side;
    // castling rights
    while idx < n
        invariant
            n == fen@.len(),
            idx <= n,
            board_position.side == side_read,
            board_position.side <= 2,
            board_position.bitboards == boards_read,
            board_position.enpassant == 64,
            board_position.castle < 16,
            board_position.occupancies@ =~= seq![0u64, 0u64, 0u64],
        decreases n - idx,
    {
        let ch = fen.get_char(idx);
        idx += 1;
        if ch == ' ' {
            break ;
        }
        proof {
            let cv = board_position.castle;
            assert((cv | 1) < 16 && (cv | 2) < 16 && (cv | 4) < 16 && (cv | 8) < 16)
                by (bit_vector)
                requires
                    cv < 16,
            ;
        }
        if ch == 'K' {
            board_position.castle = board_position.castle | 1;
        } else if ch == 'Q' {
            board_position.castle = board_position.castle | 2;
        } else if ch == 'k' {
            board_position.castle = board_position.castle | 4;
        } else if ch == 'q' {
            board_position.castle = board_position.castle | 8;
        }
    }
    // en-passant square
    if idx < n {
        let ch = fen.get_char(idx);
        idx += 1;
        if ch != '-' {
            let code = ch as u32;
            let ep_file: usize = if 97 <= code && code <= 104 {
                (code - 97) as usize
            } else {
                0
            };
            let ep_rank: usize = if idx < n {
                let rch = fen.get_char(idx);
                let rcode = rch as u32;
                if 49 <= rcode && rcode <= 56 {
                    (8 - (rcode - 48)) as usize
                } else {
                    0
                }
            } else {
                0
            };
            board_position.enpassant = ep_rank * 8 + ep_file;
        }
    }
    // aggregate occupancies
    let mut occ0: u64 = 0;
    let mut piece: usize = 0;
    while piece < 6
        invariant
            piece <= 6,
            occ0 == crate::fen::or_prefix(board_position.bitboards@, 0, piece as int),
        decreases 6 - piece,
    {
        occ0 = occ0 | board_position.bitboards[piece];
        piece += 1;
    }
    let mut occ1: u64 = 0;
    let mut piece2: usize = 6;
    while piece2 < 12
        invariant
            6 <= piece2 <= 12,
            occ1 == crate::fen::or_prefix(board_position.bitboards@, 6, piece2 as int),
        decreases 12 - piece2,
    {
        occ1 = occ1 | board_position.bitboards[piece2];
        piece2 += 1;
    }
    proof {
        lemma_or_prefix_six(board_position.bitboards@, 0);
        lemma_or_prefix_six(board_position.bitboards@, 6);
    }
    board_position.occupancies[0] = occ0;
    board_position.occupancies[1] = occ1;
    board_position.occupancies[2] = occ0 | occ1;
    proof {
        assert forall|a: int, b: int| 0 <= a < b < 12 implies #[trigger] (
        board_position.bitboards[a] & board_position.bitboards[b]) == 0 by {
            assert(boards_read[a] & boards_read[b] == 0);
        }
    }
    board_position
}

/// The index of the first space at or after position `i`, or the text
/// length when none remains: the boundary between the piece placement and
/// the side-to-move field.
pub open spec fn first_space(s: Seq<char>, i: int) -> int
    recommends
        0 <= i <= s.len(),
    decreases s.len() - i,
{
    if i < 0 || i >= s.len() {
        s.len() as int
    } else if s[i] == ' ' {
        i
    } else {
        first_space(s, i + 1)
    }
}

/// Placement bookkeeping: a board with no bits at or above the watermark
/// has nothing on the watermark square, stays bounded after placing
/// there, keeps its disjointness, and the empty board satisfies every
/// bound.
proof fn lemma_watermark(x: u64, y: u64, a: u64, b: u64)
    by (bit_vector)
    requires
        a <= b < 64,
    ensures
        x >> a == 0 ==> x >> b == 0,
        x >> a == 0 ==> x & (1u64 << a) == 0,
        x >> a == 0 && a + 1 < 64 ==> (x | (1u64 << a)) >> ((a + 1) as u64) == 0,
        x >> a == 0 && y >> a == 0 ==> ((x | (1u64 << a)) & y) == (x & y) && (y & (x | (1u64
            << a))) == (y & x),
        (0u64 >> b) == 0,
{
}

/// The union of the boards from `lo` (inclusive) to `hi` (exclusive).
pub open spec fn or_prefix(bb: Seq<u64>, lo: int, hi: int) -> u64
    decreases hi - lo,
{
    if hi <= lo {
        0
    } else {
        or_prefix(bb, lo, hi - 1) | bb[hi - 1]
    }
}

/// Folding six boards gives the same union that the invariant states.
proof fn lemma_or_prefix_six(bb: Seq<u64>, lo: int)
    requires
        bb.len() == 12,
        lo == 0 || lo == 6,
    ensures
        or_prefix(bb, lo, lo + 6) == bb[lo] | bb[lo + 1] | bb[lo + 2] | bb[lo + 3] | bb[lo + 4]
            | bb[lo + 5],
{
    let a = bb[lo];
    let b = bb[lo + 1];
    let c = bb[lo + 2];
    let d = bb[lo + 3];
    let e = bb[lo + 4];
    let f = bb[lo + 5];
    assert(or_prefix(bb, lo, lo) == 0);
    assert(or_prefix(bb, lo, lo + 1) == 0u64 | a);
    assert(or_prefix(bb, lo, lo + 2) == (0u64 | a) | b);
    assert(or_prefix(bb, lo, lo + 3) == ((0u64 | a) | b) | c);
    assert(or_prefix(bb, lo, lo + 4) == (((0u64 | a) | b) | c) | d);
    assert(or_prefix(bb, lo, lo + 5) == ((((0u64 | a) | b) | c) | d) | e);
    assert(or_prefix(bb, lo, lo + 6) == (((((0u64 | a) | b) | c) | d) | e) | f);
    assert((((((0u64 | a) | b) | c) | d) | e) | f == a | b | c | d | e | f) by (bit_vector);
}

/// Whether a board is exactly one set bit: nonzero, and clearing its
/// lowest set bit leaves nothing.
fn is_single_bit(x: u64) -> (r: bool)
    ensures
        r == single_bit(x),
{
    let r = x != 0 && (x & (x - 1)) == 0;
    proof {
        if r {
            axiom_u64_trailing_zeros(x);
            let t = u64_trailing_zeros(x) as u64;
            assert(x == (1u64 << t)) by (bit_vector)
                requires
                    x != 0,
                    x & ((x - 1) as u64) == 0,
                    t < 64,
                    (x >> t) & 1u64 == 1u64,
            ;
        }
        if single_bit(x) {
            let k = choose|k: u64| k < 64 && x == (1u64 << k);
            assert(x != 0 && (x & ((x - 1) as u64)) == 0) by (bit_vector)
                requires
                    x == (1u64 << k),
                    k < 64,
            ;
        }
    }
    r
}

/// Decides the live-position invariant, and additionally that no square
/// is claimed by two piece bitboards: the full data-model invariant of a
/// position, checked at the boundary before the core is asked to search.
pub fn position_ok(board: &BoardPosition) -> (r: bool)
    ensures
        r == (pos_wf(*board) && boards_disjoint(*board)),
{
    if board.side >= 2 || board.enpassant > 64 || board.castle >= 16 {
        return false;
    }
    if board.occupancies[0] != board.bitboards[0] | board.bitboards[1] | board.bitboards[2]
        | board.bitboards[3] | board.bitboards[4] | board.bitboards[5] {
        return false;
    }
    if board.occupancies[1] != board.bitboards[6] | board.bitboards[7] | board.bitboards[8]
        | board.bitboards[9] | board.bitboards[10] | board.bitboards[11] {
        return false;
    }
    if board.occupancies[2] != board.occupancies[0] | board.occupancies[1] {
        return false;
    }
    if !is_single_bit(board.bitboards[5]) || !is_single_bit(board.bitboards[11]) {
        return false;
    }
    if board.enpassant < 64 {
        if board.side == 1 && !(40 <= board.enpassant && board.enpassant < 48) {
            return false;
        }
        if board.side == 0 && !(16 <= board.enpassant && board.enpassant < 24) {
            return false;
        }
        if get_bit(board.occupancies[2], board.enpassant) {
            return false;
        }
    }
    if board.castle & 1 != 0 && !(get_bit(board.bitboards[5], 60) && get_bit(
        board.bitboards[3],
        63,
    )) {
        return false;
    }
    if board.castle & 2 != 0 && !(get_bit(board.bitboards[5], 60) && get_bit(
        board.bitboards[3],
        56,
    )) {
        return false;
    }
    if board.castle & 4 != 0 && !(get_bit(board.bitboards[11], 4) && get_bit(
        board.bitboards[9],
        7,
    )) {
        return false;
    }
    if board.castle & 8 != 0 && !(get_bit(board.bitboards[11], 4) && get_bit(
        board.bitboards[9],
        0,
    )) {
        return false;
    }
    let mut i: usize = 0;
    while i < 12
        invariant
            i <= 12,
            forall|a: int, b: int|
                0 <= a < i && a < b < 12 ==> #[trigger] (board.bitboards[a] & board.bitboards[b])
                    == 0,
        decreases 12 - i,
    {
        let mut j: usize = i + 1;
        while j < 12
            invariant
                i < 12,
                i < j <= 12,
                forall|a: int, b: int|
                    0 <= a < i && a < b < 12 ==> #[trigger] (board.bitboards[a]
                        & board.bitboards[b]) == 0,
                forall|b: int|
                    i < b < j ==> #[trigger] (board.bitboards[i as int] & board.bitboards[b]) == 0,
            decreases 12 - j,
        {
            if board.bitboards[i] & board.bitboards[j] != 0 {
                return false;
            }
            j += 1;
        }
        i += 1;
    }
    true
}


/// Whether a promotion code answers a promotion letter: 'q', 'n', 'r'
/// and 'b' each name the white and black piece of that kind; any other
/// letter names nothing.
pub open spec fn promo_letter_matches(promoted: u32, letter: char) -> bool {
    if letter == 'q' {
        promoted == 4 || promoted == 10
    } else if letter == 'n' {
        promoted == 1 || promoted == 7
    } else if letter == 'r' {
        promoted == 3 || promoted == 9
    } else if letter == 'b' {
        promoted == 2 || promoted == 8
    } else {
        false
    }
}

/// Picks the move with the given source and target out of a move list:
/// something is returned exactly when a match exists, the last match by
/// default, and the first whose promotion piece answers the trailing
/// letter when several promotion records share the squares.
pub fn select_move(moves: &Vec<Move>, source: usize, target: usize, letter: Option<char>) -> (r:
    Option<Move>)
    ensures
        (r is Some) == (exists|i: int|
            0 <= i < moves@.len() && (#[trigger] moves@[i]).source() == source && moves@[i].target()
                == target),
        match r {
            Some(m) => {
                &&& m.source() == source
                &&& m.target() == target
                &&& moves@.contains(m)
                &&& (match letter {
                    Some(l) => (exists|i: int|
                        0 <= i < moves@.len() && (#[trigger] moves@[i]).source() == source
                            && moves@[i].target() == target && promo_letter_matches(
                            moves@[i].promoted(),
                            l,
                        )) ==> promo_letter_matches(m.promoted(), l),
                    None => true,
                })
            },
            None => true,
        },
{
    let mut chosen: Option<Move> = None;
    let mut matches_found: usize = 0;
    let mut i: usize = 0;
    while i < moves.len()
        invariant
            i <= moves@.len(),
            matches_found <= i,
            (chosen is Some) == (exists|j: int|
                0 <= j < i && (#[trigger] moves@[j]).source() == source && moves@[j].target()
                    == target),
            (chosen is Some) == (matches_found >= 1),
            match chosen {
                Some(c) => c.source() == source && c.target() == target && moves@.contains(c) && (
                matches_found <= 1 ==> forall|j: int|
                    0 <= j < i && (#[trigger] moves@[j]).source() == source && moves@[j].target()
                        == target ==> moves@[j] == c),
                None => forall|j: int|
                    0 <= j < i ==> !((#[trigger] moves@[j]).source() == source && moves@[j].target()
                        == target),
            },
        decreases moves@.len() - i,
    {
        let m = moves[i];
        if m.get_source_square() as usize == source && m.get_target_square() as usize == target {
            chosen = Some(m);
            matches_found += 1;
        }
        i += 1;
    }
    if matches_found <= 1 {
        proof {
            if chosen is Some {
                if let Some(l) = letter {
                    assert forall|j: int|
                        0 <= j < moves@.len() && (#[trigger] moves@[j]).source() == source
                            && moves@[j].target() == target && promo_letter_matches(
                            moves@[j].promoted(),
                            l,
                        ) implies promo_letter_matches(chosen.unwrap().promoted(), l) by {
                        assert(moves@[j] == chosen.unwrap());
                    }
                }
            }
        }
        return chosen;
    }
    // several candidates differ only in their promotion piece
    if let Some(l) = letter {
        let mut k: usize = 0;
        while k < moves.len()
            invariant
                k <= moves@.len(),
                letter == Some(l),
                forall|j: int|
                    0 <= j < k ==> !((#[trigger] moves@[j]).source() == source && moves@[j].target()
                        == target && promo_letter_matches(moves@[j].promoted(), l)),
                (chosen is Some) == (exists|j: int|
                    0 <= j < moves@.len() && (#[trigger] moves@[j]).source() == source
                        && moves@[j].target() == target),
                match chosen {
                    Some(c) => c.source() == source && c.target() == target && moves@.contains(c),
                    None => true,
                },
            decreases moves@.len() - k,
        {
            let m = moves[k];
            if m.get_source_square() as usize == source && m.get_target_square() as usize == target {
                let promoted = m.get_promoted();
                let wanted = (l == 'q' && (promoted == 4 || promoted == 10)) || (l == 'n' && (
                promoted == 1 || promoted == 7)) || (l == 'r' && (promoted == 3 || promoted == 9))
                    || (l == 'b' && (promoted == 2 || promoted == 8));
                if wanted {
                    proof {
                        assert(moves@.contains(m));
                        assert((#[trigger] moves@[k as int]).source() == source && moves@[
                            k as int
                        ].target() == target);
                    }
                    return Some(m);
                }
            }
            k += 1;
        }
    }
    chosen
}

/// Reads one move in coordinate text such as "e2e4" or "e7e8q" against
/// the position's pseudo-legal moves, through `select_move`, which owes
/// the precise selection. Text that matches no generated move reads as
/// nothing.
pub fn parse_move(tables: &AttackTables, board: &BoardPosition, move_to_parse: &str) -> (r: Option<
    Move,
>)
    requires
        tables.wf(),
        pos_wf(*board),
    ensures
        match r {
            Some(m) => {
                &&& move_wf(m, *board)
                &&& coord_wf(move_to_parse@)
                &&& coord_wf(move_to_parse@.subrange(2, 4))
                &&& m.source() == coord_square(move_to_parse@)
                &&& m.target() == coord_square(move_to_parse@.subrange(2, 4))
            },
            None => true,
        },
        move_to_parse@.len() < 4 || !coord_wf(move_to_parse@) || !coord_wf(
            move_to_parse@.subrange(2, 4),
        ) ==> r is None,
{
    let n = move_to_parse.unicode_len();
    if n < 4 {
        return None;
    }
    let c0 = move_to_parse.get_char(0) as u32;
    let c1 = move_to_parse.get_char(1) as u32;
    let c2 = move_to_parse.get_char(2) as u32;
    let c3 = move_to_parse.get_char(3) as u32;
    if !(97 <= c0 && c0 <= 104 && 49 <= c1 && c1 <= 56 && 97 <= c2 && c2 <= 104 && 49 <= c3 && c3
        <= 56) {
        return None;
    }
    let src = coordinates_to_squares(move_to_parse);
    let target_str = move_to_parse.substring_char(2, 4);
    let target = coordinates_to_squares(target_str);
    let moves = generate_moves(tables, board);
    let letter: Option<char> = if n >= 5 {
        Some(move_to_parse.get_char(4))
    } else {
        None
    };
    let picked = select_move(&moves, src, target, letter);
    proof {
        if picked is Some {
            let c = picked.unwrap();
            let j = choose|j: int| 0 <= j < moves@.len() && moves@[j] == c;
            assert(move_wf(moves@[j], *board));
        }
    }
    picked
}

} // verus!