//! The move-count diagnostic: sums the leaf nodes of the legal game tree
//! to a fixed depth.

use vstd::prelude::*;
use crate::board::BoardPosition;
use crate::attacks::AttackTables;
use crate::movegen::{
    generate_moves, make_move, pos_wf, boards_disjoint, move_wf, move_legal, has_legal_move,
};

verus! {

/// Adds without overflow, capping at the machine maximum.
fn saturating_add_usize(a: usize, b: usize) -> (r: usize)
    ensures
        r == if a + b <= usize::MAX {
            a + b
        } else {
            usize::MAX as int
        },
{
    if a <= usize::MAX - b {
        a + b
    } else {
        usize::MAX
    }
}

/// Counts the leaf nodes of the legal move tree below `board` at the
/// given depth: each pseudo-legal move is played through `make_move`, and
/// only the legal ones are explored. A depth of zero counts one leaf.
pub fn perft_driver(tables: &AttackTables, board: &BoardPosition, depth: usize) -> (n: usize)
    requires
        tables.wf(),
        pos_wf(*board),
        boards_disjoint(*board),
    ensures
        depth == 0 ==> n == 1,
        depth >= 1 && !has_legal_move(*board) ==> n == 0,
    decreases depth,
{
    if depth == 0 {
        return 1;
    }
    let movelist = generate_moves(tables, board);
    let mut movecount: usize = 0;
    let mut i: usize = 0;
    while i < movelist.len()
        invariant
            tables.wf(),
            pos_wf(*board),
            boards_disjoint(*board),
            depth >= 1,
            forall|j: int|
                0 <= j < movelist@.len() ==> move_wf(#[trigger] movelist@[j], *board),
            i <= movelist@.len(),
            movecount > 0 ==> has_legal_move(*board),
        decreases movelist@.len() - i,
    {
        let mv = movelist[i];
        let next = make_move(tables, board, &mv);
        if let Some(next_board) = next {
            proof {
                assert(move_wf(mv, *board) && move_legal(*board, mv));
                assert(has_legal_move(*board));
            }
            let below = perft_driver(tables, &next_board, depth - 1);
            movecount = saturating_add_usize(movecount, below);
        }
        i += 1;
    }
    movecount
}

} // verus!
