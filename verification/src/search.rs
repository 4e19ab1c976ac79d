//! The depth-limited adversarial search: negamax with alpha-beta pruning,
//! a capture-only quiescence extension, and killer/history move ordering
//! held in a context owned by one search invocation.

use vstd::prelude::*;
use vstd::seq_lib::group_to_multiset_ensures;
use vstd::seq_lib::to_multiset_update;
use crate::bits::bit;
use crate::board::{BoardPosition, Move, move_to_alg, move_alg_spec};
use crate::attacks::AttackTables;
use crate::movegen::{
    generate_moves, make_move, is_square_attacked, square_attacked, pos_wf, boards_disjoint,
    move_wf, move_legal, has_legal_move,
};

verus! {

/// An external position evaluator: a deterministic score from the
/// perspective of the side to move, higher meaning better for the mover,
/// bounded well inside the mate-sentinel band.
pub trait Evaluator {
    /// The score this evaluator assigns.
    spec fn spec_eval(&self, board: BoardPosition) -> int;

    /// Computes the score.
    fn evaluate(&self, board: &BoardPosition) -> (score: i32)
        ensures
            score == self.spec_eval(*board),
            -4000000 < score < 4000000,
    ;
}

/// The neutral evaluator: every position scores zero. It stands in where
/// no real evaluator is supplied, and leaves the search deciding purely
/// by mate and stalemate.
pub struct ZeroEvaluator;

impl Evaluator for ZeroEvaluator {
    open spec fn spec_eval(&self, board: BoardPosition) -> int {
        0
    }

    fn evaluate(&self, board: &BoardPosition) -> (score: i32) {
        0
    }
}

/// The mutable ordering state of one root search: two killer-move slots
/// per ply and a depth-weighted history bonus per piece and target
/// square. One search invocation owns one context; a new root search
/// starts from a freshly reset one.
pub struct SearchContext {
    pub max_depth: usize,
    pub killer_moves: Vec<u32>,
    pub history_moves: Vec<usize>,
}

impl SearchContext {
    /// The slot shapes: two killer banks of 256 plies, and one history
    /// cell per piece kind and target square.
    pub open spec fn wf(self) -> bool {
        &&& self.killer_moves@.len() == 512
        &&& self.history_moves@.len() == 768
    }

    /// A fresh context with every slot cleared: a new root search starts
    /// from reset ordering state, never from a previous search's.
    pub fn reset(max_depth: usize) -> (ctx: SearchContext)
        ensures
            ctx.wf(),
            ctx.max_depth == max_depth,
            forall|k: int| 0 <= k < 512 ==> ctx.killer_moves@[k] == 0,
            forall|k: int| 0 <= k < 768 ==> ctx.history_moves@[k] == 0,
    {
        let mut killer_moves: Vec<u32> = Vec::new();
        let mut i: usize = 0;
        while i < 512
            invariant
                killer_moves@.len() == i,
                i <= 512,
                forall|k: int| 0 <= k < i ==> killer_moves@[k] == 0,
            decreases 512 - i,
        {
            killer_moves.push(0);
            i += 1;
        }
        let mut history_moves: Vec<usize> = Vec::new();
        let mut j: usize = 0;
        while j < 768
            invariant
                history_moves@.len() == j,
                j <= 768,
                forall|k: int| 0 <= k < j ==> history_moves@[k] == 0,
            decreases 768 - j,
        {
            history_moves.push(0);
            j += 1;
        }
        SearchContext { max_depth, killer_moves, history_moves }
    }
}

/// The victim-major, attacker-minor capture score: capturing a higher
/// piece kind with a lower one scores highest.
pub open spec fn mvv_lva_spec(victim: int, attacker: int) -> int {
    (victim % 6 + 1) * 100000000 + (5 - attacker % 6) * 1000000
}

/// Scores a capture by its victim and attacker piece kinds.
pub fn get_MVV_LVA(victim: usize, attacker: usize) -> (r: usize)
    ensures
        r == mvv_lva_spec(victim as int, attacker as int),
{
    (victim % 6 + 1) * 100000000 + (5 - attacker % 6) * 1000000
}

/// The first opposing piece kind found on the move's target square, or
/// zero when none holds it.
pub open spec fn victim_spec(p: BoardPosition, m: Move) -> int
    recommends
        p.side < 2,
{
    let sv = (1 - p.side) as int * 6;
    let t = m.target() as u64;
    if bit(p.bitboards[sv], t) {
        sv
    } else if bit(p.bitboards[sv + 1], t) {
        sv + 1
    } else if bit(p.bitboards[sv + 2], t) {
        sv + 2
    } else if bit(p.bitboards[sv + 3], t) {
        sv + 3
    } else if bit(p.bitboards[sv + 4], t) {
        sv + 4
    } else if bit(p.bitboards[sv + 5], t) {
        sv + 5
    } else {
        0
    }
}

/// Finds the opposing piece kind standing on the move's target square.
pub fn get_victim(board_position: &BoardPosition, mv: &Move) -> (r: usize)
    requires
        board_position.side < 2,
    ensures
        r == victim_spec(*board_position, *mv),
        r < 12,
{
    let sidevar: usize = ((board_position.side + 1) % 2) * 6;
    let target = mv.get_target_square() as usize;
    let mut i: usize = sidevar;
    while i < sidevar + 6
        invariant
            sidevar == (1 - board_position.side as int) * 6,
            board_position.side < 2,
            target == mv.target(),
            target < 64,
            sidevar <= i <= sidevar + 6,
            forall|j: int|
                sidevar <= j < i ==> !bit(board_position.bitboards[j], mv.target() as u64),
        decreases sidevar + 6 - i,
    {
        if crate::bits::get_bit(board_position.bitboards[i], target) {
            return i;
        }
        i += 1;
    }
    0
}

/// The ordering score of one move: captures by the victim-major table,
/// quiet moves by the killer slots of the ply and then the history bonus
/// of their piece and target.
pub open spec fn move_score_spec(p: BoardPosition, m: Move, ply: int, ctx: SearchContext) -> int
    recommends
        p.side < 2,
        ctx.wf(),
        m.is_capture() || 0 <= ply < 256,
{
    if m.is_capture() {
        mvv_lva_spec(victim_spec(p, m), m.piece() as int)
    } else if ctx.killer_moves@[ply] == m.mv {
        9000000
    } else if ctx.killer_moves@[256 + ply] == m.mv {
        8000000
    } else {
        ctx.history_moves@[m.piece() * 64 + m.target()] as int
    }
}

/// Scores one move for ordering.
pub fn get_move_score(
    board_position: &BoardPosition,
    mv: &Move,
    ply: usize,
    ctx: &SearchContext,
) -> (r: usize)
    requires
        board_position.side < 2,
        ctx.wf(),
        mv.piece() < 12,
        mv.is_capture() || ply < 256,
    ensures
        r == move_score_spec(*board_position, *mv, ply as int, *ctx),
{
    if mv.get_capture() {
        let victim = get_victim(board_position, mv);
        return get_MVV_LVA(victim, mv.get_piece() as usize);
    }
    if ctx.killer_moves[ply] == mv.mv {
        return 9000000;
    }
    if ctx.killer_moves[256 + ply] == mv.mv {
        return 8000000;
    }
    ctx.history_moves[(mv.get_piece() as usize) * 64 + (mv.get_target_square() as usize)]
}

/// A neighbour swap keeps the multiset of a sequence.
proof fn lemma_swap_multiset(s: Seq<Move>, i: int, j: int)
    requires
        0 <= i < s.len(),
        0 <= j < s.len(),
    ensures
        s.update(i, s[j]).update(j, s[i]).to_multiset() =~= s.to_multiset(),
{
    broadcast use group_to_multiset_ensures;
    broadcast use to_multiset_update;
    broadcast use vstd::multiset::group_multiset_axioms;

    if i == j {
        assert(s.update(i, s[j]).update(j, s[i]) =~= s);
    } else {
        let s1 = s.update(i, s[j]);
        assert(s1[j] == s[j] && s1[i] == s[j]);
        assert(s1.to_multiset() =~= s.to_multiset().insert(s[j]).remove(s[i]));
        assert(s1.update(j, s[i]).to_multiset() =~= s1.to_multiset().insert(s[i]).remove(s1[j]));
        assert(s1.update(j, s[i]).to_multiset() =~= s.to_multiset().insert(s[j]).remove(
            s[i],
        ).insert(s[i]).remove(s[j]));
        assert forall|x: Move|
            s.to_multiset().insert(s[j]).remove(s[i]).insert(s[i]).remove(s[j]).count(x)
                == s.to_multiset().count(x) by {
        }
        assert(s.to_multiset().insert(s[j]).remove(s[i]).insert(s[i]).remove(s[j])
            =~= s.to_multiset());
    }
}

/// Slot `a` of the list scores at least slot `b` under the ordering
/// heuristics.
pub open spec fn scores_ordered(
    p: BoardPosition,
    s: Seq<Move>,
    ply: int,
    ctx: SearchContext,
    a: int,
    b: int,
) -> bool
    recommends
        0 <= a < s.len(),
        0 <= b < s.len(),
{
    move_score_spec(p, s[a], ply, ctx) >= move_score_spec(p, s[b], ply, ctx)
}

/// Sorts the move list in place by descending ordering score, keeping the
/// order of equal scores: a stable insertion sort by neighbour swaps. The
/// result holds exactly the moves it was given.
pub fn sort_moves(
    board_position: &BoardPosition,
    move_list: &mut Vec<Move>,
    ply: usize,
    ctx: &SearchContext,
)
    requires
        board_position.side < 2,
        ctx.wf(),
        forall|k: int| 0 <= k < old(move_list)@.len() ==> (#[trigger] old(move_list)@[k]).piece() < 12,
        (forall|k: int|
            0 <= k < old(move_list)@.len() ==> (#[trigger] old(move_list)@[k]).is_capture()) || ply
            < 256,
    ensures
        final(move_list)@.to_multiset() == old(move_list)@.to_multiset(),
        final(move_list)@.len() == old(move_list)@.len(),
        forall|k: int|
            0 <= k < final(move_list)@.len() ==> old(move_list)@.contains(
                #[trigger] final(move_list)@[k],
            ),
        forall|a: int, b: int|
            0 <= a < b < final(move_list)@.len() ==> scores_ordered(
                *board_position,
                final(move_list)@,
                ply as int,
                *ctx,
                a,
                b,
            ),
{
    proof {
        broadcast use group_to_multiset_ensures;

    }
    let n = move_list.len();
    let mut i: usize = 1;
    while i < n
        invariant
            n == move_list@.len(),
            board_position.side < 2,
            ctx.wf(),
            move_list@.to_multiset() == old(move_list)@.to_multiset(),
            forall|k: int| 0 <= k < move_list@.len() ==> (#[trigger] move_list@[k]).piece() < 12,
            (forall|k: int|
                0 <= k < move_list@.len() ==> (#[trigger] move_list@[k]).is_capture()) || ply
                < 256,
            forall|a: int, b: int|
                0 <= a < b < i ==> scores_ordered(
                    *board_position,
                    move_list@,
                    ply as int,
                    *ctx,
                    a,
                    b,
                ),
        decreases n - i,
    {
        let mut j: usize = i;
        let mut placed: bool = false;
        while j > 0 && !placed
            invariant
                n == move_list@.len(),
                board_position.side < 2,
                ctx.wf(),
                j <= i < n,
                move_list@.to_multiset() == old(move_list)@.to_multiset(),
                forall|k: int|
                    0 <= k < move_list@.len() ==> (#[trigger] move_list@[k]).piece() < 12,
                (forall|k: int|
                    0 <= k < move_list@.len() ==> (#[trigger] move_list@[k]).is_capture()) || ply
                    < 256,
                // every pair below the insertion point is already ordered
                forall|a: int, b: int|
                    0 <= a < b <= i && a != j && b != j ==> scores_ordered(
                        *board_position,
                        move_list@,
                        ply as int,
                        *ctx,
                        a,
                        b,
                    ),
                // the inserted element outscores everything it passed
                forall|b: int|
                    j < b <= i ==> move_score_spec(
                        *board_position,
                        move_list@[j as int],
                        ply as int,
                        *ctx,
                    ) > move_score_spec(*board_position, #[trigger] move_list@[b], ply as int, *ctx),
                placed ==> 0 < j && scores_ordered(
                    *board_position,
                    move_list@,
                    ply as int,
                    *ctx,
                    j - 1,
                    j as int,
                ),
            decreases 2 * j + (if placed {
                0int
            } else {
                1
            }),
        {
            let upper = get_move_score(board_position, &move_list[j - 1], ply, ctx);
            let lower = get_move_score(board_position, &move_list[j], ply, ctx);
            if upper >= lower {
                placed = true;
            } else {
                let ghost pre = move_list@;
                let a = move_list[j - 1];
                let b = move_list[j];
                move_list[j - 1] = b;
                move_list[j] = a;
                proof {
                    lemma_swap_multiset(pre, j - 1, j as int);
                    assert(move_list@ =~= pre.update(j - 1 as int, pre[j as int]).update(
                        j as int,
                        pre[j - 1 as int],
                    ));
                    let cur = move_list@;
                    assert forall|x: int, y: int|
                        0 <= x < y <= i && x != j - 1 && y != j - 1 implies scores_ordered(
                        *board_position,
                        cur,
                        ply as int,
                        *ctx,
                        x,
                        y,
                    ) by {
                        if y == j {
                            assert(scores_ordered(*board_position, pre, ply as int, *ctx, x, j - 1));
                        } else if x == j {
                            assert(scores_ordered(*board_position, pre, ply as int, *ctx, j - 1, y));
                        } else {
                            assert(scores_ordered(*board_position, pre, ply as int, *ctx, x, y));
                        }
                    }
                    assert forall|y: int| j - 1 < y <= i implies move_score_spec(
                        *board_position,
                        cur[j - 1],
                        ply as int,
                        *ctx,
                    ) > move_score_spec(*board_position, #[trigger] cur[y], ply as int, *ctx) by {
                        if y != j {
                            assert(move_score_spec(*board_position, pre[j as int], ply as int, *ctx)
                                > move_score_spec(*board_position, pre[y], ply as int, *ctx));
                        }
                    }
                }
                j -= 1;
            }
        }
        proof {
            assert forall|a: int, b: int| 0 <= a < b <= i implies scores_ordered(
                *board_position,
                move_list@,
                ply as int,
                *ctx,
                a,
                b,
            ) by {
                if b == j && a < j - 1 {
                    assert(scores_ordered(*board_position, move_list@, ply as int, *ctx, a, j - 1));
                }
            }
        }
        i += 1;
    }
    proof {
        assert forall|k: int| 0 <= k < move_list@.len() implies old(move_list)@.contains(
            #[trigger] move_list@[k],
        ) by {
            assert(move_list@.to_multiset().count(move_list@[k]) > 0);
        }
    }
}

/// Adds without overflow, capping node counts at the type maximum.
fn saturating_add_i32(a: i32, b: i32) -> (r: i32)
    requires
        a >= 0,
        b >= 0,
    ensures
        r == if a + b <= i32::MAX {
            a + b
        } else {
            i32::MAX as int
        },
        r >= 0,
{
    if a <= i32::MAX - b {
        a + b
    } else {
        i32::MAX
    }
}

/// The hard bound on quiescence recursion: capture chains never run past
/// this many plies beyond the main search horizon.
pub const QUIESCENCE_PLY_CAP: usize = 64;

/// The capture-only extension search at the horizon: stands pat on the
/// evaluator's score, cuts off at beta, then explores captures ordered by
/// the victim-major table until none improves alpha. Returns the score
/// bound found and the nodes visited below this one.
pub fn quiescence<E: Evaluator>(
    tables: &AttackTables,
    evaluator: &E,
    board_position: &BoardPosition,
    alpha: i32,
    beta: i32,
    ply: usize,
    ctx: &SearchContext,
) -> (r: (i32, i32))
    requires
        tables.wf(),
        pos_wf(*board_position),
        boards_disjoint(*board_position),
        ctx.wf(),
        ctx.max_depth <= 255,
        -5000000 <= alpha < beta <= 5000000,
    ensures
        alpha <= r.0 <= beta,
        r.1 >= 0,
        evaluator.spec_eval(*board_position) >= beta ==> r == (beta, 0i32),
        evaluator.spec_eval(*board_position) < beta ==> r.0 >= (if evaluator.spec_eval(
            *board_position,
        ) > alpha {
            evaluator.spec_eval(*board_position)
        } else {
            alpha as int
        }) && r.1 >= 1,
    decreases QUIESCENCE_PLY_CAP - ply,
{
    let eval = evaluator.evaluate(board_position);
    if eval >= beta {
        return (beta, 0);
    }
    let mut new_alpha = alpha;
    if eval > alpha {
        new_alpha = eval;
    }
    if ply >= QUIESCENCE_PLY_CAP {
        // the explicit ply cap: stand pat rather than extend further
        return (new_alpha, 1);
    }
    let move_list = generate_moves(tables, board_position);
    let mut filtered_move_list: Vec<Move> = Vec::new();
    let mut k: usize = 0;
    while k < move_list.len()
        invariant
            k <= move_list@.len(),
            forall|j: int|
                0 <= j < move_list@.len() ==> move_wf(#[trigger] move_list@[j], *board_position),
            forall|j: int|
                0 <= j < filtered_move_list@.len() ==> move_wf(
                    #[trigger] filtered_move_list@[j],
                    *board_position,
                ) && filtered_move_list@[j].is_capture(),
        decreases move_list@.len() - k,
    {
        let mv = move_list[k];
        if mv.get_capture() {
            filtered_move_list.push(mv);
        }
        k += 1;
    }
    proof {
        assert forall|j: int| 0 <= j < filtered_move_list@.len() implies (
        #[trigger] filtered_move_list@[j]).piece() < 12 by {
            assert(move_wf(filtered_move_list@[j], *board_position));
        }
    }
    let ghost pre_sort = filtered_move_list@;
    sort_moves(board_position, &mut filtered_move_list, ctx.max_depth + ply, ctx);
    proof {
        assert forall|j: int| 0 <= j < filtered_move_list@.len() implies move_wf(
            #[trigger] filtered_move_list@[j],
            *board_position,
        ) && filtered_move_list@[j].is_capture() by {
            assert(pre_sort.contains(filtered_move_list@[j]));
            let j0 = choose|j0: int| 0 <= j0 < pre_sort.len() && pre_sort[j0] == filtered_move_list@[j];
            assert(move_wf(pre_sort[j0], *board_position));
        }
    }
    let mut nodes: i32 = 1;
    let mut idx: usize = 0;
    while idx < filtered_move_list.len()
        invariant
            tables.wf(),
            pos_wf(*board_position),
            boards_disjoint(*board_position),
            ctx.wf(),
            -5000000 <= alpha < beta <= 5000000,
            alpha <= new_alpha < beta,
            evaluator.spec_eval(*board_position) < beta,
            new_alpha >= evaluator.spec_eval(*board_position),
            ctx.max_depth <= 255,
            nodes >= 1,
            ply < QUIESCENCE_PLY_CAP,
            idx <= filtered_move_list@.len(),
            forall|j: int|
                0 <= j < filtered_move_list@.len() ==> move_wf(
                    #[trigger] filtered_move_list@[j],
                    *board_position,
                ),
        decreases filtered_move_list@.len() - idx,
    {
        let mv = filtered_move_list[idx];
        let nbp_option = make_move(tables, board_position, &mv);
        if let Some(nbp) = nbp_option {
            let res = quiescence(tables, evaluator, &nbp, -beta, -new_alpha, ply + 1, ctx);
            nodes = saturating_add_i32(nodes, res.1);
            if -res.0 >= beta {
                return (beta, nodes);
            }
            if -res.0 > new_alpha {
                new_alpha = -res.0;
            }
        }
        idx += 1;
    }
    (new_alpha, nodes)
}


/// The terminal score of a position whose side to move has no legal
/// moves: a checkmate scores as the mate sentinel reduced by the
/// remaining depth, so an earlier mate counts as more decisive, and lies
/// strictly inside the mate band; a stalemate scores exactly zero.
pub fn terminal_score(in_check: bool, depth: usize) -> (score: i32)
    requires
        depth <= 255,
    ensures
        in_check ==> score == -4999900 - depth,
        in_check ==> score < -4000000,
        !in_check <==> score == 0,
{
    if in_check {
        -4999900 - (depth as i32)
    } else {
        0
    }
}

/// Recursive minimax with alpha-beta pruning in the negamax convention:
/// each child is searched with the negated, swapped window and its score
/// negated back. At depth zero control passes to the quiescence search.
/// A side with no legal moves scores as mate or stalemate through
/// `terminal_score`. Returns the principal line (deepest move first),
/// the score bound, and the nodes visited.
pub fn negamax<E: Evaluator>(
    tables: &AttackTables,
    evaluator: &E,
    board_position: &BoardPosition,
    alpha: i32,
    beta: i32,
    depth: usize,
    ctx: &mut SearchContext,
) -> (r: (Vec<Option<Move>>, i32, i32))
    requires
        tables.wf(),
        pos_wf(*board_position),
        boards_disjoint(*board_position),
        old(ctx).wf(),
        old(ctx).max_depth <= 255,
        depth <= old(ctx).max_depth,
        -5000000 <= alpha < beta <= 5000000,
    ensures
        final(ctx).wf(),
        final(ctx).max_depth == old(ctx).max_depth,
        (alpha <= r.1 <= beta) || r.1 == 0 || r.1 == -4999900 - depth,
        -5000155 <= r.1 <= 5000000,
        r.2 >= 0,
        depth == 0 ==> r.0@.len() == 0 && alpha <= r.1 <= beta,
        depth >= 1 ==> r.2 >= 1,
        // a score pinned to beta is a cutoff, and a cutoff returns an
        // empty principal line: the window-failure signal the aspiration
        // retry relies on
        depth >= 1 && r.1 == beta ==> r.0@.len() == 0,
        // a principal line ending in a move comes from a true alpha raise
        depth >= 1 && r.0@.len() > 0 && r.0@.last() is Some ==> alpha < r.1 < beta,
        // with no legal candidate at all, the score is the mate sentinel
        // reduced by the remaining depth under check, and exactly zero in
        // a stalemate
        depth >= 1 && !has_legal_move(*board_position) ==> r.0@.len() == 0 && r.2 == 1 && r.1 == (
        if square_attacked(
            *board_position,
            vstd::std_specs::bits::u64_trailing_zeros(
                board_position.bitboards[6 * board_position.side as int + 5],
            ) as int,
        ) {
            -4999900 - depth
        } else {
            0int
        }),
    decreases depth,
{
    if depth == 0 {
        let score = quiescence(tables, evaluator, board_position, alpha, beta, 1, ctx);
        let empty: Vec<Option<Move>> = Vec::new();
        return (empty, score.0, score.1);
    }
    let mut new_alpha = alpha;
    let mut move_list = generate_moves(tables, board_position);
    proof {
        assert forall|j: int| 0 <= j < move_list@.len() implies (#[trigger] move_list@[j]).piece()
            < 12 by {
            assert(move_wf(move_list@[j], *board_position));
        }
    }
    let ghost pre_sort = move_list@;
    sort_moves(board_position, &mut move_list, ctx.max_depth - depth, ctx);
    proof {
        assert forall|j: int| 0 <= j < move_list@.len() implies move_wf(
            #[trigger] move_list@[j],
            *board_position,
        ) by {
            assert(pre_sort.contains(move_list@[j]));
            let j0 = choose|j0: int| 0 <= j0 < pre_sort.len() && pre_sort[j0] == move_list@[j];
            assert(move_wf(pre_sort[j0], *board_position));
        }
    }
    let mut nodes: i32 = 1;
    let mut best_move: Option<Move> = None;
    let mut best_move_list: Vec<Option<Move>> = Vec::new();
    let mut legal_moves: usize = 0;
    let mut idx: usize = 0;
    while idx < move_list.len()
        invariant
            tables.wf(),
            pos_wf(*board_position),
            boards_disjoint(*board_position),
            ctx.wf(),
            ctx.max_depth == old(ctx).max_depth,
            ctx.max_depth <= 255,
            1 <= depth <= ctx.max_depth,
            -5000000 <= alpha < beta <= 5000000,
            alpha <= new_alpha < beta,
            (best_move is Some) == (alpha < new_alpha),
            legal_moves > 0 ==> has_legal_move(*board_position),
            nodes >= 1,
            legal_moves <= idx,
            idx <= move_list@.len(),
            forall|j: int|
                0 <= j < move_list@.len() ==> move_wf(#[trigger] move_list@[j], *board_position),
        decreases move_list@.len() - idx,
    {
        let mv = move_list[idx];
        let nbp_option = make_move(tables, board_position, &mv);
        if let Some(nbp) = nbp_option {
            proof {
                assert(move_wf(mv, *board_position) && move_legal(*board_position, mv));
                assert(has_legal_move(*board_position));
            }
            legal_moves += 1;
            let res = negamax(tables, evaluator, &nbp, -beta, -new_alpha, depth - 1, ctx);
            nodes = saturating_add_i32(nodes, res.2);
            if -res.1 >= beta {
                if !mv.get_capture() {
                    // record a quiet beta cutoff in the killer slots
                    let ply = ctx.max_depth - depth;
                    let first = ctx.killer_moves[ply];
                    ctx.killer_moves[256 + ply] = first;
                    ctx.killer_moves[ply] = mv.mv;
                }
                let empty: Vec<Option<Move>> = Vec::new();
                return (empty, beta, nodes);
            }
            if -res.1 > new_alpha {
                if !mv.get_capture() {
                    // a quiet move raised alpha: grow its history bonus
                    let hidx = (mv.get_piece() as usize) * 64 + (mv.get_target_square() as usize);
                    let prior = ctx.history_moves[hidx];
                    let bonus = if prior <= usize::MAX - depth {
                        prior + depth
                    } else {
                        usize::MAX
                    };
                    ctx.history_moves[hidx] = bonus;
                }
                new_alpha = -res.1;
                best_move = Some(mv);
                best_move_list = res.0;
            }
        }
        idx += 1;
    }
    if legal_moves == 0 {
        let king_board = board_position.bitboards[6 * board_position.side + 5];
        proof {
            crate::movegen::lemma_single_bit_nonzero(king_board);
            vstd::std_specs::bits::axiom_u64_trailing_zeros(king_board);
        }
        let king_sq = king_board.trailing_zeros() as usize;
        let in_check = is_square_attacked(tables, king_sq, board_position);
        let score = terminal_score(in_check, depth);
        let empty: Vec<Option<Move>> = Vec::new();
        return (empty, score, 1);
    }
    best_move_list.push(best_move);
    (best_move_list, new_alpha, nodes)
}

/// Converts an internal mate score to a distance-to-mate figure in
/// moves, positive when the side to move delivers the mate.
pub fn score_to_mate(score: i32, depth: usize) -> (r: i32)
    requires
        depth <= 255,
        score > 4000000 || score < -4000000,
        -5000155 <= score <= 5000000,
    ensures
        score > 0 ==> r == mate_div2(4999901 + depth - score),
        score < 0 ==> r == mate_div2(-score - 4999900 - depth),
{
    if score > 0 {
        let bound: u64 = 4999901 + depth as u64;
        let sc: u64 = score as u64;
        if bound >= sc {
            ((bound - sc) / 2) as i32
        } else {
            0i32 - (((sc - bound) / 2) as i32)
        }
    } else {
        let magnitude: u64 = ((0i64 - (score as i64))) as u64;
        let base: u64 = 4999900 + depth as u64;
        if magnitude >= base {
            ((magnitude - base) / 2) as i32
        } else {
            0i32 - (((base - magnitude) / 2) as i32)
        }
    }
}

/// Division by two truncating toward zero, as machine division does.
pub open spec fn mate_div2(n: int) -> int {
    if n >= 0 {
        n / 2
    } else {
        -((-n) / 2)
    }
}

/// The rendering of the principal-variation entries at positions `i` and
/// above, walked from the deepest entry downward, space separated.
pub open spec fn pv_string_spec(moves: Seq<Option<Move>>, i: int) -> Seq<char>
    decreases moves.len() - i,
{
    if i < 0 || i >= moves.len() {
        Seq::empty()
    } else {
        let above = pv_string_spec(moves, i + 1);
        match moves[i] {
            Option::None => above,
            Option::Some(m) => if above.len() == 0 {
                move_alg_spec(m)
            } else {
                above + seq![' '] + move_alg_spec(m)
            },
        }
    }
}

/// Joins a principal line into one space-separated string, deepest entry
/// last in the list and first in the text.
pub fn collectPv(moves: &Vec<Option<Move>>) -> (r: String)
    ensures
        r@ =~= pv_string_spec(moves@, 0),
{
    let n = moves.len();
    let mut out = String::new();
    let mut first: bool = true;
    let mut k: usize = 0;
    while k < n
        invariant
            n == moves@.len(),
            k <= n,
            out@ =~= pv_string_spec(moves@, n - k),
            first == (out@.len() == 0),
        decreases n - k,
    {
        let i = n - 1 - k;
        if let Some(m) = moves[i] {
            if first {
                let alg = move_to_alg(&m);
                out.append(alg.as_str());
                proof {
                    assert(move_alg_spec(m).len() >= 4);
                }
                first = false;
            } else {
                proof {
                    reveal_strlit(" ");
                }
                out.append(" ");
                let alg = move_to_alg(&m);
                out.append(alg.as_str());
                proof {
                    assert(move_alg_spec(m).len() >= 4);
                }
            }
        }
        k += 1;
    }
    out
}

/// Runs one fixed-depth root search with a full window and a freshly
/// reset ordering context, returning the principal line, the score, and
/// the node count.
pub fn search<E: Evaluator>(
    tables: &AttackTables,
    evaluator: &E,
    board_position: &BoardPosition,
    depth: usize,
) -> (r: (Vec<Option<Move>>, i32, i32))
    requires
        tables.wf(),
        pos_wf(*board_position),
        boards_disjoint(*board_position),
        depth <= 255,
    ensures
        -5000155 <= r.1 <= 5000000,
        r.2 >= 0,
        depth >= 1 ==> r.2 >= 1,
        depth >= 1 && r.1 == 5000000 ==> r.0@.len() == 0,
        depth >= 1 && r.0@.len() > 0 && r.0@.last() is Some ==> -5000000 < r.1 < 5000000,
        depth >= 1 && !has_legal_move(*board_position) ==> r.0@.len() == 0 && r.2 == 1 && r.1 == (
        if square_attacked(
            *board_position,
            vstd::std_specs::bits::u64_trailing_zeros(
                board_position.bitboards[6 * board_position.side as int + 5],
            ) as int,
        ) {
            -4999900 - depth
        } else {
            0int
        }),
{
    let mut ctx = SearchContext::reset(depth);
    negamax(tables, evaluator, board_position, -5000000, 5000000, depth, &mut ctx)
}

/// One aspiration-window step for iterative deepening: centers the next
/// window around the last score with the given margins, and doubles the
/// margin on the side the previous result fell out of. A result at or
/// below alpha widens the low side; one at or above beta widens the high
/// side; otherwise both margins reset for the next depth.
pub fn aspiration_window(
    last_score: i32,
    score: i32,
    low_margin: i32,
    high_margin: i32,
) -> (r: (i32, i32, bool))
    requires
        1 <= low_margin <= 1000000,
        1 <= high_margin <= 1000000,
        -6000000 <= last_score <= 6000000,
        -6000000 <= score <= 6000000,
    ensures
        r.2 == (score <= last_score - low_margin || score >= last_score + high_margin),
        score <= last_score - low_margin ==> r.0 == 2 * low_margin && r.1 == high_margin
            && r.2,
        !(score <= last_score - low_margin) && score >= last_score + high_margin ==> r.0
            == low_margin && r.1 == 2 * high_margin && r.2,
        !r.2 ==> r == (low_margin, high_margin, false),
{
    if score <= last_score - low_margin {
        (2 * low_margin, high_margin, true)
    } else if score >= last_score + high_margin {
        (low_margin, 2 * high_margin, true)
    } else {
        (low_margin, high_margin, false)
    }
}

} // verus!
