use dual_chess::attacks::init_attack_tables;
use dual_chess::board::{Move, Piece};
use dual_chess::fen::{parse_fen, position_ok};
use dual_chess::search::{
    SearchContext, ZeroEvaluator, collectPv, get_MVV_LVA, negamax, quiescence, score_to_mate,
    search,
};

#[test]
fn test_mvv_lva_reference_values() {
    // the victim-major, attacker-minor table values
    assert_eq!(get_MVV_LVA(0, 0), 105000000);
    assert_eq!(get_MVV_LVA(1, 0), 205000000);
    assert_eq!(get_MVV_LVA(5, 0), 605000000);
    assert_eq!(get_MVV_LVA(0, 1), 104000000);
    assert_eq!(get_MVV_LVA(0, 5), 100000000);
    assert_eq!(get_MVV_LVA(4, 2), 503000000);
    // kinds wrap by color
    assert_eq!(get_MVV_LVA(6, 6), 105000000);
    assert_eq!(get_MVV_LVA(10, 7), 504000000);
}

#[test]
fn test_negamax_depth_zero_equals_quiescence_ply_one() {
    // at depth zero negamax hands control to the quiescence search at ply
    // one: same position, same window, same score and node count
    let tables = init_attack_tables().unwrap();
    let evaluator = ZeroEvaluator;
    let fens = [
        "rnbqkbnr/pppppppp/8/8/8/8/PPPPPPPP/RNBQKBNR w KQkq - 0 1 ",
        "r3k2r/p1ppqpb1/bn2pnp1/3PN3/1p2P3/2N2Q1p/PPPBBPPP/R3K2R w KQkq - ",
        "rnbqkbnr/ppp1pppp/8/3p4/4P3/8/PPPP1PPP/RNBQKBNR w KQkq d6 0 2",
    ];
    let windows = [(-5000000, 5000000), (-10, 10), (0, 1)];
    for fen in fens {
        let board = parse_fen(fen);
        assert!(position_ok(&board));
        for (alpha, beta) in windows {
            let mut ctx = SearchContext::reset(4);
            let n = negamax(&tables, &evaluator, &board, alpha, beta, 0, &mut ctx);
            let ctx2 = SearchContext::reset(4);
            let q = quiescence(&tables, &evaluator, &board, alpha, beta, 1, &ctx2);
            assert!(n.0.is_empty());
            assert_eq!(n.1, q.0);
            assert_eq!(n.2, q.1);
        }
    }
}

#[test]
fn test_checkmate_scores_as_mate_sentinel() {
    // white is checkmated with the queen on h4: no legal moves and the
    // king attacked yield the mate-sentinel family, not zero
    let tables = init_attack_tables().unwrap();
    let evaluator = ZeroEvaluator;
    let board = parse_fen("rnb1kbnr/pppp1ppp/8/4p3/6Pq/5P2/PPPPP2P/RNBQKBNR w KQkq - 1 3");
    assert!(position_ok(&board));
    let result = search(&tables, &evaluator, &board, 1);
    assert_eq!(result.1, -4999900 - 1);
    assert!(result.1 < -4000000);
}

#[test]
fn test_stalemate_scores_zero() {
    // black to move has no legal moves and an unattacked king: a draw,
    // scored exactly zero
    let tables = init_attack_tables().unwrap();
    let evaluator = ZeroEvaluator;
    let board = parse_fen("7k/5Q2/6K1/8/8/8/8/8 b - - 0 1");
    assert!(position_ok(&board));
    let result = search(&tables, &evaluator, &board, 1);
    assert_eq!(result.1, 0);
}

#[test]
fn test_search_finds_mate_in_one() {
    // white mates with the back-rank rook; the principal line ends there
    let tables = init_attack_tables().unwrap();
    let evaluator = ZeroEvaluator;
    let board = parse_fen("6k1/5ppp/8/8/8/8/8/4R1K1 w - - 0 1");
    assert!(position_ok(&board));
    let result = search(&tables, &evaluator, &board, 2);
    assert!(result.1 > 4000000);
    let pv = collectPv(&result.0);
    assert_eq!(pv, "e1e8");
}

#[test]
fn test_score_to_mate_values() {
    // a mate found at the root horizon converts to a distance in moves
    assert_eq!(score_to_mate(4999900, 2), 1);
    assert_eq!(score_to_mate(-4999901, 1), 0);
    assert_eq!(score_to_mate(4999899, 4), 3);
}

#[test]
fn test_collect_pv_joins_in_reverse() {
    let a = Move::create(52, 36, Piece::P, Piece::P, 0, 0, 0, 1);
    let b = Move::create(12, 28, Piece::p, Piece::p, 0, 0, 0, 1);
    let line = vec![Some(b), None, Some(a)];
    assert_eq!(collectPv(&line), "e2e4 e7e5");
    let empty: Vec<Option<Move>> = vec![];
    assert_eq!(collectPv(&empty), "");
}
