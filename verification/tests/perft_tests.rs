use dual_chess::attacks::init_attack_tables;
use dual_chess::fen::{parse_fen, position_ok};
use dual_chess::perft::perft_driver;

#[test]
fn test_perft_startpos_depth_1() {
    let tables = init_attack_tables().unwrap();
    let board = parse_fen("rnbqkbnr/pppppppp/8/8/8/8/PPPPPPPP/RNBQKBNR w KQkq - 0 1 ");
    assert!(position_ok(&board));
    assert_eq!(perft_driver(&tables, &board, 1), 20);
}

#[test]
fn test_perft_startpos_depth_2() {
    let tables = init_attack_tables().unwrap();
    let board = parse_fen("rnbqkbnr/pppppppp/8/8/8/8/PPPPPPPP/RNBQKBNR w KQkq - 0 1 ");
    assert_eq!(perft_driver(&tables, &board, 2), 400);
}

#[test]
fn test_perft_startpos_depth_3() {
    let tables = init_attack_tables().unwrap();
    let board = parse_fen("rnbqkbnr/pppppppp/8/8/8/8/PPPPPPPP/RNBQKBNR w KQkq - 0 1 ");
    assert_eq!(perft_driver(&tables, &board, 3), 8902);
}

#[test]
fn test_perft_startpos_depth_4() {
    let tables = init_attack_tables().unwrap();
    let board = parse_fen("rnbqkbnr/pppppppp/8/8/8/8/PPPPPPPP/RNBQKBNR w KQkq - 0 1 ");
    assert_eq!(perft_driver(&tables, &board, 4), 197281);
}
