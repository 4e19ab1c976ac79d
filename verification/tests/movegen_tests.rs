use dual_chess::attacks::init_attack_tables;
use dual_chess::board::{Move, Piece, coordinates_to_squares};
use dual_chess::fen::{parse_fen, position_ok};
use dual_chess::movegen::{is_square_attacked, make_move, generate_moves, run_through_attacks};

#[test]
fn test_rook_attacks_true() {
    let tables = init_attack_tables().unwrap();
    let board_pos = parse_fen("8/8/8/8/8/4R3/8/8 b - - 0 1");
    assert_eq!(
        is_square_attacked(&tables, coordinates_to_squares("d3"), &board_pos),
        true
    );
}

#[test]
fn test_rook_attacks_false() {
    let tables = init_attack_tables().unwrap();
    let board_pos = parse_fen("8/8/8/8/8/4R3/8/8 b - - 0 1");
    assert_eq!(
        is_square_attacked(&tables, coordinates_to_squares("b1"), &board_pos),
        false
    );
}

#[test]
fn test_attacked_squares_kiwipete() {
    let tables = init_attack_tables().unwrap();
    let board_pos = parse_fen("r3k2r/p1ppqpb1/bn2pnp1/3PN3/1p2P3/2N2Q1p/PPPBBPPP/R3K2R w KQkq -");
    assert_eq!(run_through_attacks(&tables, &board_pos), 18437032593966828032);
}

#[test]
fn test_double_push() {
    let tables = init_attack_tables().unwrap();
    let board_pos = parse_fen("rnbqkbnr/1ppppppp/p7/P7/8/8/1PPPPPPP/RNBQKBNR b KQkq - 0 2");
    assert!(position_ok(&board_pos));
    let mv = Move::create(
        coordinates_to_squares("b7") as u32,
        coordinates_to_squares("b5") as u32,
        Piece::p,
        Piece::P,
        0,
        0,
        0,
        1,
    );
    let new_board = make_move(&tables, &board_pos, &mv).unwrap();
    assert_eq!(new_board.enpassant, coordinates_to_squares("b6"));
}

#[test]
fn test_start_position_move_list() {
    let tables = init_attack_tables().unwrap();
    let board = parse_fen("rnbqkbnr/pppppppp/8/8/8/8/PPPPPPPP/RNBQKBNR w KQkq - 0 1 ");
    assert!(position_ok(&board));
    let moves = generate_moves(&tables, &board);
    assert_eq!(moves.len(), 20);
    for mv in &moves {
        assert!(make_move(&tables, &board, mv).is_some());
    }
}

#[test]
fn test_legal_filter_rejects_pinned_move() {
    // the e4 knight is pinned against the white king by the e8 rook
    let tables = init_attack_tables().unwrap();
    let board = parse_fen("4r2k/8/8/8/4N3/8/8/4K3 w - - 0 1");
    assert!(position_ok(&board));
    let moves = generate_moves(&tables, &board);
    for mv in &moves {
        let result = make_move(&tables, &board, mv);
        if mv.get_piece() == 1 {
            // every knight move exposes the king to the rook
            assert!(result.is_none());
        }
    }
}

#[test]
fn test_make_move_never_leaves_king_attacked() {
    let tables = init_attack_tables().unwrap();
    let fens = [
        "r3k2r/p1ppqpb1/bn2pnp1/3PN3/1p2P3/2N2Q1p/PPPBBPPP/R3K2R w KQkq - ",
        "rnbqkbnr/pppppppp/8/8/8/8/PPPPPPPP/RNBQKBNR w KQkq - 0 1 ",
        "8/2p5/3p4/KP5r/1R3p1k/8/4P1P1/8 w - - 0 1",
    ];
    for fen in fens {
        let board = parse_fen(fen);
        assert!(position_ok(&board));
        let moves = generate_moves(&tables, &board);
        for mv in &moves {
            if let Some(next) = make_move(&tables, &board, mv) {
                // view the new position from the mover's side: the mover's
                // own king must not stand attacked
                let mut check_pos = next;
                check_pos.side = board.side;
                let king_board = check_pos.bitboards[6 * board.side + 5];
                let king_sq = king_board.trailing_zeros() as usize;
                assert!(!is_square_attacked(&tables, king_sq, &check_pos));
            }
        }
    }
}

#[test]
fn test_castling_generation_full_rights() {
    // full rights and an empty back rank give both castling moves
    let tables = init_attack_tables().unwrap();
    let board = parse_fen("r3k2r/8/8/8/8/8/8/R3K2R w KQkq - 0 1");
    assert!(position_ok(&board));
    let moves = generate_moves(&tables, &board);
    let castles: Vec<&Move> = moves.iter().filter(|m| m.get_castling()).collect();
    assert_eq!(castles.len(), 2);
    let kingside = Move::create(60, 62, Piece::K, Piece::P, 0, 0, 1, 0);
    let queenside = Move::create(60, 58, Piece::K, Piece::P, 0, 0, 1, 0);
    assert!(moves.iter().any(|m| m.mv == kingside.mv));
    assert!(moves.iter().any(|m| m.mv == queenside.mv));
}

#[test]
fn test_castling_generation_blocked_square() {
    // a bishop on f1 removes exactly the king-side candidate
    let tables = init_attack_tables().unwrap();
    let board = parse_fen("r3k2r/8/8/8/8/8/8/R3KB1R w KQkq - 0 1");
    let moves = generate_moves(&tables, &board);
    let kingside = Move::create(60, 62, Piece::K, Piece::P, 0, 0, 1, 0);
    let queenside = Move::create(60, 58, Piece::K, Piece::P, 0, 0, 1, 0);
    assert!(!moves.iter().any(|m| m.mv == kingside.mv));
    assert!(moves.iter().any(|m| m.mv == queenside.mv));
}

#[test]
fn test_castling_generation_attacked_transit() {
    // a rook aiming at d1 removes exactly the queen-side candidate
    let tables = init_attack_tables().unwrap();
    let board = parse_fen("r2rk3/8/8/8/8/8/8/R3K2R w KQ - 0 1");
    let moves = generate_moves(&tables, &board);
    let kingside = Move::create(60, 62, Piece::K, Piece::P, 0, 0, 1, 0);
    let queenside = Move::create(60, 58, Piece::K, Piece::P, 0, 0, 1, 0);
    assert!(moves.iter().any(|m| m.mv == kingside.mv));
    assert!(!moves.iter().any(|m| m.mv == queenside.mv));
}

#[test]
fn test_en_passant_capture() {
    let tables = init_attack_tables().unwrap();
    // white can capture d5 en passant on d6
    let board = parse_fen("rnbqkbnr/ppp1pppp/8/3pP3/8/8/PPPP1PPP/RNBQKBNR w KQkq d6 0 3");
    assert!(position_ok(&board));
    let moves = generate_moves(&tables, &board);
    let ep_moves: Vec<&Move> = moves.iter().filter(|m| m.get_enpassant()).collect();
    assert_eq!(ep_moves.len(), 1);
    let ep = ep_moves[0];
    assert_eq!(ep.get_source_square() as usize, coordinates_to_squares("e5"));
    assert_eq!(ep.get_target_square() as usize, coordinates_to_squares("d6"));
    let next = make_move(&tables, &board, ep).unwrap();
    // the captured pawn disappears from d5
    assert_eq!(next.bitboards[6] & (1u64 << coordinates_to_squares("d5")), 0);
}

#[test]
fn test_parse_move_text() {
    let tables = init_attack_tables().unwrap();
    let board = parse_fen("rnbqkbnr/pppppppp/8/8/8/8/PPPPPPPP/RNBQKBNR w KQkq - 0 1 ");
    let mv = dual_chess::fen::parse_move(&tables, &board, "e2e4").unwrap();
    assert_eq!(mv.get_source_square() as usize, coordinates_to_squares("e2"));
    assert_eq!(mv.get_target_square() as usize, coordinates_to_squares("e4"));
    assert!(mv.get_double_pawn_push());
    // no pseudo-legal move matches this text
    assert!(dual_chess::fen::parse_move(&tables, &board, "e2e5").is_none());
    assert!(dual_chess::fen::parse_move(&tables, &board, "zz").is_none());
    // a promotion is disambiguated by its trailing letter
    let promo_board = parse_fen("8/2P4k/8/8/8/8/6K1/8 w - - 0 1");
    let promo = dual_chess::fen::parse_move(&tables, &promo_board, "c7c8n").unwrap();
    assert_eq!(promo.get_promoted(), 1);
    let queen_promo = dual_chess::fen::parse_move(&tables, &promo_board, "c7c8q").unwrap();
    assert_eq!(queen_promo.get_promoted(), 4);
}
