use dual_chess::board::{Move, Piece, coordinates_to_squares, move_to_alg};

#[test]
fn test_move_roundtrip_all_fields() {
    // every field across its valid range comes back from the packed record
    for source in [0u32, 1, 28, 47, 63] {
        for target in [0u32, 7, 36, 63] {
            for (piece, promoted) in [
                (Piece::P, Piece::Q),
                (Piece::N, Piece::P),
                (Piece::k, Piece::n),
                (Piece::q, Piece::r),
            ] {
                for flags in [(0u32, 0u32, 0u32, 0u32), (1, 0, 0, 0), (1, 1, 0, 0), (0, 0, 1, 0), (0, 0, 0, 1)] {
                    let (cap, ep, castle, dpp) = flags;
                    let mv = Move::create(source, target, piece, promoted, cap, ep, castle, dpp);
                    assert_eq!(mv.get_source_square(), source);
                    assert_eq!(mv.get_target_square(), target);
                    assert_eq!(mv.get_piece() as usize, piece.to_usize());
                    assert_eq!(mv.get_promoted() as usize, promoted.to_usize());
                    assert_eq!(mv.get_capture(), cap == 1);
                    assert_eq!(mv.get_enpassant(), ep == 1);
                    assert_eq!(mv.get_castling(), castle == 1);
                    assert_eq!(mv.get_double_pawn_push(), dpp == 1);
                }
            }
        }
    }
}

#[test]
fn test_move_equality_is_fieldwise() {
    let a = Move::create(12, 28, Piece::P, Piece::P, 0, 0, 0, 1);
    let b = Move::create(12, 28, Piece::P, Piece::P, 0, 0, 0, 1);
    let c = Move::create(12, 28, Piece::P, Piece::P, 1, 0, 0, 0);
    assert_eq!(a.mv, b.mv);
    assert_ne!(a.mv, c.mv);
}

#[test]
fn test_coordinates_to_squares_values() {
    assert_eq!(coordinates_to_squares("a8"), 0);
    assert_eq!(coordinates_to_squares("h8"), 7);
    assert_eq!(coordinates_to_squares("e4"), 36);
    assert_eq!(coordinates_to_squares("a1"), 56);
    assert_eq!(coordinates_to_squares("h1"), 63);
    assert_eq!(coordinates_to_squares("e2"), 52);
    assert_eq!(coordinates_to_squares("b6"), 17);
}

#[test]
fn test_move_to_alg_plain_and_promotion() {
    let quiet = Move::create(
        coordinates_to_squares("e2") as u32,
        coordinates_to_squares("e4") as u32,
        Piece::P,
        Piece::P,
        0,
        0,
        0,
        1,
    );
    assert_eq!(move_to_alg(&quiet), "e2e4");
    let promo = Move::create(
        coordinates_to_squares("e7") as u32,
        coordinates_to_squares("e8") as u32,
        Piece::P,
        Piece::Q,
        0,
        0,
        0,
        0,
    );
    assert_eq!(move_to_alg(&promo), "e7e8q");
    let black_promo = Move::create(
        coordinates_to_squares("g2") as u32,
        coordinates_to_squares("g1") as u32,
        Piece::p,
        Piece::q,
        0,
        0,
        0,
        0,
    );
    assert_eq!(move_to_alg(&black_promo), "g2g1q");
    let knight_promo = Move::create(
        coordinates_to_squares("a7") as u32,
        coordinates_to_squares("a8") as u32,
        Piece::P,
        Piece::N,
        0,
        0,
        0,
        0,
    );
    assert_eq!(move_to_alg(&knight_promo), "a7a8n");
}
