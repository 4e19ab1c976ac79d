use dual_chess::attacks::{
    init_attack_tables, get_rook_attacks, get_bishop_attacks, get_queen_attacks,
    rook_attacks_on_the_fly, bishop_attacks_on_the_fly, mask_rook_attacks, mask_bishop_attacks,
    mask_knight_attacks, mask_king_attacks, mask_pawn_attacks, set_occupancy,
};
use dual_chess::bits::count_bits;
use dual_chess::board::coordinates_to_squares;

#[test]
fn test_tables_build() {
    assert!(init_attack_tables().is_some());
}

#[test]
fn test_empty_occupancy_lookup_matches_ray_cast() {
    // for every square the magic lookup under an empty occupancy equals
    // the directly ray-cast attack set
    let tables = init_attack_tables().unwrap();
    for square in 0..64 {
        assert_eq!(
            get_rook_attacks(&tables, square, 0),
            rook_attacks_on_the_fly(square, 0),
            "rook square {square}"
        );
        assert_eq!(
            get_bishop_attacks(&tables, square, 0),
            bishop_attacks_on_the_fly(square, 0),
            "bishop square {square}"
        );
    }
}

#[test]
fn test_blocked_lookup_matches_ray_cast() {
    let tables = init_attack_tables().unwrap();
    // a few irregular blocker patterns on every square
    let occupancies = [0x00ff_0000_00ff_0000u64, 0x8142_2418_1824_4281, 0x0123_4567_89ab_cdef];
    for square in 0..64 {
        for occ in occupancies {
            let rm = mask_rook_attacks(square);
            let bm = mask_bishop_attacks(square);
            assert_eq!(get_rook_attacks(&tables, square, occ), rook_attacks_on_the_fly(square, occ & rm));
            assert_eq!(get_bishop_attacks(&tables, square, occ), bishop_attacks_on_the_fly(square, occ & bm));
            assert_eq!(
                get_queen_attacks(&tables, square, occ),
                get_rook_attacks(&tables, square, occ) | get_bishop_attacks(&tables, square, occ)
            );
        }
    }
}

#[test]
fn test_known_attack_patterns() {
    // a knight on b1 attacks a3, c3 and d2
    let b1 = coordinates_to_squares("b1");
    let expected = (1u64 << coordinates_to_squares("a3"))
        | (1u64 << coordinates_to_squares("c3"))
        | (1u64 << coordinates_to_squares("d2"));
    assert_eq!(mask_knight_attacks(b1), expected);
    // a king on a1 attacks a2, b1 and b2
    let a1 = coordinates_to_squares("a1");
    let expected_king = (1u64 << coordinates_to_squares("a2"))
        | (1u64 << coordinates_to_squares("b1"))
        | (1u64 << coordinates_to_squares("b2"));
    assert_eq!(mask_king_attacks(a1), expected_king);
    // a white pawn on e2 attacks d3 and f3
    let e2 = coordinates_to_squares("e2");
    let expected_pawn =
        (1u64 << coordinates_to_squares("d3")) | (1u64 << coordinates_to_squares("f3"));
    assert_eq!(mask_pawn_attacks(0, e2), expected_pawn);
    // a black pawn on e7 attacks d6 and f6
    let e7 = coordinates_to_squares("e7");
    let expected_bpawn =
        (1u64 << coordinates_to_squares("d6")) | (1u64 << coordinates_to_squares("f6"));
    assert_eq!(mask_pawn_attacks(1, e7), expected_bpawn);
}

#[test]
fn test_set_occupancy_enumerates_subsets() {
    let mask = mask_rook_attacks(coordinates_to_squares("a1"));
    let bits = count_bits(mask);
    // index zero gives the empty subset, the top index gives the mask
    assert_eq!(set_occupancy(0, bits, mask), 0);
    assert_eq!(set_occupancy((1i32 << bits) - 1, bits, mask), mask);
    // each single-bit index projects to a single mask square
    let one = set_occupancy(1, bits, mask);
    assert_eq!(one.count_ones(), 1);
    assert_eq!(one & mask, one);
}
