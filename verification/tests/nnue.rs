use chess::eval::nnue::{feature_indices, INPUTS};
use chess::{Color, PieceType};

#[test]
fn feature_index_ranges() {
    let all_pt = [
        PieceType::Pawn,
        PieceType::Knight,
        PieceType::Bishop,
        PieceType::Rook,
        PieceType::Queen,
        PieceType::King,
    ];
    for sq in 0..64usize {
        for pt in all_pt {
            for c in [Color::White, Color::Black] {
                let (wi, bi) = feature_indices(c, pt, sq);
                assert!(wi < INPUTS && bi < INPUTS);
            }
        }
    }
}

#[test]
fn feature_indices_mirror_for_black() {
    // A white pawn on e2 is "own pawn e2" for White and "their pawn e7" for Black.
    assert_eq!(feature_indices(Color::White, PieceType::Pawn, 12), (12, 6 * 64 + 52));
    // A black king on e8 is "their king e8" for White and "own king e1" for Black.
    assert_eq!(feature_indices(Color::Black, PieceType::King, 60), (11 * 64 + 60, 5 * 64 + 4));
}
