use chess::attacks::{bishop_attacks_classical, rook_attacks_classical};
use chess::magic::{bishop_attacks, bishop_mask, rook_attacks, rook_mask};
use chess::{Bitboard, Square};

#[test]
fn const_tables_match_classical() {
    for sq in 0..64u8 {
        let square = Square(sq);
        // Rook
        let mut subset = 0u64;
        let rmask = rook_mask(square).0;
        loop {
            let got = rook_attacks(square, Bitboard(subset));
            let want = rook_attacks_classical(square, Bitboard(subset));
            assert_eq!(got, want, "rook sq={sq} occ={subset:#x}");
            subset = subset.wrapping_sub(rmask) & rmask;
            if subset == 0 {
                break;
            }
        }
        // Bishop
        let mut subset = 0u64;
        let bmask = bishop_mask(square).0;
        loop {
            let got = bishop_attacks(square, Bitboard(subset));
            let want = bishop_attacks_classical(square, Bitboard(subset));
            assert_eq!(got, want, "bishop sq={sq} occ={subset:#x}");
            subset = subset.wrapping_sub(bmask) & bmask;
            if subset == 0 {
                break;
            }
        }
    }
}

#[test]
fn masks_leave_out_the_edges() {
    // a1 rook: b1..g1 and a2..a7.
    assert_eq!(rook_mask(Square(0)).0, 0x0001_0101_0101_017e);
    // e4 bishop: the inner diagonals.
    assert_eq!(rook_mask(Square(0)).0.count_ones(), 12);
    assert_eq!(bishop_mask(Square(28)).0.count_ones(), 9);
    assert_eq!(bishop_mask(Square(0)).0.count_ones(), 6);
}
