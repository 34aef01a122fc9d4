use chess::Board;

fn perft_of(fen: &str, depth: u32) -> u64 {
    let mut board = Board::from_fen(fen).unwrap();
    let before = board.to_fen();
    let n = board.perft(depth);
    assert_eq!(board.to_fen(), before, "perft must leave the board as it found it");
    n
}

#[test]
fn perft_start_position() {
    let start = "rnbqkbnr/pppppppp/8/8/8/8/PPPPPPPP/RNBQKBNR w KQkq - 0 1";
    assert_eq!(perft_of(start, 0), 1);
    assert_eq!(perft_of(start, 1), 20);
    assert_eq!(perft_of(start, 2), 400);
    assert_eq!(perft_of(start, 3), 8902);
}

#[test]
fn perft_kiwipete() {
    let fen = "r3k2r/p1ppqpb1/bn2pnp1/3PN3/1p2P3/2N2Q1p/PPPBBPPP/R3K2R w KQkq - 0 1";
    assert_eq!(perft_of(fen, 1), 48);
    assert_eq!(perft_of(fen, 2), 2039);
}

#[test]
fn perft_endgame_and_promotions() {
    assert_eq!(perft_of("8/2p5/3p4/KP5r/1R3p1k/8/4P1P1/8 w - - 0 1", 3), 2812);
    assert_eq!(perft_of("rnbq1k1r/pp1Pbppp/2p5/8/2B5/8/PPP1NnPP/RNBQK2R w KQ - 1 8", 2), 1486);
}

#[test]
fn perft_divide_sums_to_perft() {
    let fen = "r3k2r/p1ppqpb1/bn2pnp1/3PN3/1p2P3/2N2Q1p/PPPBBPPP/R3K2R w KQkq - 0 1";
    let mut board = Board::from_fen(fen).unwrap();
    let split = board.perft_divide(2);
    assert_eq!(split.len(), 48);
    assert_eq!(split.iter().map(|&(_, n)| n).sum::<u64>(), 2039);
}

#[test]
fn perft_one_counts_each_legal_move_once() {
    for fen in [
        "rnbqkbnr/pppppppp/8/8/8/8/PPPPPPPP/RNBQKBNR w KQkq - 0 1",
        "r3k2r/p1ppqpb1/bn2pnp1/3PN3/1p2P3/2N2Q1p/PPPBBPPP/R3K2R w KQkq - 0 1",
    ] {
        let mut board = Board::from_fen(fen).unwrap();
        let moves = board.legal_moves();
        for i in 0..moves.len() {
            for j in 0..i {
                assert_ne!(moves.get(i), moves.get(j), "{fen}");
            }
        }
        assert_eq!(board.perft(1), moves.len() as u64, "{fen}");
    }
    assert_eq!(Board::startpos().legal_moves().len(), 20);
}
