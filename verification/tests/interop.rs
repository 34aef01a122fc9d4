use chess::{Board, Game};


#[test]
fn incremental_hash_matches_recompute_under_play() {
    // Walk a moderate tree, asserting the incremental hash equals a full
    // recompute at every node, and that unmake restores it exactly.
    fn walk(board: &mut Board, depth: u32) {
        assert_eq!(
            board.hash(),
            board.recompute_hash(),
            "hash desync at {}",
            board.to_fen()
        );
        if depth == 0 {
            return;
        }
        let before = board.hash();
        for &mv in board.legal_moves().iter() {
            let undo = board.make_move(mv);
            walk(board, depth - 1);
            board.unmake_move(mv, undo);
            assert_eq!(board.hash(), before, "hash not restored after unmake");
        }
    }
    for fen in [
        "rnbqkbnr/pppppppp/8/8/8/8/PPPPPPPP/RNBQKBNR w KQkq - 0 1",
        "r3k2r/p1ppqpb1/bn2pnp1/3PN3/1p2P3/2N2Q1p/PPPBBPPP/R3K2R w KQkq - 0 1",
        "rnbq1k1r/pp1Pbppp/2p5/8/2B5/8/PPP1NnPP/RNBQK2R w KQ - 1 8",
    ] {
        let mut board = Board::from_fen(fen).unwrap();
        walk(&mut board, 3);
    }
}

#[test]
fn uci_round_trip() {
    // For every legal move in a set of positions, UCI render then parse must
    // recover the same move.
    for fen in [
        "rnbqkbnr/pppppppp/8/8/8/8/PPPPPPPP/RNBQKBNR w KQkq - 0 1",
        "r3k2r/p1ppqpb1/bn2pnp1/3PN3/1p2P3/2N2Q1p/PPPBBPPP/R3K2R w KQkq - 0 1",
        // promotion-rich position
        "rnbq1k1r/pp1Pbppp/2p5/8/2B5/8/PPP1NnPP/RNBQK2R w KQ - 1 8",
    ] {
        let board = Board::from_fen(fen).unwrap();
        for &mv in board.legal_moves().iter() {
            let uci = mv.to_uci();
            let parsed = board.parse_uci(&uci).expect("parse own uci");
            assert_eq!(parsed, mv, "uci round-trip failed: {uci}");
        }
    }
}

#[test]
fn san_round_trip() {
    for fen in [
        "rnbqkbnr/pppppppp/8/8/8/8/PPPPPPPP/RNBQKBNR w KQkq - 0 1",
        "r3k2r/p1ppqpb1/bn2pnp1/3PN3/1p2P3/2N2Q1p/PPPBBPPP/R3K2R w KQkq - 0 1",
        "rnbq1k1r/pp1Pbppp/2p5/8/2B5/8/PPP1NnPP/RNBQK2R w KQ - 1 8",
    ] {
        let board = Board::from_fen(fen).unwrap();
        for &mv in board.legal_moves().iter() {
            let san = board.san(mv);
            let parsed = board.parse_san(&san).unwrap_or_else(|| panic!("parse san {san}"));
            assert_eq!(parsed, mv, "san round-trip failed: {san}");
        }
    }
}

#[test]
fn scholars_mate_is_checkmate() {
    // 1.e4 e5 2.Bc4 Nc6 3.Qh5 Nf6?? 4.Qxf7#
    let mut game = Game::new();
    for mv in ["e4", "e5", "Bc4", "Nc6", "Qh5", "Nf6", "Qxf7"] {
        assert!(game.push_san(mv).is_some(), "failed to play {mv}");
    }
    assert!(game.is_checkmate(), "expected checkmate, got {:?}", game.outcome());
    match game.outcome() {
        chess::Outcome::Checkmate { winner } => assert_eq!(winner, chess::Color::White),
        other => panic!("expected white checkmate, got {other:?}"),
    }
}

#[test]
fn castling_with_zeros_reads_as_with_letters() {
    let b = chess::Board::from_fen("r3k2r/8/8/8/8/8/8/R3K2R w KQkq - 0 1").unwrap();
    assert!(b.parse_san("0-0").is_some());
    assert_eq!(b.parse_san("0-0"), b.parse_san("O-O"));
    assert!(b.parse_san("0-0-0").is_some());
    assert_eq!(b.parse_san("0-0-0"), b.parse_san("O-O-O"));
}

#[test]
fn trailing_glyphs_do_not_change_a_san_reading() {
    let b = chess::Board::startpos();
    let plain = b.parse_san("Nf3");
    assert!(plain.is_some());
    for s in ["Nf3+", "Nf3#", "Nf3!", "Nf3?", "Nf3!?"] {
        assert_eq!(b.parse_san(s), plain, "{s}");
    }
}
