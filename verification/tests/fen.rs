use chess::{Board, Color, FenError, Square};

#[test]
fn start_position_round_trips() {
    let start = "rnbqkbnr/pppppppp/8/8/8/8/PPPPPPPP/RNBQKBNR w KQkq - 0 1";
    let b = Board::from_fen(start).unwrap();
    assert_eq!(b.to_fen(), start);
    assert_eq!(Board::startpos().to_fen(), start);
    assert_eq!(Board::startpos().hash(), b.hash());
    assert_eq!(b.legal_moves().len(), 20);
}

#[test]
fn fen_round_trip_landmarks() {
    for fen in [
        "r3k2r/p1ppqpb1/bn2pnp1/3PN3/1p2P3/2N2Q1p/PPPBBPPP/R3K2R w KQkq - 0 1",
        "rnbqkbnr/ppp1p1pp/8/3pPp2/8/8/PPPP1PPP/RNBQKBNR w KQkq f6 0 3",
        "8/2p5/3p4/KP5r/1R3p1k/8/4P1P1/8 b - - 17 42",
        "r3k2r/Pppp1ppp/1b3nbN/nP6/BBP1P3/q4N2/Pp1P2PP/R2Q1RK1 w kq - 0 1",
    ] {
        let b = Board::from_fen(fen).unwrap();
        assert_eq!(b.to_fen(), fen);
        assert_eq!(Board::from_fen(&b.to_fen()).unwrap().to_fen(), fen);
    }
}

#[test]
fn four_field_fen_defaults_the_clocks() {
    let b = Board::from_fen("8/8/8/4k3/8/4K3/8/R7 b - -").unwrap();
    assert_eq!(b.halfmove_clock(), 0);
    assert_eq!(b.fullmove_number(), 1);
    assert_eq!(b.side_to_move(), Color::Black);
    // Surrounding and repeated whitespace separates fields too.
    let c = Board::from_fen("  8/8/8/4k3/8/4K3/8/R7\tb  -  - ").unwrap();
    assert_eq!(c.to_fen(), b.to_fen());
}

#[test]
fn fen_errors_name_the_bad_field() {
    assert_eq!(Board::from_fen("8/8/8 w - -").unwrap_err(), FenError::BadRankCount(3));
    assert_eq!(Board::from_fen("not a fen").unwrap_err(), FenError::WrongFieldCount(3));
    assert_eq!(
        Board::from_fen("8/8/8/4k3/8/4K3/8/R6 w - - 0 1").unwrap_err(),
        FenError::BadPlacement("8/8/8/4k3/8/4K3/8/R6".to_string())
    );
    assert_eq!(
        Board::from_fen("8/8/8/4k3/8/4K3/8/R7 x - - 0 1").unwrap_err(),
        FenError::BadSide("x".to_string())
    );
    assert_eq!(
        Board::from_fen("8/8/8/4k3/8/4K3/8/R7 w KX - 0 1").unwrap_err(),
        FenError::BadCastling("KX".to_string())
    );
    assert_eq!(
        Board::from_fen("8/8/8/4k3/8/4K3/8/R7 w - e9 0 1").unwrap_err(),
        FenError::BadEnPassant("e9".to_string())
    );
    assert_eq!(
        Board::from_fen("8/8/8/4k3/8/4K3/8/R7 w - - 70000 1").unwrap_err(),
        FenError::BadNumber("70000".to_string())
    );
    assert_eq!(
        Board::from_fen("8/8/8/8/8/4K3/8/R7 w - - 0 1").unwrap_err(),
        FenError::MissingKing(Color::Black)
    );
    // A leading '+' is accepted in the counters, as `str::parse` does.
    assert_eq!(Board::from_fen("8/8/8/4k3/8/4K3/8/R7 w - - +5 +9").unwrap().halfmove_clock(), 5);
}

#[test]
fn en_passant_square_is_read() {
    let b = Board::from_fen("rnbqkbnr/ppp1p1pp/8/3pPp2/8/8/PPPP1PPP/RNBQKBNR w KQkq f6 0 3")
        .unwrap();
    assert_eq!(b.en_passant_square(), Square::from_algebraic("f6"));
}

#[test]
fn four_field_fen_reads_as_default_clocks() {
    let four = "r3k2r/p1ppqpb1/bn2pnp1/3PN3/1p2P3/2N2Q1p/PPPBBPPP/R3K2R w KQkq -";
    let a = chess::Board::from_fen(four).unwrap();
    let b = chess::Board::from_fen(&format!("{four} 0 1")).unwrap();
    assert_eq!(a.to_fen(), b.to_fen());
    assert_eq!(a.halfmove_clock(), 0);
    assert_eq!(a.fullmove_number(), 1);
}
