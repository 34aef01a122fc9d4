//! Engine checks: mate detection, principal-variation legality and
//! determinism, run with a plain material evaluator.

use chess::eval::mate_in_moves;
use chess::search::LMR_SIZE;
use chess::{Board, Color, Engine, Evaluator, Game, Limits, Move, PieceType};

/// Material balance from the side to move's point of view.
struct Material;

impl Evaluator for Material {
    fn evaluate(&mut self, board: &Board) -> i32 {
        let values = [
            (PieceType::Pawn, 100),
            (PieceType::Knight, 320),
            (PieceType::Bishop, 330),
            (PieceType::Rook, 500),
            (PieceType::Queen, 900),
        ];
        let mut score = 0i32;
        for (pt, v) in values {
            let w = board.pieces_colored(pt, Color::White).count() as i32;
            let b = board.pieces_colored(pt, Color::Black).count() as i32;
            score += v * (w - b);
        }
        match board.side_to_move() {
            Color::White => score,
            Color::Black => -score,
        }
    }
}

/// The late-move reduction table: `0.75 + ln(depth) * ln(index + 1) / 2.25`.
fn lmr_table() -> Vec<Vec<i32>> {
    let mut t = Vec::new();
    for d in 0..LMR_SIZE {
        let mut row = Vec::new();
        for i in 0..LMR_SIZE {
            let r = if d == 0 {
                0
            } else {
                let dd = d as f32;
                let m = i as f32 + 1.0;
                (0.75 + dd.ln() * m.ln() / 2.25) as i32
            };
            row.push(r.max(0));
        }
        t.push(row);
    }
    t
}

fn engine() -> Engine<Material> {
    Engine::with_eval_and_tt(Material, 16, lmr_table())
}

#[test]
fn finds_mate_in_one() {
    // Black king g8 boxed by its own pawns; Ra8 is back-rank mate.
    let mut engine = engine();
    let board = Board::from_fen("6k1/5ppp/8/8/8/8/8/R6K w - - 0 1").unwrap();
    let a = engine.analyze(&board, &Limits::depth(6));
    assert_eq!(board.san(a.best_move), "Ra8#", "score {}", a.score);
    assert_eq!(mate_in_moves(a.score), Some(1), "score {}", a.score);

    let mut g = Game::from_board(board);
    g.push(a.best_move);
    assert!(g.is_checkmate());
}

#[test]
fn pv_is_a_legal_sequence() {
    let mut engine = engine();
    for fen in [
        "rnbqkbnr/pppppppp/8/8/8/8/PPPPPPPP/RNBQKBNR w KQkq - 0 1",
        "r3k2r/p1ppqpb1/bn2pnp1/3PN3/1p2P3/2N2Q1p/PPPBBPPP/R3K2R w KQkq - 0 1",
        "8/2p5/3p4/KP5r/1R3p1k/8/4P1P1/8 w - - 0 1",
    ] {
        let board = Board::from_fen(fen).unwrap();
        let a = engine.analyze(&board, &Limits::depth(5));
        let mut g = Game::from_board(board);
        for &mv in &a.pv {
            let legal = g.board().legal_moves();
            assert!(legal.contains(mv), "illegal PV move {mv:?} in {fen}");
            g.push(mv);
        }
        assert!(!a.pv.is_empty(), "no PV for {fen}");
        assert_eq!(a.best_move, a.pv[0]);
        assert_eq!(a.ponder, a.pv.get(1).copied());
        assert!(a.depth <= 5);
    }
}

#[test]
fn search_is_deterministic() {
    let board =
        Board::from_fen("r3k2r/p1ppqpb1/bn2pnp1/3PN3/1p2P3/2N2Q1p/PPPBBPPP/R3K2R w KQkq - 0 1")
            .unwrap();
    let mut e1 = engine();
    let mut e2 = engine();
    let a1 = e1.analyze(&board, &Limits::depth(9));
    let a2 = e2.analyze(&board, &Limits::depth(9));
    assert_eq!(a1.best_move, a2.best_move);
    assert_eq!(a1.score, a2.score);
    assert_eq!(a1.nodes, a2.nodes, "node counts should match for equal searches");
}

#[test]
fn no_move_when_checkmated_or_stalemated() {
    let mut engine = engine();
    for fen in [
        // Back-rank mate already on the board.
        "R5k1/5ppp/8/8/8/8/8/7K b - - 0 1",
        // Stalemate.
        "7k/5Q2/6K1/8/8/8/8/8 b - - 0 1",
    ] {
        let board = Board::from_fen(fen).unwrap();
        let a = engine.analyze(&board, &Limits::depth(3));
        assert_eq!(a.best_move, Move::none(), "{fen}");
        assert!(a.pv.is_empty(), "{fen}");
        assert_eq!(a.ponder, None, "{fen}");
    }
}

#[test]
fn info_reports_each_completed_depth() {
    let mut engine = engine();
    let board = Board::startpos();
    let depths = std::cell::RefCell::new(Vec::new());
    let a = engine.analyze_with(&board, &Limits::depth(3), |info| {
        depths.borrow_mut().push(info.depth);
    });
    assert_eq!(*depths.borrow(), vec![1, 2, 3]);
    assert!(board.legal_moves().contains(a.best_move));
}

#[test]
fn node_budget_still_gives_a_legal_move() {
    let mut engine = engine();
    let board = Board::startpos();
    let a = engine.analyze(&board, &Limits::nodes(1));
    assert!(board.legal_moves().contains(a.best_move));
}

#[test]
fn raised_stop_flag_still_gives_a_legal_move() {
    let mut engine = engine();
    engine.stop_handle().store(true, std::sync::atomic::Ordering::Relaxed);
    let board = Board::startpos();
    let a = engine.analyze(&board, &Limits::infinite());
    assert!(board.legal_moves().contains(a.best_move));
}

#[test]
fn limit_constructors_set_one_field() {
    assert_eq!(Limits::depth(7).depth, Some(7));
    assert_eq!(Limits::movetime(250).movetime, Some(250));
    assert_eq!(Limits::nodes(1000).nodes, Some(1000));
    assert!(Limits::infinite().infinite);
    assert_eq!(Limits::depth(7).nodes, None);
}

#[test]
fn game_seeds_and_generator_steps() {
    assert_eq!(chess::selfplay::splitmix(1, 0), 10451216379200822465);
    assert_eq!(chess::selfplay::splitmix(42, 7), 14082147459139406380);
    let mut state = 1u64;
    assert_eq!(chess::selfplay::next_rand(&mut state), 1082269761);
    assert_eq!(state, 1082269761);
    assert_eq!(chess::selfplay::next_rand(&mut state), 1152992998833853505);
}

#[test]
fn self_play_records_quiet_positions_with_one_result() {
    let mut engine = engine();
    let mut out: Vec<Vec<u8>> = vec![vec![7u8; 3]];
    let n = chess::selfplay::play_game(&mut engine, chess::selfplay::splitmix(1, 0), 8, 300, &mut out);
    assert_eq!(out.len(), n + 1);
    assert_eq!(out[0], vec![7u8; 3]);
    for rec in &out[1..] {
        assert_eq!(rec.len(), chess::selfplay::RECORD_LEN);
        assert!(rec[36] == 0 || rec[36] == 1 || rec[36] == 255);
        assert_eq!(rec[36], out[1][36]);
        let score = i16::from_le_bytes([rec[34], rec[35]]);
        assert!((-10_000..=10_000).contains(&score));
    }
}

#[test]
fn series_terminal_event_reports_the_result() {
    let game = Game::from_fen("R5k1/5ppp/8/8/8/8/8/7K b - - 0 1").unwrap();
    assert_eq!(
        chess::series::terminal_event_json(3, &game),
        "{\"idx\":3,\"side\":\"b\",\"cp\":null,\"mate\":null,\"terminal\":{\"status\":\"checkmate\",\"winner\":\"w\",\"reason\":null}}"
    );
    let mut engine = engine();
    assert_eq!(
        chess::series::series_event(&mut engine, &game, 3, &[], 20),
        chess::series::terminal_event_json(3, &game)
    );
}

#[test]
fn series_eval_event_carries_score_and_best_move() {
    let game = Game::new();
    let e4 = game.board().parse_uci("e2e4").unwrap();
    assert_eq!(
        chess::series::eval_event_json(5, &game, Some(35), None, Some(e4)),
        "{\"idx\":5,\"side\":\"w\",\"cp\":35,\"mate\":null,\"best\":\"e2e4\",\"bestSan\":\"e4\"}"
    );
    assert_eq!(
        chess::series::eval_event_json(0, &game, None, Some(-2), None),
        "{\"idx\":0,\"side\":\"w\",\"cp\":null,\"mate\":-2,\"best\":null,\"bestSan\":null}"
    );
    let mut engine = engine();
    let ev = chess::series::series_event(&mut engine, &game, 0, &[], 30);
    assert!(ev.starts_with("{\"idx\":0,\"side\":\"w\",\"cp\":"), "{ev}");
    assert!(ev.contains("\"best\":\""), "{ev}");
}
