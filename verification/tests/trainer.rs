use chess::http::Request;
use chess::trainer::{
    allowed_loopback_host, allowed_loopback_origin, authorize_review_post, build_reason,
    game_from_moves, go_limits, handle_state, is_brilliant, piece_name, piece_val, score_value,
    to_white, uci_position, Config,
};
use chess::{Board, Color, PieceType};

fn req(query: &[(&str, &str)]) -> Request {
    Request {
        method: "GET".to_string(),
        path: "/api/state".to_string(),
        query: query.iter().map(|(k, v)| (k.to_string(), v.to_string())).collect(),
        headers: Vec::new(),
        body: Vec::new(),
    }
}

#[test]
fn state_reports_book_and_opening() {
    let json = handle_state(&req(&[("moves", "e2e4 e7e5 g1f3 b8c6 f1b5")])).unwrap();
    assert!(json.contains("\"inBook\":true"), "{json}");
    assert!(json.contains("Ruy"), "{json}");
    assert!(json.contains("\"side\":\"b\""), "{json}");
}

#[test]
fn state_out_of_book_after_offbeat_move() {
    // 1. a3 is not in any book line.
    let json = handle_state(&req(&[("moves", "a2a3")])).unwrap();
    assert!(json.contains("\"inBook\":false"), "{json}");
}

#[test]
fn loopback_authority_checks_reject_rebinding_origins() {
    assert!(allowed_loopback_host(Some("127.0.0.1:8001"), 8001));
    assert!(allowed_loopback_host(Some("LOCALHOST:8001"), 8001));
    assert!(!allowed_loopback_host(Some("attacker.example:8001"), 8001));
    assert!(!allowed_loopback_host(None, 8001));
    assert!(allowed_loopback_origin("http://127.0.0.1:8001", 8001));
    assert!(!allowed_loopback_origin("http://attacker.example:8001", 8001));

    let cfg = Config {
        engine_cmd: vec![],
        hash_mb: 1,
        review_token: "secret".to_string(),
        port: 8001,
    };
    let mut request = req(&[]);
    request.method = "POST".to_string();
    request.headers = vec![
        ("content-type".to_string(), "application/json".to_string()),
        ("x-chess-review-token".to_string(), "secret".to_string()),
        ("origin".to_string(), "http://127.0.0.1:8001".to_string()),
    ];
    assert!(authorize_review_post(&request, &cfg).is_ok());
    request.headers[2].1 = "http://attacker.example:8001".to_string();
    assert_eq!(
        authorize_review_post(&request, &cfg).unwrap_err(),
        "invalid Origin for loopback trainer"
    );
}

#[test]
fn authority_needs_json_and_the_token() {
    let cfg = Config {
        engine_cmd: vec!["stockfish".to_string()],
        hash_mb: 16,
        review_token: "secret".to_string(),
        port: 80,
    };
    let mut request = req(&[]);
    request.headers = vec![
        ("content-type".to_string(), " Application/JSON ; charset=utf-8".to_string()),
        ("x-chess-review-token".to_string(), "secret".to_string()),
    ];
    assert!(authorize_review_post(&request, &cfg).is_ok());
    request.headers[0].1 = "text/plain".to_string();
    assert_eq!(
        authorize_review_post(&request, &cfg).unwrap_err(),
        "review mutations require application/json"
    );
    request.headers[0].1 = "application/json".to_string();
    request.headers[1].1 = "guess".to_string();
    assert_eq!(authorize_review_post(&request, &cfg).unwrap_err(), "invalid review capability");
    assert!(allowed_loopback_host(Some(" localhost "), 80));
    assert!(!allowed_loopback_host(Some("localhost"), 8080));
}

#[test]
fn score_value_is_pov_symmetric() {
    assert_eq!(score_value(Some(50), None), -score_value(Some(-50), None));
    // mate in 2 beats mate in 5; flipping signs flips the order.
    assert!(score_value(None, Some(2)) > score_value(None, Some(5)));
    assert_eq!(score_value(None, Some(3)), -score_value(None, Some(-3)));
}

#[test]
fn to_white_flips_for_black_mover() {
    assert_eq!(to_white(Color::White, Some(40), None), (Some(40), None));
    assert_eq!(to_white(Color::Black, Some(40), None), (Some(-40), None));
}

#[test]
fn brilliant_only_for_a_winning_material_offer() {
    // A safe developing move (Ng1-f3) is not a sacrifice: nothing can
    // capture the knight, so it is never "brilliant".
    let start = Board::startpos();
    let dev = start.parse_uci("g1f3").unwrap();
    assert!(!is_brilliant(&start, dev, 100));

    // Nc3xd5 gives a knight (320) for a pawn (100); the queen can recapture
    // on d5 (net -220). With the engine still favouring the mover, that is
    // the kind of sound investment we celebrate.
    let board =
        Board::from_fen("rnbqkbnr/ppp1pppp/8/3p4/8/2N5/PPPPPPPP/R1BQKBNR w KQkq - 0 1").unwrap();
    let sac = board.parse_uci("c3d5").unwrap();
    assert!(is_brilliant(&board, sac, 120));
    // But not if the engine says the mover is worse afterwards.
    assert!(!is_brilliant(&board, sac, -50));
}

#[test]
fn reasons_frame_the_punishment() {
    // After 1.e4 e5 2.Qh5?? the knight... use a simple hanging-queen line.
    let after = Board::from_fen("rnbqkbnr/pppp1ppp/8/4p2Q/4P3/8/PPPP1PPP/RNB1KBNR b KQkq - 1 2")
        .unwrap();
    assert_eq!(build_reason(&after, &["g7g6".to_string()], "good", 10), "");
    assert_eq!(
        build_reason(&after, &[], "blunder", 500),
        "It quietly worsens your position."
    );
    assert_eq!(
        build_reason(&after, &["g8f6".to_string()], "mistake", 200),
        "Passive \u{2014} Nf6 gives the opponent an easy, comfortable game."
    );
    assert_eq!(
        build_reason(&after, &["g8f6".to_string()], "blunder", 400),
        "Lets the opponent in with Nf6 \u{2014} a near-winning initiative."
    );
    let hanging =
        Board::from_fen("rnb1kbnr/pppp1ppp/8/4p1q1/4P3/3P4/PPP2PPP/RNBQKBNR w KQkq - 1 3")
            .unwrap();
    assert_eq!(
        build_reason(&hanging, &["c1g5".to_string()], "blunder", 900),
        "Allows Bxg5 \u{2014} winning your queen on g5."
    );
}

#[test]
fn small_helpers() {
    assert_eq!(uci_position(&[]), "position startpos");
    assert_eq!(
        uci_position(&["e2e4".to_string(), "e7e5".to_string()]),
        "position startpos moves e2e4 e7e5"
    );
    let g = go_limits(3, 12, 500);
    assert_eq!((g.multipv, g.depth, g.movetime), (3, 12, 4_000));
    let g = go_limits(1, 0, 700);
    assert_eq!((g.multipv, g.depth, g.movetime), (1, 0, 700));
    assert_eq!(piece_val(PieceType::Rook), 500);
    assert_eq!(piece_name(PieceType::Knight), "knight");
    assert_eq!(score_value(None, None), 0);
    assert_eq!(score_value(None, Some(0)), -1_000_000);
    let (game, ucis) = game_from_moves(&req(&[("moves", "e2e4,e7e5")])).unwrap();
    assert_eq!(ucis, vec!["e2e4".to_string(), "e7e5".to_string()]);
    assert_eq!(game.ply(), 2);
    assert_eq!(
        game_from_moves(&req(&[("moves", "e2e4 e2e4")])).err().unwrap(),
        "illegal move 'e2e4' at ply 1"
    );
}
