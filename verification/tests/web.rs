use chess::http::Request;
use chess::web::{clean_token, handle_pgn, handle_state, parse_uci_flag, white_score, EngineKind};
use chess::pgn::parse_pgn_game;
use chess::Color;

#[test]
fn clean_token_strips_numbers_and_nags() {
    assert_eq!(clean_token("12."), None);
    assert_eq!(clean_token("12...Nf6"), Some("Nf6".to_string()));
    assert_eq!(clean_token("1.e4"), Some("e4".to_string()));
    assert_eq!(clean_token("$14"), None);
    assert_eq!(clean_token("1/2-1/2"), None);
    assert_eq!(clean_token("O-O-O+"), Some("O-O-O+".to_string()));
}

#[test]
fn uci_flag_forms() {
    let plain = parse_uci_flag("stockfish").unwrap();
    assert_eq!(plain.id, "uci-stockfish");
    assert!(matches!(&plain.kind, EngineKind::Uci(c) if c == &["stockfish"]));

    let named = parse_uci_flag("sf-big=/opt/sf/stockfish --threads 4").unwrap();
    assert_eq!(named.label, "sf-big");
    assert!(
        matches!(&named.kind, EngineKind::Uci(c) if c == &["/opt/sf/stockfish", "--threads", "4"])
    );

    // An '=' inside an argument is not a name separator.
    let lc0 = parse_uci_flag("lc0 --weights=net.pb").unwrap();
    assert_eq!(lc0.label, "lc0");
    assert!(matches!(&lc0.kind, EngineKind::Uci(c) if c == &["lc0", "--weights=net.pb"]));

    assert!(parse_uci_flag("   ").is_err());
}

#[test]
fn white_score_flips_for_black() {
    assert_eq!(white_score(Color::White, 50), (Some(50), None));
    assert_eq!(white_score(Color::Black, 50), (Some(-50), None));
    let mate3 = chess::eval::MATE - 5; // mate in 3 plies -> 3 moves
    assert_eq!(white_score(Color::Black, mate3).1, Some(-3));
}

#[test]
fn engine_id_lowercases_and_dashes_the_label() {
    let spec = parse_uci_flag("Big-Fish=/usr/bin/fish").unwrap();
    assert_eq!(spec.label, "Big-Fish");
    assert_eq!(spec.id, "uci-big-fish");
    // A name holding whitespace is no name: the whole argument is the command.
    let spaced = parse_uci_flag("Big Fish=/usr/bin/fish").unwrap();
    assert_eq!(spaced.label, "Big");
    let stem = parse_uci_flag("/opt/engines/Stockfish.exe -x").unwrap();
    assert_eq!(stem.label, "Stockfish");
    assert_eq!(stem.id, "uci-stockfish");
}

#[test]
fn clean_token_keeps_moves_and_drops_results() {
    assert_eq!(clean_token("  Nf3  "), Some("Nf3".to_string()));
    assert_eq!(clean_token("*"), None);
    assert_eq!(clean_token("1-0"), None);
    assert_eq!(clean_token("12"), None);
    assert_eq!(clean_token("12e4"), Some("12e4".to_string()));
}

fn req(query: &[(&str, &str)]) -> Request {
    Request {
        method: "GET".to_string(),
        path: "/api/state".to_string(),
        query: query
            .iter()
            .map(|(k, v)| (k.to_string(), v.to_string()))
            .collect(),
        headers: Vec::new(),
        body: Vec::new(),
    }
}

#[test]
fn state_reports_sans_and_legal_moves() {
    let r = req(&[("fen", "startpos"), ("moves", "e2e4 e7e5 g1f3")]);
    let json = handle_state(&r).unwrap();
    assert!(json.contains("\"sans\":[\"e4\",\"e5\",\"Nf3\"]"), "{json}");
    assert!(json.contains("\"side\":\"b\""), "{json}");
    assert!(json.contains("\"lastMove\":\"g1f3\""), "{json}");
    assert!(json.contains("\"uci\":\"b8c6\""), "{json}");
}

#[test]
fn state_rewinds_to_at() {
    let r = req(&[("moves", "e2e4 e7e5"), ("at", "1")]);
    let json = handle_state(&r).unwrap();
    // Viewing after 1.e4: black to move, last move e2e4, but full SAN list kept.
    assert!(json.contains("\"side\":\"b\""), "{json}");
    assert!(json.contains("\"lastMove\":\"e2e4\""), "{json}");
    assert!(json.contains("\"sans\":[\"e4\",\"e5\"]"), "{json}");
}

#[test]
fn state_rejects_illegal_moves_and_bad_fen() {
    assert!(handle_state(&req(&[("moves", "e2e5")])).is_err());
    assert!(handle_state(&req(&[("fen", "not a fen")])).is_err());
}

#[test]
fn state_reports_checkmate() {
    let r = req(&[("moves", "f2f3 e7e5 g2g4 d8h4")]);
    let json = handle_state(&r).unwrap();
    assert!(json.contains("\"status\":\"checkmate\""), "{json}");
    assert!(json.contains("\"winner\":\"b\""), "{json}");
    assert!(json.contains("\"legal\":[]"), "{json}");
}

#[test]
fn state_errors_name_the_token_and_the_fen_fault() {
    assert_eq!(
        handle_state(&req(&[("moves", "e2e4,,e7e5 e1e3")])).unwrap_err(),
        "illegal move 'e1e3' at ply 2"
    );
    assert_eq!(
        handle_state(&req(&[("fen", "not a fen")])).unwrap_err(),
        "bad FEN: WrongFieldCount(3)"
    );
    let json = handle_state(&req(&[("moves", "e2e4"), ("at", "0")])).unwrap();
    assert!(json.starts_with("{\"startFen\":\"rnbqkbnr/pppppppp/8/8/8/8/PPPPPPPP/RNBQKBNR w KQkq - 0 1\",\"moves\":[\"e2e4\"],\"sans\":[\"e4\"],\"at\":0,"), "{json}");
    assert!(json.contains("\"lastMove\":null,\"outcome\":{\"status\":\"ongoing\",\"winner\":null,\"reason\":null}"), "{json}");
}

#[test]
fn pgn_import_full_featured() {
    let pgn = r#"%escape line ignored
[Event "Test"]
[FEN "rnbqkbnr/pppppppp/8/8/8/8/PPPPPPPP/RNBQKBNR w KQkq - 0 1"]

1. e4 {a comment
spanning lines} e5 (1... c5 2. Nf3) 2. Nf3! $14 Nc6 ; line comment
3. Bb5 1-0
[Event "Second game must be ignored"]
1. d4 d5 *
"#;
    let r = Request {
        method: "POST".to_string(),
        path: "/api/pgn".to_string(),
        query: Vec::new(),
        headers: Vec::new(),
        body: pgn.as_bytes().to_vec(),
    };
    let json = handle_pgn(&r).unwrap();
    assert!(
        json.contains("\"moves\":[\"e2e4\",\"e7e5\",\"g1f3\",\"b8c6\",\"f1b5\"]"),
        "{json}"
    );
    assert!(json.contains("\"sans\":[\"e4\",\"e5\",\"Nf3\",\"Nc6\",\"Bb5\"]"), "{json}");
}

#[test]
fn pgn_import_rejects_garbage() {
    let r = Request {
        method: "POST".to_string(),
        path: "/api/pgn".to_string(),
        query: Vec::new(),
        headers: Vec::new(),
        body: b"1. e4 Kxe7".to_vec(),
    };
    assert!(handle_pgn(&r).is_err());
}

#[test]
fn pgn_reader_keeps_tags_and_drops_noise() {
    let (fen, toks) = parse_pgn_game("[FEN \"8/8/8/8/8/8/8/K6k w - - 0 1\"]\r\n1. Ka2 {x} (1. Kb1) Kh2 *\r\n");
    assert_eq!(fen, Some("8/8/8/8/8/8/8/K6k w - - 0 1".to_string()));
    assert_eq!(toks, vec!["Ka2".to_string(), "Kh2".to_string()]);
    let (fen, toks) = parse_pgn_game("");
    assert_eq!(fen, None);
    assert!(toks.is_empty());
    let r = Request {
        method: "POST".to_string(),
        path: "/api/pgn".to_string(),
        query: Vec::new(),
        headers: Vec::new(),
        body: b"[Event \"x\"]\n*\n".to_vec(),
    };
    assert_eq!(handle_pgn(&r).unwrap_err(), "no moves found in PGN");
    let r = Request {
        method: "POST".to_string(),
        path: "/api/pgn".to_string(),
        query: Vec::new(),
        headers: Vec::new(),
        body: b"1. e4 e5 2. Ke3".to_vec(),
    };
    assert_eq!(handle_pgn(&r).unwrap_err(), "unparseable or illegal move 'Ke3' (after 2 plies)");
}
