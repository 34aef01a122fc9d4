use chess::book::{book_reply, is_book_line, opening_name, openings};

fn seq(ucis: &[&str]) -> Vec<String> {
    ucis.iter().map(|s| s.to_string()).collect()
}

#[test]
fn every_line_is_legal_san() {
    let book = openings();
    assert_eq!(book.len(), 21);
    for o in &book {
        assert!(o.ucis.len() >= 8, "line '{}' too short: {:?}", o.name, o.ucis);
    }
}

#[test]
fn opponent_opens_with_main_line_first_move() {
    // With no moves, the opponent (as White) plays the first listed line's
    // opening move: Ruy Lopez -> 1.e4.
    let r = book_reply(&[]).unwrap();
    assert_eq!(r.uci, "e2e4");
}

#[test]
fn opponent_follows_the_chosen_sicilian() {
    // 1.e4 c5 -> the opponent answers 2.Nf3 (main Sicilian move order).
    let r = book_reply(&seq(&["e2e4", "c7c5"])).unwrap();
    assert_eq!(r.uci, "g1f3");
    assert!(r.name.contains("Sicilian"));
}

#[test]
fn book_line_detection() {
    assert!(is_book_line(&seq(&["e2e4"]), "e7e5"));
    assert!(!is_book_line(&seq(&["e2e4"]), "h7h5"));
}

#[test]
fn out_of_book_has_no_reply() {
    // 1.a3 a6 — no line; opponent falls back to the engine.
    assert!(book_reply(&seq(&["a2a3", "a7a6"])).is_none());
}

#[test]
fn opening_named_after_a_couple_moves() {
    assert_eq!(opening_name(&seq(&["e2e4"])), None);
    let n = opening_name(&seq(&["e2e4", "e7e5", "g1f3", "b8c6", "f1b5"])).unwrap();
    assert!(n.contains("Ruy"), "{n}");
}

#[test]
fn first_line_compiles_to_the_ruy_lopez_main_line() {
    let book = openings();
    assert_eq!(book[0].name, "Ruy Lopez");
    assert_eq!(
        &book[0].ucis[..6],
        &["e2e4", "e7e5", "g1f3", "b8c6", "f1b5", "a7a6"]
    );
    // Castling in SAN compiles to the king's two-square UCI move.
    assert_eq!(book[0].ucis[8], "e1g1");
}

#[test]
fn reply_names_the_earliest_matching_line() {
    let r = book_reply(&seq(&["e2e4", "e7e5", "g1f3", "b8c6"])).unwrap();
    assert_eq!(r.name, "Ruy Lopez");
    assert_eq!(r.uci, "f1b5");
    let r = book_reply(&seq(&["e2e4", "e7e5", "g1f3", "b8c6", "f1c4"])).unwrap();
    assert_eq!(r.name, "Italian Game");
    assert_eq!(r.uci, "f8c5");
}
