use chess::uci_client::parse_info;

#[test]
fn parses_stockfish_info_lines() {
    let i = parse_info(
        "info depth 20 seldepth 28 multipv 2 score cp 35 nodes 1234567 nps 2500000 \
         hashfull 250 tbhits 0 time 494 pv e2e4 e7e5 g1f3",
    )
    .unwrap();
    assert_eq!(i.depth, 20);
    assert_eq!(i.multipv, 2);
    assert_eq!(i.cp, Some(35));
    assert_eq!(i.mate, None);
    assert_eq!(i.nodes, 1_234_567);
    assert_eq!(i.time_ms, 494);
    assert_eq!(i.pv, vec!["e2e4", "e7e5", "g1f3"]);

    let m = parse_info("info depth 12 score mate -3 nodes 5 nps 5 time 1 pv h7h8").unwrap();
    assert_eq!(m.mate, Some(-3));
    assert_eq!(m.cp, None);
}

#[test]
fn skips_non_pv_and_bound_lines() {
    assert_eq!(parse_info("info depth 5 currmove e2e4 currmovenumber 1"), None);
    assert_eq!(
        parse_info("info depth 9 score cp 50 lowerbound nodes 100 time 2 pv e2e4"),
        None
    );
    assert_eq!(parse_info("info string NNUE evaluation using nn.nnue"), None);
    assert_eq!(parse_info("bestmove e2e4"), None);
}

#[test]
fn malformed_optional_values_fall_back() {
    let i = parse_info("info depth 3 seldepth x multipv y score cp -7 nodes z pv a2a3").unwrap();
    assert_eq!(i.seldepth, 0);
    assert_eq!(i.multipv, 1);
    assert_eq!(i.cp, Some(-7));
    assert_eq!(i.nodes, 0);
    // A malformed depth rejects the line.
    assert_eq!(parse_info("info depth x score cp 1 pv a2a3"), None);
    // A score of an unknown kind rejects the line.
    assert_eq!(parse_info("info depth 3 score wdl 1 pv a2a3"), None);
}
