use chess::cards::{
    evidence_content_version, semantic_content_version, BundleAnalysis, Catalog, CardsError,
    DeckCard, DeckOverlay, DiagnosticAnswer, DiagnosticBundle, DiagnosticCard, DiagnosticPrompt,
    Occurrence, Position, BUNDLE_SCHEMA, DECK_SCHEMA,
};

const CONTENT_VERSION: &str =
    "sha256:d9db83b89274a1b4bf1acb02c6f94ce2efe4c315be76822324158b6966ebff60";
const ANALYSIS_CONFIG_VERSION: &str =
    "sha256:aaaaaaaaaaaaaaaaaaaaaaaaaaaaaaaaaaaaaaaaaaaaaaaaaaaaaaaaaaaaaaaa";
const EVIDENCE_VERSION: &str =
    "sha256:f56f672546c56c6266ba77790c8dec7eeaf3f356b92411b1307ccbd06b47bfe1";

fn strings(items: &[&str]) -> Vec<String> {
    items.iter().map(|s| s.to_string()).collect()
}

fn fixture_card() -> DiagnosticCard {
    DiagnosticCard {
        card_id: "engine-diagnostic/fixture-game/3".to_string(),
        content_version: CONTENT_VERSION.to_string(),
        evidence_version: EVIDENCE_VERSION.to_string(),
        kind: "engine-diagnostic-move".to_string(),
        occurrence: Occurrence {
            game_id: "fixture-game".to_string(),
            decision_ply: 3,
            initial_fen: "rnbqkbnr/pppppppp/8/8/8/8/PPPPPPPP/RNBQKBNR w KQkq - 0 1".to_string(),
            history_uci: strings(&["e2e4", "e7e5"]),
        },
        position: Position {
            current_fen: "rnbqkbnr/pppp1ppp/8/4p3/4P3/8/PPPP1PPP/RNBQKBNR w KQkq e6 0 2"
                .to_string(),
            position_id: "rnbqkbnr/pppp1ppp/8/4p3/4P3/8/PPPP1PPP/RNBQKBNR w KQkq -".to_string(),
        },
        prompt: DiagnosticPrompt {
            orientation: "white".to_string(),
            task: "select-move".to_string(),
            text: "What would you play?".to_string(),
        },
        answer: DiagnosticAnswer {
            reference_move_uci: "g1f3".to_string(),
            played_move_uci: "f1c4".to_string(),
            reference_line_uci: strings(&["g1f3", "b8c6"]),
            played_line_uci: strings(&["f1c4", "g8f6"]),
            reference_score_cp_equivalent: 30,
            played_score_cp_equivalent: 0,
            loss_cp_equivalent: 30,
            loss_bucket: "small".to_string(),
            mate_event: None,
        },
        tags: strings(&["opening", "personal-game"]),
    }
}

#[test]
fn semantic_digest_matches_python_canonical_json() {
    let card = fixture_card();
    assert_eq!(semantic_content_version(&card).ok().unwrap(), CONTENT_VERSION);
}

#[test]
fn evidence_digest_matches_python_canonical_json() {
    let card = fixture_card();
    assert_eq!(
        evidence_content_version(ANALYSIS_CONFIG_VERSION, &card.answer),
        EVIDENCE_VERSION
    );
}

fn fixture_bundle(card: DiagnosticCard) -> DiagnosticBundle {
    DiagnosticBundle {
        schema: BUNDLE_SCHEMA.to_string(),
        schema_version: 1,
        analysis_config_version: ANALYSIS_CONFIG_VERSION.to_string(),
        analysis: BundleAnalysis {
            assurance: "bounded-engine-estimate".to_string(),
            confirmation_nodes_per_position: 100000,
        },
        cards: vec![card],
    }
}

fn fixture_deck() -> DeckOverlay {
    DeckOverlay {
        schema: DECK_SCHEMA.to_string(),
        schema_version: 1,
        deck_id: "fixture-six/v1".to_string(),
        title: "Fixture deck".to_string(),
        new_per_day: 1,
        cards: vec![DeckCard {
            card_id: "engine-diagnostic/fixture-game/3".to_string(),
            content_version: CONTENT_VERSION.to_string(),
            prompt: "Develop while controlling the center.".to_string(),
            explanation: "The pinned reference develops the knight.".to_string(),
            success_criterion: "Commit to a legal move and explain its purpose.".to_string(),
            tags: strings(&["development"]),
        }],
    }
}

#[test]
fn catalog_replays_and_exposes_only_curated_prompt() {
    let catalog = Catalog::from_inputs(&fixture_bundle(fixture_card()), &fixture_deck()).unwrap();
    assert_eq!(catalog.deck_id, "fixture-six/v1");
    assert_eq!(catalog.cards().len(), 1);
    let card = &catalog.cards()[0];
    // The prompt view carries only the curated prompt and the position.
    let prompt = card.prompt_view();
    let shown = format!(
        "{} {} {} {} {:?} {:?}",
        prompt.prompt, prompt.fen, prompt.position_id, prompt.orientation, prompt.legal_moves,
        prompt.tags
    );
    assert!(!shown.contains("referenceMove"));
    assert!(!shown.contains("pinned reference"));
    assert!(!shown.contains("contentVersion"));
    assert!(!shown.contains("evidenceVersion"));
    assert!(!shown.contains("cardId"));
    assert!(shown.contains("Develop while controlling"));
    assert!(card.tags.contains(&"development".to_string()));

    let feedback = card.feedback("g1f3").unwrap();
    assert_eq!(feedback.reference_match, Some(true));
    assert_eq!(feedback.played_move.as_ref().unwrap().uci, "g1f3");
    assert_eq!(feedback.reference_move.san, "Nf3");
    assert_eq!(feedback.reference_line[1].san, "Nc6");
    assert!(card.feedback("a1a8").is_err());
    let gave_up = card.give_up_feedback();
    assert_eq!(gave_up.played_move, None);
    assert_eq!(gave_up.reference_match, None);
    assert_eq!(gave_up.reference_move.uci, "g1f3");
}

#[test]
fn rejects_replay_and_deck_reference_mismatches() {
    let mut bad_fen = fixture_card();
    bad_fen.position.current_fen =
        "rnbqkbnr/pppp1ppp/8/4p3/4P3/8/PPPP1PPP/RNBQKBNR b KQkq - 0 2".to_string();
    assert!(matches!(
        Catalog::from_inputs(&fixture_bundle(bad_fen), &fixture_deck()),
        Err(CardsError::InvalidCard { .. })
    ));

    let mut deck = fixture_deck();
    deck.cards[0].content_version =
        "sha256:bbbbbbbbbbbbbbbbbbbbbbbbbbbbbbbbbbbbbbbbbbbbbbbbbbbbbbbbbbbbbbbb".to_string();
    assert!(matches!(
        Catalog::from_inputs(&fixture_bundle(fixture_card()), &deck),
        Err(CardsError::DeckReference(_))
    ));
}

#[test]
fn rejects_answer_mutations_with_stale_evidence_digest() {
    let mutations: Vec<fn(&mut DiagnosticCard)> = vec![
        |card| {
            card.answer.reference_score_cp_equivalent = 31;
        },
        |card| {
            card.answer.loss_cp_equivalent = 31;
        },
        |card| {
            card.answer.reference_line_uci = vec!["g1f3".to_string(), "g8f6".to_string()];
        },
    ];
    for mutate in mutations {
        let mut card = fixture_card();
        mutate(&mut card);
        let error = Catalog::from_inputs(&fixture_bundle(card), &fixture_deck()).err().unwrap();
        assert!(
            matches!(
                error,
                CardsError::InvalidCard { ref message, .. }
                    if message == "answer evidence digest does not match evidence_version"
            ),
            "unexpected import error: {error:?}"
        );
    }
}

#[test]
fn evidence_version_tracks_config_without_resetting_semantic_content() {
    const NEW_CONFIG: &str =
        "sha256:bbbbbbbbbbbbbbbbbbbbbbbbbbbbbbbbbbbbbbbbbbbbbbbbbbbbbbbbbbbbbbbb";
    const NEW_EVIDENCE: &str =
        "sha256:ed87dfdb6f7b95687cab7c02b4811a6d3fc00c7bd4d90665942712d3a53e006f";

    let mut stale_bundle = fixture_bundle(fixture_card());
    stale_bundle.analysis_config_version = NEW_CONFIG.to_string();
    assert!(matches!(
        Catalog::from_inputs(&stale_bundle, &fixture_deck()),
        Err(CardsError::InvalidCard { ref message, .. })
            if message == "answer evidence digest does not match evidence_version"
    ));

    let mut refreshed = fixture_card();
    refreshed.evidence_version = NEW_EVIDENCE.to_string();
    let mut refreshed_bundle = fixture_bundle(refreshed);
    refreshed_bundle.analysis_config_version = NEW_CONFIG.to_string();
    let catalog = Catalog::from_inputs(&refreshed_bundle, &fixture_deck()).unwrap();
    assert_eq!(catalog.cards()[0].content_version, CONTENT_VERSION);
    assert_eq!(catalog.cards()[0].evidence_version, NEW_EVIDENCE);
}

#[test]
fn catalog_refuses_bad_headers_and_duplicates() {
    let mut deck = fixture_deck();
    deck.new_per_day = 0;
    assert!(matches!(
        Catalog::from_inputs(&fixture_bundle(fixture_card()), &deck),
        Err(CardsError::Schema(ref m)) if m == "new_per_day must be between 1 and 100"
    ));
    let mut deck = fixture_deck();
    deck.title = "  ".to_string();
    assert!(matches!(
        Catalog::from_inputs(&fixture_bundle(fixture_card()), &deck),
        Err(CardsError::Schema(ref m)) if m == "deck title must not be empty"
    ));
    let mut bundle = fixture_bundle(fixture_card());
    bundle.analysis_config_version = "sha256:ABC".to_string();
    assert!(matches!(
        Catalog::from_inputs(&bundle, &fixture_deck()),
        Err(CardsError::Schema(ref m)) if m == "analysis_config_version must be a lowercase sha256 digest"
    ));
    let mut bundle = fixture_bundle(fixture_card());
    bundle.cards.push(fixture_card());
    assert!(matches!(
        Catalog::from_inputs(&bundle, &fixture_deck()),
        Err(CardsError::Duplicate(ref m)) if m == "bundle repeats card id 'engine-diagnostic/fixture-game/3'"
    ));
    let mut deck = fixture_deck();
    let again = deck.cards[0].clone();
    deck.cards.push(again);
    assert!(matches!(
        Catalog::from_inputs(&fixture_bundle(fixture_card()), &deck),
        Err(CardsError::Duplicate(ref m))
            if m == &format!("deck repeats card key 'engine-diagnostic/fixture-game/3@{CONTENT_VERSION}'")
    ));
    let catalog = Catalog::from_inputs(&fixture_bundle(fixture_card()), &fixture_deck()).unwrap();
    let card = catalog.get("engine-diagnostic/fixture-game/3", CONTENT_VERSION).unwrap();
    assert_eq!(card.tags, strings(&["opening", "personal-game", "development"]));
    assert_eq!(card.legal_moves.len(), 29);
    assert!(catalog.get("engine-diagnostic/fixture-game/3", "sha256:x").is_none());
}

#[test]
fn most_negative_score_is_written_and_accepted() {
    let mut text = String::new();
    chess::http::push_i64(&mut text, i64::MIN);
    assert_eq!(text, "-9223372036854775808");

    let mut card = fixture_card();
    card.answer.played_score_cp_equivalent = i64::MIN;
    card.evidence_version = evidence_content_version(ANALYSIS_CONFIG_VERSION, &card.answer);
    assert_ne!(card.evidence_version, EVIDENCE_VERSION);
    let catalog = Catalog::from_inputs(&fixture_bundle(card), &fixture_deck()).unwrap();
    assert_eq!(catalog.cards().len(), 1);
}
