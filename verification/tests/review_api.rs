use chess::cards::{
    evidence_content_version, semantic_content_version, BundleAnalysis, Catalog, DeckCard,
    DeckOverlay, DiagnosticAnswer, DiagnosticBundle, DiagnosticCard, DiagnosticPrompt, Occurrence,
    Position, BUNDLE_SCHEMA, DECK_SCHEMA,
};
use chess::review::{
    RevealEvent, ReviewEvent, ReviewGrade, ReviewInput, ReviewKey, DAY_MS,
};
use chess::review_api::{
    now_unix_ms, unix_ms_from, GradeReceipt, GradeRequest, GradeStep, NextPlan, NextRequest,
    NextView, ProgressReport, RevealRequest, RevealStep, RevealedAttempt, ReviewApi, Staged,
    PENDING_TTL_MS,
};
use chess::review_log::{ReviewLog, ReviewPlan};

const ANALYSIS_CONFIG_VERSION: &str =
    "sha256:aaaaaaaaaaaaaaaaaaaaaaaaaaaaaaaaaaaaaaaaaaaaaaaaaaaaaaaaaaaaaaaa";

fn strings(items: &[&str]) -> Vec<String> {
    items.iter().map(|s| s.to_string()).collect()
}

fn source_card(index: usize) -> DiagnosticCard {
    let answer = DiagnosticAnswer {
        reference_move_uci: "g1f3".to_string(),
        played_move_uci: "f1c4".to_string(),
        reference_line_uci: strings(&["g1f3", "b8c6"]),
        played_line_uci: strings(&["f1c4", "g8f6"]),
        reference_score_cp_equivalent: 30,
        played_score_cp_equivalent: 0,
        loss_cp_equivalent: 30,
        loss_bucket: "small".to_string(),
        mate_event: None,
    };
    let mut card = DiagnosticCard {
        card_id: format!("engine-diagnostic/fixture-game-{index}/3"),
        content_version: String::new(),
        evidence_version: evidence_content_version(ANALYSIS_CONFIG_VERSION, &answer),
        kind: "engine-diagnostic-move".to_string(),
        occurrence: Occurrence {
            game_id: format!("fixture-game-{index}"),
            decision_ply: 3,
            initial_fen: "rnbqkbnr/pppppppp/8/8/8/8/PPPPPPPP/RNBQKBNR w KQkq - 0 1".to_string(),
            history_uci: strings(&["e2e4", "e7e5"]),
        },
        position: Position {
            current_fen: "rnbqkbnr/pppp1ppp/8/4p3/4P3/8/PPPP1PPP/RNBQKBNR w KQkq e6 0 2"
                .to_string(),
            position_id: "rnbqkbnr/pppp1ppp/8/4p3/4P3/8/PPPP1PPP/RNBQKBNR w KQkq -".to_string(),
        },
        prompt: DiagnosticPrompt {
            orientation: "white".to_string(),
            task: "select-move".to_string(),
            text: "What would you play?".to_string(),
        },
        answer,
        tags: strings(&["opening"]),
    };
    card.content_version = semantic_content_version(&card).ok().unwrap();
    card
}

fn catalog(card_count: usize, new_per_day: usize) -> Catalog {
    let cards: Vec<DiagnosticCard> = (0..card_count).map(source_card).collect();
    let deck = DeckOverlay {
        schema: DECK_SCHEMA.to_string(),
        schema_version: 1,
        deck_id: "fixture-deck".to_string(),
        title: "Fixture deck".to_string(),
        new_per_day,
        cards: cards
            .iter()
            .map(|c| DeckCard {
                card_id: c.card_id.clone(),
                content_version: c.content_version.clone(),
                prompt: "Develop while controlling the center.".to_string(),
                explanation: "The reference develops the knight.".to_string(),
                success_criterion: "Commit to a legal move and explain its purpose.".to_string(),
                tags: strings(&["fixture"]),
            })
            .collect(),
    };
    let bundle = DiagnosticBundle {
        schema: BUNDLE_SCHEMA.to_string(),
        schema_version: 1,
        analysis_config_version: ANALYSIS_CONFIG_VERSION.to_string(),
        analysis: BundleAnalysis {
            assurance: "bounded-engine-estimate".to_string(),
            confirmation_nodes_per_position: 100000,
        },
        cards,
    };
    Catalog::from_inputs(&bundle, &deck).unwrap()
}

enum Record {
    Review(ReviewEvent),
    Reveal(RevealEvent),
}

/// The service with its log's records kept in memory as the file would
/// keep them.
struct Desk {
    api: ReviewApi,
    disk: Vec<Record>,
    issued: u32,
}

impl Desk {
    fn open(catalog: Catalog, disk: Vec<Record>, mono_ms: u64) -> Desk {
        let mut log = ReviewLog::new();
        for record in &disk {
            match record {
                Record::Review(e) => log.load_review(e.clone()).unwrap(),
                Record::Reveal(e) => log.load_reveal(e.clone()).unwrap(),
            }
        }
        let api = ReviewApi::new(catalog, log, "review.jsonl".to_string(), mono_ms).unwrap();
        Desk { api, disk, issued: 0 }
    }

    fn next(&mut self, now: i64, mono_ms: u64) -> NextView {
        match self.api.next(NextRequest {}, now, mono_ms).unwrap() {
            NextPlan::Ready(view) => view,
            NextPlan::Issue { card, queue } => {
                self.issued += 1;
                let id = format!("attempt-{}", self.issued);
                self.api.open_attempt(card, id, queue, now, mono_ms)
            }
        }
    }

    fn release(&mut self, request: RevealRequest, mono_ms: u64) -> Result<RevealedAttempt, String> {
        self.api.prune_pending(mono_ms);
        match self.api.reveal_answer(request, mono_ms)? {
            RevealStep::Ready(answer) => Ok(answer),
            RevealStep::Write => {
                if let Staged::Reveal(e) = self.api.staged() {
                    self.disk.push(Record::Reveal(e.clone()));
                }
                self.api.finish_reveal()
            }
        }
    }

    fn grade(&mut self, request: GradeRequest, now: i64, mono_ms: u64) -> Result<GradeReceipt, String> {
        self.api.prune_pending(mono_ms);
        match self.api.grade(request, now, mono_ms)? {
            GradeStep::Ready(receipt) => Ok(receipt),
            GradeStep::Write => {
                if let Staged::Review(e) = self.api.staged() {
                    self.disk.push(Record::Review(e.clone()));
                }
                self.api.finish_grade()
            }
        }
    }

    fn progress(&mut self, now: i64, mono_ms: u64) -> ProgressReport {
        self.api.progress(now, mono_ms).unwrap()
    }
}

fn commit(attempt_id: &str, uci: &str) -> RevealRequest {
    RevealRequest {
        attempt_id: attempt_id.to_string(),
        move_uci: Some(uci.to_string()),
        reason_present: true,
        gave_up: false,
    }
}

fn give_up(attempt_id: &str) -> RevealRequest {
    RevealRequest {
        attempt_id: attempt_id.to_string(),
        move_uci: None,
        reason_present: false,
        gave_up: true,
    }
}

fn attempt_of(view: &NextView) -> String {
    view.card.as_ref().unwrap().attempt_id.clone()
}

const NOW: i64 = 1_000_000;

#[test]
fn next_reuses_one_answer_safe_pending_attempt() {
    let mut desk = Desk::open(catalog(2, 1), Vec::new(), 0);
    let first = desk.next(NOW, 0);
    assert!(first.recovered.is_none());
    let prompt = &first.card.as_ref().unwrap().prompt;
    assert_eq!(prompt.orientation, "white");
    assert!(prompt.legal_moves.iter().any(|c| c.uci == "g1f3"));
    let second = desk.next(NOW, 10);
    assert_eq!(attempt_of(&first), attempt_of(&second));
    assert_eq!(first.queue.new, 1);
    assert_eq!(second.queue.new, 1);
    assert_eq!(desk.progress(NOW, 20).queue.new, 1);
    assert_eq!(desk.issued, 1);
}

#[test]
fn reveal_retry_must_match_and_next_recovers_the_answer() {
    let mut desk = Desk::open(catalog(1, 1), Vec::new(), 0);
    let attempt_id = attempt_of(&desk.next(NOW, 0));
    let initial = desk.release(commit(&attempt_id, "g1f3"), 500).unwrap();
    let again = desk.release(commit(&attempt_id, "g1f3"), 900).unwrap();
    assert_eq!(initial.latency_ms, 500);
    assert_eq!(again.latency_ms, 500);
    assert_eq!(again.feedback, initial.feedback);
    assert_eq!(initial.feedback.reference_match, Some(true));

    let conflicting_move = desk.release(commit(&attempt_id, "f1c4"), 1_000).unwrap_err();
    assert!(conflicting_move.contains("conflicts with the move already committed"));
    let conflicting_give_up = desk.release(give_up(&attempt_id), 1_000).unwrap_err();
    assert!(conflicting_give_up.contains("conflicts with the move already committed"));

    let recovered = desk.next(NOW, 2_000);
    assert_eq!(attempt_of(&recovered), attempt_id);
    let answer = recovered.recovered.unwrap();
    assert_eq!(answer.feedback.played_move.unwrap().uci, "g1f3");
    assert_eq!(recovered.queue.new, 0);
}

#[test]
fn give_up_survives_restart_expiry_and_grade_retry_as_a_miss() {
    let deck = catalog(1, 1);
    let mut desk = Desk::open(deck.clone(), Vec::new(), 0);
    let attempt_id = attempt_of(&desk.next(NOW, 0));
    let answer = desk.release(give_up(&attempt_id), 100).unwrap();
    assert!(answer.feedback.played_move.is_none());
    assert_eq!(desk.api.log().reveals().len(), 1);
    assert!(desk.api.log().events().is_empty());

    let mut desk = Desk::open(deck.clone(), desk.disk, 0);
    let later = PENDING_TTL_MS + 1_000;
    let recovered = desk.next(NOW, later);
    assert_eq!(attempt_of(&recovered), attempt_id);
    assert!(recovered.recovered.unwrap().feedback.played_move.is_none());
    assert_eq!(recovered.queue.new, 0);
    let receipt = desk
        .grade(
            GradeRequest { attempt_id: attempt_id.clone(), outcome: ReviewGrade::Pass },
            NOW + 5_000,
            later,
        )
        .unwrap();
    assert_eq!(receipt.applied_outcome, ReviewGrade::Miss);
    assert!(receipt.inserted);
    assert!(desk.api.log().events()[0].hint_used);

    let mut desk = Desk::open(deck, desk.disk, 0);
    let retry = desk
        .grade(
            GradeRequest { attempt_id: attempt_id.clone(), outcome: ReviewGrade::Pass },
            NOW + 9_000,
            0,
        )
        .unwrap();
    assert!(!retry.inserted);
    let conflict = desk
        .grade(GradeRequest { attempt_id, outcome: ReviewGrade::Partial }, NOW + 9_000, 0)
        .unwrap_err();
    assert_eq!(conflict, "review attempt was already graded differently");
}

#[test]
fn stale_duplicate_cannot_advance_a_card_twice() {
    let mut desk = Desk::open(catalog(1, 2), Vec::new(), 0);
    let first = desk.next(NOW, 0);
    let first_id = attempt_of(&first);
    let duplicate = desk.api.open_attempt(0, "duplicate-attempt".to_string(), first.queue, NOW, 0);
    assert_eq!(attempt_of(&duplicate), "duplicate-attempt");
    desk.release(commit(&first_id, "g1f3"), 100).unwrap();
    let inserted = desk
        .grade(GradeRequest { attempt_id: first_id.clone(), outcome: ReviewGrade::Pass }, NOW, 200)
        .unwrap();
    assert!(inserted.inserted);
    let stale = desk.release(commit("duplicate-attempt", "g1f3"), 300).unwrap_err();
    assert!(stale.contains("changed after this attempt was issued"));
    let retry = desk
        .grade(GradeRequest { attempt_id: first_id, outcome: ReviewGrade::Pass }, NOW, 400)
        .unwrap();
    assert!(!retry.inserted);
    assert_eq!(desk.api.log().events().len(), 1);
}

#[test]
fn expired_attempt_cannot_reveal_or_record() {
    let mut desk = Desk::open(catalog(1, 1), Vec::new(), 0);
    let attempt_id = attempt_of(&desk.next(NOW, 0));
    let error = desk
        .release(commit(&attempt_id, "g1f3"), PENDING_TTL_MS + 1_000)
        .unwrap_err();
    assert_eq!(error, "unknown or expired review attempt");
    assert!(desk.api.log().events().is_empty());
    assert!(desk.api.log().reveals().is_empty());
}

fn legacy_input(event_id: &str, card: &Catalog, content_version: &str, shown: i64, reviewed: i64) -> ReviewInput {
    ReviewInput {
        event_id: event_id.to_string(),
        key: ReviewKey {
            card_id: card.cards()[0].card_id.clone(),
            content_version: content_version.to_string(),
        },
        evidence_version: "fixture-evidence-v1".to_string(),
        shown_at_unix_ms: shown,
        reviewed_at_unix_ms: reviewed,
        grade: ReviewGrade::Pass,
        hint_used: false,
        response_uci: Some("g1f3".to_string()),
        reference_match: Some(true),
        latency_ms: 1_000,
    }
}

fn log_with(input: ReviewInput) -> ReviewLog {
    let mut log = ReviewLog::new();
    match log.prepare_review(input).ok().unwrap() {
        ReviewPlan::Append(e) => log.commit_review(e),
        ReviewPlan::Existing(_) => unreachable!(),
    }
    log
}

#[test]
fn progress_ignores_retired_content_versions() {
    let deck = catalog(1, 1);
    let log = log_with(legacy_input("old", &deck, "retired-content", 1_000, 2_000));
    let mut api = ReviewApi::new(deck, log, "review.jsonl".to_string(), 0).unwrap();
    let progress = api.progress(NOW, 0).unwrap();
    assert_eq!(progress.total_reviews, 0);
    assert_eq!(progress.no_hint_attempts, 0);
    assert_eq!(progress.median_latency_ms, None);
}

fn available_new_after_shown(shown_at: i64, now: i64) -> usize {
    let deck = catalog(2, 1);
    let version = deck.cards()[0].content_version.clone();
    let log = log_with(legacy_input("legacy", &deck, &version, shown_at, now));
    let api = ReviewApi::new(deck, log, "review.jsonl".to_string(), 0).unwrap();
    api.queue_counts(now).unwrap().new
}

#[test]
fn new_card_limit_keeps_legacy_reviews_in_the_rolling_window() {
    let now = 10 * DAY_MS;
    assert_eq!(available_new_after_shown(now - DAY_MS + 1, now), 0);
    assert_eq!(available_new_after_shown(now - DAY_MS - 1, now), 1);
}

#[test]
fn reveal_checks_the_commitment_before_releasing() {
    let mut desk = Desk::open(catalog(1, 1), Vec::new(), 0);
    let attempt_id = attempt_of(&desk.next(NOW, 0));
    let mut no_reason = commit(&attempt_id, "g1f3");
    no_reason.reason_present = false;
    assert_eq!(desk.release(no_reason, 10).unwrap_err(), "commit a reason before revealing");
    let mut no_move = commit(&attempt_id, "g1f3");
    no_move.move_uci = None;
    assert_eq!(desk.release(no_move, 10).unwrap_err(), "commit a legal move before revealing");
    let mut give_up_with_move = give_up(&attempt_id);
    give_up_with_move.move_uci = Some("g1f3".to_string());
    assert_eq!(
        desk.release(give_up_with_move, 10).unwrap_err(),
        "give-up reveal must not include a move"
    );
    let illegal = desk.release(commit(&attempt_id, "a1a8"), 10).unwrap_err();
    assert!(illegal.ends_with("': submitted move is not legal in the card position"));
    assert!(illegal.starts_with("card '"));
    assert_eq!(
        desk.grade(GradeRequest { attempt_id: attempt_id.clone(), outcome: ReviewGrade::Pass }, NOW, 10)
            .unwrap_err(),
        "reveal the card before grading it"
    );
    assert_eq!(
        desk.release(commit("nobody", "g1f3"), 10).unwrap_err(),
        "unknown or expired review attempt"
    );
    let answer = desk.release(commit(&attempt_id, "f1c4"), 2 * DAY_MS as u64).unwrap_err();
    assert_eq!(answer, "unknown or expired review attempt");
}

#[test]
fn the_new_card_limit_and_the_grade_receipt() {
    let mut desk = Desk::open(catalog(2, 1), Vec::new(), 0);
    let first = attempt_of(&desk.next(NOW, 0));
    desk.release(commit(&first, "f1c4"), 1_000).unwrap();
    let receipt = desk
        .grade(GradeRequest { attempt_id: first.clone(), outcome: ReviewGrade::Partial }, NOW, 1_500)
        .unwrap();
    assert_eq!(receipt.applied_outcome, ReviewGrade::Partial);
    assert_eq!(receipt.interval_ms, DAY_MS);
    assert_eq!(receipt.due_at_ms, NOW + 1_500 + DAY_MS);
    assert_eq!(receipt.progress.total_reviews, 1);
    assert_eq!(receipt.progress.no_hint_attempts, 1);
    assert_eq!(receipt.progress.no_hint_passes, 0);
    assert_eq!(receipt.progress.median_latency_ms, Some(1_000));
    assert_eq!(receipt.progress.queue.new, 0);
    let after = desk.next(NOW + 2_000, 2_000);
    assert!(after.card.is_none());
    assert_eq!(after.queue.new, 0);
}

#[test]
fn the_clock_reads_milliseconds_since_the_epoch() {
    assert_eq!(unix_ms_from(Some(1_234)), Ok(1_234));
    assert_eq!(unix_ms_from(None), Err("system clock precedes the Unix epoch".to_string()));
    assert_eq!(
        unix_ms_from(Some(u128::from(u64::MAX))),
        Err("system clock is out of range".to_string())
    );
    assert!(now_unix_ms().unwrap() > 1_600_000_000_000);
}
