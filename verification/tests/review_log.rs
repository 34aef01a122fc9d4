use chess::review::{ReviewEvent, ReviewGrade, ReviewInput, ReviewKey, DAY_MS};
use chess::review_log::{complete_len, log_lines, replay, LogFault, LogRecord, ReviewLog, ReviewPlan};

fn key(version: &str) -> ReviewKey {
    ReviewKey {
        card_id: "fixture-card".to_string(),
        content_version: version.to_string(),
    }
}

fn input(id: &str, at: i64, grade: ReviewGrade) -> ReviewInput {
    ReviewInput {
        event_id: id.to_string(),
        key: key("content-v1"),
        evidence_version: "evidence-v1".to_string(),
        shown_at_unix_ms: at.saturating_sub(1_500).max(0),
        reviewed_at_unix_ms: at,
        grade,
        hint_used: false,
        response_uci: Some("g1f3".to_string()),
        reference_match: Some(grade == ReviewGrade::Pass),
        latency_ms: 1_500,
    }
}

/// Record an input the way the trainer's store does once the write is
/// durable: `(event, inserted)`.
fn record(log: &mut ReviewLog, input: ReviewInput) -> Result<(ReviewEvent, bool), LogFault> {
    match log.prepare_review(input)? {
        ReviewPlan::Existing(i) => Ok((log.events()[i].clone(), false)),
        ReviewPlan::Append(event) => {
            log.commit_review(event.clone());
            Ok((event, true))
        }
    }
}

#[test]
fn durable_reload_is_idempotent_and_discards_only_partial_tail() {
    let first_input = input("stable-event", 10_000, ReviewGrade::Pass);
    let mut log = ReviewLog::new();
    let (event, inserted) = record(&mut log, first_input.clone()).unwrap();
    assert!(inserted);
    let expected_state = log.state(&first_input.key).unwrap().clone();

    let mut bytes = b"{\"schema\":\"stable\"}\n".to_vec();
    let valid_len = bytes.len();
    bytes.extend_from_slice(b"{\"schema\":\"interrupted");
    assert_eq!(complete_len(&bytes), valid_len);
    assert_eq!(log_lines(&bytes).len(), 1);

    let mut reopened = ReviewLog::new();
    reopened.load_review(event).unwrap();
    assert_eq!(reopened.state(&first_input.key), Some(&expected_state));
    let (_, inserted) = record(&mut reopened, first_input.clone()).unwrap();
    assert!(!inserted);
    assert_eq!(reopened.events().len(), 1);

    let mut conflict = first_input.clone();
    conflict.latency_ms += 1;
    assert!(matches!(
        record(&mut reopened, conflict),
        Err(LogFault::EventIdConflict(_))
    ));
}

#[test]
fn evidence_changes_preserve_state_but_content_changes_do_not() {
    let mut log = ReviewLog::new();
    let first = input("one", 0, ReviewGrade::Pass);
    let first_due = record(&mut log, first.clone()).unwrap().0.next_due_at_unix_ms;
    let mut evidence_change = input("two", first_due, ReviewGrade::Pass);
    evidence_change.evidence_version = "evidence-v2".to_string();
    let second = record(&mut log, evidence_change).unwrap().0;
    assert_eq!(second.next_interval_ms, 4 * DAY_MS);

    let mut content_change = input("three", first_due, ReviewGrade::Pass);
    content_change.key = key("content-v2");
    let fresh = record(&mut log, content_change.clone()).unwrap().0;
    assert_eq!(fresh.next_interval_ms, 2 * DAY_MS);
    assert_eq!(log.states().entries.len(), 2);

    let active = vec![first.key, content_change.key];
    let summary = log.states().summary(&active, first_due);
    assert_eq!(summary.active_cards, 2);
    assert_eq!(summary.reviewed_cards, 2);
}

#[test]
fn log_framing_keeps_blank_records_and_drops_the_tail() {
    assert_eq!(complete_len(b""), 0);
    assert_eq!(complete_len(b"no newline"), 0);
    assert_eq!(complete_len(b"a\nb"), 2);
    assert_eq!(complete_len(b"a\n\nb\n"), 5);
    assert_eq!(
        log_lines(b"a\n\nbc\nd"),
        vec![b"a".to_vec(), Vec::new(), b"bc".to_vec()]
    );
    assert!(log_lines(b"{not-json}").is_empty());
    assert_eq!(log_lines(b"{not-json}\n"), vec![b"{not-json}".to_vec()]);
}

#[test]
fn replay_refuses_gaps_duplicates_and_foreign_decisions() {
    let mut log = ReviewLog::new();
    let (first, _) = record(&mut log, input("one", 0, ReviewGrade::Pass)).unwrap();

    let mut fresh = ReviewLog::new();
    let mut gap = first.clone();
    gap.sequence = 2;
    assert_eq!(
        fresh.load_review(gap),
        Err("expected sequence 1, found 2".to_string())
    );
    let mut tampered = first.clone();
    tampered.next_interval_ms = DAY_MS;
    assert_eq!(
        fresh.load_review(tampered),
        Err("stored scheduler decision does not match deterministic replay".to_string())
    );
    let mut foreign = first.clone();
    foreign.scheduler_version = "other".to_string();
    assert_eq!(
        fresh.load_review(foreign),
        Err("unsupported scheduler version 'other'".to_string())
    );
    fresh.load_review(first.clone()).unwrap();
    let mut again = first.clone();
    again.sequence = 2;
    assert_eq!(
        fresh.load_review(again),
        Err("stored scheduler decision does not match deterministic replay".to_string())
    );
    assert_eq!(fresh.next_sequence(), 2);
}

#[test]
fn a_poisoned_log_refuses_new_records() {
    let mut log = ReviewLog::new();
    log.poison();
    assert!(log.is_poisoned());
    assert!(matches!(
        log.prepare_review(input("one", 0, ReviewGrade::Pass)),
        Err(LogFault::Poisoned)
    ));
    let mut bad = input("", 0, ReviewGrade::Pass);
    bad.event_id = String::new();
    assert!(matches!(
        log.prepare_review(bad),
        Err(LogFault::InvalidInput(_))
    ));
}

#[test]
fn replay_rebuilds_the_log_and_names_the_bad_line() {
    let mut log = ReviewLog::new();
    let (first, _) = record(&mut log, input("one", 0, ReviewGrade::Pass)).unwrap();
    let (second, _) = record(&mut log, input("two", 2 * DAY_MS, ReviewGrade::Miss)).unwrap();

    let rebuilt = match replay(vec![
        LogRecord::Review(first.clone()),
        LogRecord::Review(second.clone()),
        LogRecord::Blank,
    ]) {
        Ok(l) => l,
        Err((line, m)) => panic!("line {line}: {m}"),
    };
    assert_eq!(rebuilt.events().len(), 2);
    assert_eq!(rebuilt.next_sequence(), 3);
    assert_eq!(rebuilt.state(&key("content-v1")), log.state(&key("content-v1")));

    let blank_inside = replay(vec![LogRecord::Review(first.clone()), LogRecord::Blank, LogRecord::Blank]);
    assert!(matches!(blank_inside, Err((2, ref m)) if m == "blank records are not allowed"));

    let unreadable = replay(vec![
        LogRecord::Review(first.clone()),
        LogRecord::Unreadable("invalid JSON at column 3".to_string()),
    ]);
    assert!(matches!(unreadable, Err((2, ref m)) if m == "invalid JSON at column 3"));

    let duplicate = replay(vec![LogRecord::Review(first.clone()), LogRecord::Review(first.clone())]);
    assert!(matches!(duplicate, Err((2, _))));
}
