use chess::review::{
    apply_event, derive_event, median_latency, validate_input, ReviewEvent, ReviewGrade,
    ReviewInput, ReviewKey, ReviewStates, DAY_MS, MINUTE_MS,
};

fn key(version: &str) -> ReviewKey {
    ReviewKey {
        card_id: "fixture-card".to_string(),
        content_version: version.to_string(),
    }
}

fn input(id: &str, at: i64, grade: ReviewGrade) -> ReviewInput {
    ReviewInput {
        event_id: id.to_string(),
        key: key("content-v1"),
        evidence_version: "evidence-v1".to_string(),
        shown_at_unix_ms: at.saturating_sub(1_500).max(0),
        reviewed_at_unix_ms: at,
        grade,
        hint_used: false,
        response_uci: Some("g1f3".to_string()),
        reference_match: Some(grade == ReviewGrade::Pass),
        latency_ms: 1_500,
    }
}

fn apply_input(states: &mut ReviewStates, sequence: u64, input: ReviewInput) -> ReviewEvent {
    let event = derive_event(sequence, states, input);
    apply_event(states, &event);
    event
}

#[test]
fn fixed_schedule_handles_pass_partial_miss_and_hint() {
    let mut states = ReviewStates::new();
    let first = apply_input(&mut states, 1, input("one", 0, ReviewGrade::Pass));
    assert_eq!(first.next_interval_ms, 2 * DAY_MS);
    assert!(!first.delayed_eligible);

    let second = apply_input(
        &mut states,
        2,
        input("two", first.next_due_at_unix_ms, ReviewGrade::Pass),
    );
    assert_eq!(second.next_interval_ms, 4 * DAY_MS);
    assert!(second.was_due);
    assert!(second.delayed_eligible);

    let partial = apply_input(
        &mut states,
        3,
        input("three", second.next_due_at_unix_ms, ReviewGrade::Partial),
    );
    assert_eq!(partial.next_interval_ms, DAY_MS);
    assert_eq!(partial.next_success_rung, 0);
    assert_eq!(partial.next_lapses, 0);

    let miss = apply_input(
        &mut states,
        4,
        input("four", partial.next_due_at_unix_ms, ReviewGrade::Miss),
    );
    assert_eq!(miss.next_interval_ms, 10 * MINUTE_MS);
    assert_eq!(miss.next_lapses, 1);

    let mut hinted = input("five", miss.next_due_at_unix_ms, ReviewGrade::Pass);
    hinted.hint_used = true;
    let hinted = apply_input(&mut states, 5, hinted);
    assert_eq!(hinted.applied_grade, ReviewGrade::Miss);
    assert_eq!(hinted.next_interval_ms, 10 * MINUTE_MS);
    assert_eq!(hinted.next_lapses, 2);
}

#[test]
fn delayed_measure_requires_a_day_interval_and_due_review() {
    let mut states = ReviewStates::new();
    let first = apply_input(&mut states, 1, input("one", 0, ReviewGrade::Pass));
    let early = apply_input(
        &mut states,
        2,
        input("early", first.next_due_at_unix_ms - 1, ReviewGrade::Pass),
    );
    assert!(!early.delayed_eligible);
    let due = apply_input(
        &mut states,
        3,
        input("due", early.next_due_at_unix_ms, ReviewGrade::Pass),
    );
    assert!(due.delayed_eligible);
}

#[test]
fn median_latency_handles_even_and_odd_samples() {
    assert_eq!(median_latency(vec![]), None);
    assert_eq!(median_latency(vec![30, 10, 20]), Some(20));
    assert_eq!(median_latency(vec![40, 10, 30, 20]), Some(25));
}

#[test]
fn median_of_even_sample_saturates_the_sum() {
    assert_eq!(median_latency(vec![u64::MAX, u64::MAX]), Some(u64::MAX / 2));
    assert_eq!(median_latency(vec![7]), Some(7));
}

#[test]
fn pass_ladder_climbs_and_stops_at_sixty_days() {
    let mut states = ReviewStates::new();
    let mut at = 0;
    let mut seen = Vec::new();
    for i in 0..8u64 {
        let e = apply_input(&mut states, i + 1, input(&format!("p{i}"), at, ReviewGrade::Pass));
        seen.push(e.next_interval_ms / DAY_MS);
        at = e.next_due_at_unix_ms;
    }
    assert_eq!(seen, vec![2, 4, 7, 14, 30, 60, 60, 60]);
    let st = states.get(&key("content-v1")).unwrap();
    assert_eq!(st.attempts, 8);
    assert_eq!(st.passes, 8);
    assert_eq!(st.success_rung, 6);
    assert_eq!(st.last_event_sequence, 8);
}

#[test]
fn content_versions_are_tracked_apart() {
    let mut states = ReviewStates::new();
    apply_input(&mut states, 1, input("a", 0, ReviewGrade::Miss));
    let mut other = input("b", 0, ReviewGrade::Pass);
    other.key = key("content-v2");
    let e = apply_input(&mut states, 2, other);
    assert_eq!(e.prior_due_at_unix_ms, None);
    assert_eq!(e.next_interval_ms, 2 * DAY_MS);
    assert_eq!(states.entries.len(), 2);
    assert_eq!(states.get(&key("content-v1")).unwrap().misses, 1);
}

#[test]
fn validation_reports_the_first_broken_rule() {
    assert_eq!(validate_input(&input("ok", 5_000, ReviewGrade::Pass)), Ok(()));
    let mut bad = input("", 5_000, ReviewGrade::Pass);
    assert_eq!(
        validate_input(&bad),
        Err("event_id is empty, too long, or contains a control character".to_string())
    );
    bad.event_id = "x\u{7}".to_string();
    assert!(validate_input(&bad).is_err());
    bad.event_id = "y".repeat(129);
    assert!(validate_input(&bad).is_err());
    bad.event_id = "y".repeat(128);
    assert_eq!(validate_input(&bad), Ok(()));
    bad.key.card_id = " \t".to_string();
    assert_eq!(validate_input(&bad), Err("card identity must not be empty".to_string()));
    bad.key.card_id = "c".to_string();
    bad.evidence_version = String::new();
    assert_eq!(validate_input(&bad), Err("evidence_version must not be empty".to_string()));
    bad.evidence_version = "e".to_string();
    bad.shown_at_unix_ms = 6_000;
    assert_eq!(
        validate_input(&bad),
        Err("review timestamps are invalid or out of order".to_string())
    );
    bad.shown_at_unix_ms = 0;
    bad.latency_ms = 86_400_001;
    assert_eq!(validate_input(&bad), Err("latency exceeds 24 hours".to_string()));
    bad.latency_ms = 1;
    bad.response_uci = Some(String::new());
    assert_eq!(
        validate_input(&bad),
        Err("response_uci is empty, too long, or contains a control character".to_string())
    );
    bad.response_uci = None;
    assert_eq!(validate_input(&bad), Ok(()));
}
