//! Review scheduling of the trainer: the fixed 2-4-7 interval ladder, the
//! projection of review events onto per-card state, input validation, and
//! the latency median of the progress report.
use crate::cards::{CardFeedback, opt_text};
use crate::text::{chars_of, is_whitespace, is_ws};
use vstd::prelude::*;
use vstd::relations::{sorted_by, total_ordering};
use vstd::seq_lib::lemma_sorted_unique;
use vstd::utf8::encode_utf8;

verus! {

pub const EVENT_SCHEMA: &'static str = "chess-trainer-review-event";

pub const EVENT_SCHEMA_VERSION: u32 = 1;

pub const SCHEDULER_VERSION: &'static str = "fixed-2-4-7-v1";

pub const SECOND_MS: i64 = 1_000;

pub const MINUTE_MS: i64 = 60_000;

pub const DAY_MS: i64 = 86_400_000;

pub const MISS_INTERVAL_MS: i64 = 600_000;

pub const PARTIAL_INTERVAL_MS: i64 = 86_400_000;

/// Number of rungs of the pass ladder.
pub const PASS_RUNGS: usize = 6;

pub const MATURE_INTERVAL_MS: i64 = 2_592_000_000;

pub const MAX_EVENT_ID_BYTES: usize = 128;

pub const MAX_RESPONSE_BYTES: usize = 32;

pub const MAX_LATENCY_MS: u64 = 86_400_000;

/// Days until the next review after a pass on rung `i`: 2, 4, 7, 14, 30, 60.
pub open spec fn pass_days_spec(i: int) -> i64 {
    if i == 0 {
        2
    } else if i == 1 {
        4
    } else if i == 2 {
        7
    } else if i == 3 {
        14
    } else if i == 4 {
        30
    } else {
        60
    }
}

/// Days until the next review after a pass on rung `i < 6`.
pub fn pass_interval_days(i: usize) -> (r: i64)
    requires
        i < PASS_RUNGS,
    ensures
        r == pass_days_spec(i as int),
{
    if i == 0 {
        2
    } else if i == 1 {
        4
    } else if i == 2 {
        7
    } else if i == 3 {
        14
    } else if i == 4 {
        30
    } else {
        60
    }
}

/// One semantic version of a card.
#[derive(Clone, Debug, PartialEq, Eq, PartialOrd, Ord, Hash)]
pub struct ReviewKey {
    pub card_id: String,
    pub content_version: String,
}

#[derive(Clone, Copy, Debug, PartialEq, Eq, Structural)]
pub enum ReviewGrade {
    Pass,
    Partial,
    Miss,
}

/// The observation supplied by the trusted local HTTP handler.  The handler,
/// rather than the browser, supplies `reviewed_at_unix_ms`.
#[derive(Clone, Debug, PartialEq, Eq)]
pub struct ReviewInput {
    pub event_id: String,
    pub key: ReviewKey,
    pub evidence_version: String,
    pub shown_at_unix_ms: i64,
    pub reviewed_at_unix_ms: i64,
    pub grade: ReviewGrade,
    pub hint_used: bool,
    pub response_uci: Option<String>,
    pub reference_match: Option<bool>,
    pub latency_ms: u64,
}

/// One immutable persisted observation plus the scheduler decision it caused.
#[derive(Clone, Debug, PartialEq, Eq)]
pub struct ReviewEvent {
    pub schema: String,
    pub schema_version: u32,
    pub scheduler_version: String,
    pub sequence: u64,
    pub event_id: String,
    pub card_id: String,
    pub content_version: String,
    pub evidence_version: String,
    pub shown_at_unix_ms: i64,
    pub reviewed_at_unix_ms: i64,
    pub submitted_grade: ReviewGrade,
    pub applied_grade: ReviewGrade,
    pub hint_used: bool,
    pub response_uci: Option<String>,
    pub reference_match: Option<bool>,
    pub latency_ms: u64,
    pub prior_due_at_unix_ms: Option<i64>,
    pub prior_interval_ms: i64,
    pub was_due: bool,
    pub delayed_eligible: bool,
    pub next_due_at_unix_ms: i64,
    pub next_interval_ms: i64,
    pub next_success_rung: usize,
    pub next_lapses: u64,
}

/// A recorded review, and whether this call appended it (false when an
/// identical review was already durable).
#[derive(Clone, Debug, PartialEq, Eq)]
pub struct RecordReceipt {
    pub event: ReviewEvent,
    pub inserted: bool,
}

/// A recorded answer release, and whether this call appended it.
#[derive(Clone, Debug, PartialEq, Eq)]
pub struct RevealReceipt {
    pub event: RevealEvent,
    pub inserted: bool,
}

/// Current projection for one semantic card version.
#[derive(Clone, Debug, PartialEq, Eq)]
pub struct ReviewState {
    pub attempts: u64,
    pub passes: u64,
    pub partials: u64,
    pub misses: u64,
    pub hints: u64,
    pub lapses: u64,
    pub reference_matches: u64,
    pub delayed_attempts: u64,
    pub delayed_passes: u64,
    pub success_rung: usize,
    pub interval_ms: i64,
    pub due_at_unix_ms: i64,
    pub last_reviewed_at_unix_ms: i64,
    pub last_grade: ReviewGrade,
    pub last_evidence_version: String,
    pub last_event_sequence: u64,
}

/// The review state of each card version, in order of first review.
pub struct ReviewStates {
    pub entries: Vec<(ReviewKey, ReviewState)>,
}

/// The first entry whose key names `card`/`content`.
pub open spec fn find_state(
    entries: Seq<(ReviewKey, ReviewState)>,
    card: Seq<char>,
    content: Seq<char>,
    k: int,
) -> Option<int>
    decreases entries.len() - k,
{
    if k < 0 || k >= entries.len() {
        None
    } else if entries[k].0.card_id@ == card && entries[k].0.content_version@ == content {
        Some(k)
    } else {
        find_state(entries, card, content, k + 1)
    }
}

/// The state recorded for a card version, if any.
pub open spec fn prior_state(
    entries: Seq<(ReviewKey, ReviewState)>,
    card: Seq<char>,
    content: Seq<char>,
) -> Option<ReviewState> {
    match find_state(entries, card, content, 0) {
        Some(i) => Some(entries[i].1),
        None => None,
    }
}

/// `a + b` held at `i64::MAX`.
pub open spec fn sat_add_i64(a: int, b: int) -> int {
    if a + b > i64::MAX {
        i64::MAX as int
    } else {
        a + b
    }
}

/// The scheduler's decision for an input, given the card's prior state:
/// `(applied grade, next interval, next rung, next lapses, was due,
/// delayed eligible)`.
pub open spec fn schedule(prior: Option<ReviewState>, input: ReviewInput) -> (
    ReviewGrade,
    int,
    int,
    int,
    bool,
    bool,
) {
    let prior_interval: int = match prior {
        Some(s) => s.interval_ms as int,
        None => 0,
    };
    let rung: int = match prior {
        Some(s) => s.success_rung as int,
        None => 0,
    };
    let lapses: int = match prior {
        Some(s) => s.lapses as int,
        None => 0,
    };
    let was_due = match prior {
        Some(s) => input.reviewed_at_unix_ms >= s.due_at_unix_ms,
        None => true,
    };
    let applied = if input.hint_used {
        ReviewGrade::Miss
    } else {
        input.grade
    };
    let (interval, next_rung, next_lapses) = match applied {
        ReviewGrade::Pass => (
            pass_days_spec(if rung < 5 {
                rung
            } else {
                5
            }) * DAY_MS,
            if rung + 1 < 6 {
                rung + 1
            } else {
                6
            },
            lapses,
        ),
        ReviewGrade::Partial => (PARTIAL_INTERVAL_MS as int, 0, lapses),
        ReviewGrade::Miss => (
            MISS_INTERVAL_MS as int,
            0,
            if lapses + 1 > u64::MAX {
                u64::MAX as int
            } else {
                lapses + 1
            },
        ),
    };
    (applied, interval, next_rung, next_lapses, was_due, prior_interval >= DAY_MS && was_due)
}

impl ReviewStates {
    /// No card reviewed yet.
    pub fn new() -> (r: ReviewStates)
        ensures
            r.entries@ == Seq::<(ReviewKey, ReviewState)>::empty(),
    {
        ReviewStates { entries: Vec::new() }
    }

    /// The index of the state of a card version.
    fn position(&self, card: &String, content: &String) -> (r: Option<usize>)
        ensures
            match r {
                Some(i) => find_state(self.entries@, card@, content@, 0) == Some(i as int),
                None => find_state(self.entries@, card@, content@, 0) is None,
            },
            r matches Some(i) ==> i < self.entries@.len(),
    {
        let mut i: usize = 0;
        while i < self.entries.len()
            invariant
                i <= self.entries@.len(),
                find_state(self.entries@, card@, content@, 0) == find_state(
                    self.entries@,
                    card@,
                    content@,
                    i as int,
                ),
            decreases self.entries@.len() - i,
        {
            if self.entries[i].0.card_id == *card && self.entries[i].0.content_version == *content {
                return Some(i);
            }
            i += 1;
        }
        None
    }

    /// The state of a card version, if it has been reviewed.
    pub fn get(&self, key: &ReviewKey) -> (r: Option<&ReviewState>)
        ensures
            match r {
                Some(s) => prior_state(self.entries@, key.card_id@, key.content_version@) == Some(
                    *s,
                ),
                None => prior_state(self.entries@, key.card_id@, key.content_version@) is None,
            },
    {
        match self.position(&key.card_id, &key.content_version) {
            Some(i) => Some(&self.entries[i].1),
            None => None,
        }
    }
}

/// The event an input gives rise to, given the recorded states.
pub open spec fn derived_from(e: ReviewEvent, sequence: u64, prior: Option<ReviewState>, input: ReviewInput) -> bool {
    let (applied, interval, rung, lapses, was_due, delayed) = schedule(prior, input);
    &&& e.schema@ == EVENT_SCHEMA@
    &&& e.schema_version == EVENT_SCHEMA_VERSION
    &&& e.scheduler_version@ == SCHEDULER_VERSION@
    &&& e.sequence == sequence
    &&& e.event_id == input.event_id
    &&& e.card_id == input.key.card_id
    &&& e.content_version == input.key.content_version
    &&& e.evidence_version == input.evidence_version
    &&& e.shown_at_unix_ms == input.shown_at_unix_ms
    &&& e.reviewed_at_unix_ms == input.reviewed_at_unix_ms
    &&& e.submitted_grade == input.grade
    &&& e.applied_grade == applied
    &&& e.hint_used == input.hint_used
    &&& e.response_uci == input.response_uci
    &&& e.reference_match == input.reference_match
    &&& e.latency_ms == input.latency_ms
    &&& e.prior_due_at_unix_ms == match prior {
        Some(p) => Some(p.due_at_unix_ms),
        None => None,
    }
    &&& e.prior_interval_ms == match prior {
        Some(p) => p.interval_ms,
        None => 0,
    }
    &&& e.was_due == was_due
    &&& e.delayed_eligible == delayed
    &&& e.next_interval_ms == interval
    &&& e.next_due_at_unix_ms == sat_add_i64(input.reviewed_at_unix_ms as int, interval)
    &&& e.next_success_rung == rung
    &&& e.next_lapses == lapses
}

/// The scheduler decision for an input: the fixed 2-4-7 ladder for passes, a
/// day after a partial, ten minutes after a miss (a used hint counts as a
/// miss).
pub fn derive_event(sequence: u64, states: &ReviewStates, input: ReviewInput) -> (r: ReviewEvent)
    requires
        prior_state(states.entries@, input.key.card_id@, input.key.content_version@) matches Some(
            p,
        ) ==> p.success_rung < usize::MAX,
    ensures
        derived_from(
            r,
            sequence,
            prior_state(states.entries@, input.key.card_id@, input.key.content_version@),
            input,
        ),
{
    let prior = states.get(&input.key);
    let prior_due_at_unix_ms: Option<i64> = match prior {
        Some(st) => Some(st.due_at_unix_ms),
        None => None,
    };
    let prior_interval_ms: i64 = match prior {
        Some(st) => st.interval_ms,
        None => 0,
    };
    let prior_rung: usize = match prior {
        Some(st) => st.success_rung,
        None => 0,
    };
    let prior_lapses: u64 = match prior {
        Some(st) => st.lapses,
        None => 0,
    };
    let was_due = match prior_due_at_unix_ms {
        Some(due) => input.reviewed_at_unix_ms >= due,
        None => true,
    };
    let delayed_eligible = prior_interval_ms >= DAY_MS && was_due;
    let applied_grade = if input.hint_used {
        ReviewGrade::Miss
    } else {
        input.grade
    };
    let (next_interval_ms, next_success_rung, next_lapses): (i64, usize, u64) = match applied_grade {
        ReviewGrade::Pass => {
            let interval_index = if prior_rung < PASS_RUNGS - 1 {
                prior_rung
            } else {
                PASS_RUNGS - 1
            };
            let next_rung = if prior_rung + 1 < PASS_RUNGS {
                prior_rung + 1
            } else {
                PASS_RUNGS
            };
            (pass_interval_days(interval_index) * DAY_MS, next_rung, prior_lapses)
        },
        ReviewGrade::Partial => (PARTIAL_INTERVAL_MS, 0, prior_lapses),
        ReviewGrade::Miss => (
            MISS_INTERVAL_MS,
            0,
            if prior_lapses == u64::MAX {
                u64::MAX
            } else {
                prior_lapses + 1
            },
        ),
    };
    let next_due_at_unix_ms = if input.reviewed_at_unix_ms > i64::MAX - next_interval_ms {
        i64::MAX
    } else {
        input.reviewed_at_unix_ms + next_interval_ms
    };
    ReviewEvent {
        schema: EVENT_SCHEMA.to_owned(),
        schema_version: EVENT_SCHEMA_VERSION,
        scheduler_version: SCHEDULER_VERSION.to_owned(),
        sequence,
        event_id: input.event_id,
        card_id: input.key.card_id,
        content_version: input.key.content_version,
        evidence_version: input.evidence_version,
        shown_at_unix_ms: input.shown_at_unix_ms,
        reviewed_at_unix_ms: input.reviewed_at_unix_ms,
        submitted_grade: input.grade,
        applied_grade,
        hint_used: input.hint_used,
        response_uci: input.response_uci,
        reference_match: input.reference_match,
        latency_ms: input.latency_ms,
        prior_due_at_unix_ms,
        prior_interval_ms,
        was_due,
        delayed_eligible,
        next_due_at_unix_ms,
        next_interval_ms,
        next_success_rung,
        next_lapses,
    }
}

/// The state a card has after `e`, from its prior state `st` (a fresh one
/// when it had none).
pub open spec fn applied_state(st: ReviewState, e: ReviewEvent) -> ReviewState {
    ReviewState {
        attempts: (st.attempts + 1) as u64,
        passes: if e.applied_grade == ReviewGrade::Pass {
            (st.passes + 1) as u64
        } else {
            st.passes
        },
        partials: if e.applied_grade == ReviewGrade::Partial {
            (st.partials + 1) as u64
        } else {
            st.partials
        },
        misses: if e.applied_grade == ReviewGrade::Miss {
            (st.misses + 1) as u64
        } else {
            st.misses
        },
        hints: if e.hint_used {
            (st.hints + 1) as u64
        } else {
            st.hints
        },
        lapses: e.next_lapses,
        reference_matches: if e.reference_match == Some(true) {
            (st.reference_matches + 1) as u64
        } else {
            st.reference_matches
        },
        delayed_attempts: if e.delayed_eligible {
            (st.delayed_attempts + 1) as u64
        } else {
            st.delayed_attempts
        },
        delayed_passes: if e.delayed_eligible && e.applied_grade == ReviewGrade::Pass {
            (st.delayed_passes + 1) as u64
        } else {
            st.delayed_passes
        },
        success_rung: e.next_success_rung,
        interval_ms: e.next_interval_ms,
        due_at_unix_ms: e.next_due_at_unix_ms,
        last_reviewed_at_unix_ms: e.reviewed_at_unix_ms,
        last_grade: e.applied_grade,
        last_evidence_version: e.evidence_version,
        last_event_sequence: e.sequence,
    }
}

/// The state of a card before its first event.
pub open spec fn fresh_state(e: ReviewEvent) -> ReviewState {
    ReviewState {
        attempts: 0,
        passes: 0,
        partials: 0,
        misses: 0,
        hints: 0,
        lapses: 0,
        reference_matches: 0,
        delayed_attempts: 0,
        delayed_passes: 0,
        success_rung: 0,
        interval_ms: 0,
        due_at_unix_ms: e.reviewed_at_unix_ms,
        last_reviewed_at_unix_ms: e.reviewed_at_unix_ms,
        last_grade: e.applied_grade,
        last_evidence_version: e.evidence_version,
        last_event_sequence: e.sequence,
    }
}

/// No counter of `st` is at its maximum.
pub open spec fn counters_room(st: ReviewState) -> bool {
    &&& st.attempts < u64::MAX
    &&& st.passes < u64::MAX
    &&& st.partials < u64::MAX
    &&& st.misses < u64::MAX
    &&& st.hints < u64::MAX
    &&& st.reference_matches < u64::MAX
    &&& st.delayed_attempts < u64::MAX
    &&& st.delayed_passes < u64::MAX
}

/// A copy of a state.
fn copy_state(s: &ReviewState) -> (r: ReviewState)
    ensures
        r == *s,
{
    ReviewState {
        attempts: s.attempts,
        passes: s.passes,
        partials: s.partials,
        misses: s.misses,
        hints: s.hints,
        lapses: s.lapses,
        reference_matches: s.reference_matches,
        delayed_attempts: s.delayed_attempts,
        delayed_passes: s.delayed_passes,
        success_rung: s.success_rung,
        interval_ms: s.interval_ms,
        due_at_unix_ms: s.due_at_unix_ms,
        last_reviewed_at_unix_ms: s.last_reviewed_at_unix_ms,
        last_grade: s.last_grade,
        last_evidence_version: s.last_evidence_version.clone(),
        last_event_sequence: s.last_event_sequence,
    }
}

/// Fold one event into the state of its card version.
pub fn apply_event(states: &mut ReviewStates, event: &ReviewEvent)
    requires
        prior_state(old(states).entries@, event.card_id@, event.content_version@) matches Some(p)
            ==> counters_room(p),
    ensures
        match find_state(old(states).entries@, event.card_id@, event.content_version@, 0) {
            Some(i) => final(states).entries@ == old(states).entries@.update(
                i,
                (old(states).entries@[i].0, applied_state(old(states).entries@[i].1, *event)),
            ),
            None => final(states).entries@.len() == old(states).entries@.len() + 1
                && final(states).entries@.drop_last() == old(states).entries@
                && final(states).entries@.last().0.card_id@ == event.card_id@
                && final(states).entries@.last().0.content_version@ == event.content_version@
                && final(states).entries@.last().1 == applied_state(fresh_state(*event), *event),
        },
{
    let st0: ReviewState;
    let idx = states.position(&event.card_id, &event.content_version);
    match idx {
        Some(i) => {
            st0 = copy_state(&states.entries[i].1);
        },
        None => {
            st0 = ReviewState {
                attempts: 0,
                passes: 0,
                partials: 0,
                misses: 0,
                hints: 0,
                lapses: 0,
                reference_matches: 0,
                delayed_attempts: 0,
                delayed_passes: 0,
                success_rung: 0,
                interval_ms: 0,
                due_at_unix_ms: event.reviewed_at_unix_ms,
                last_reviewed_at_unix_ms: event.reviewed_at_unix_ms,
                last_grade: event.applied_grade,
                last_evidence_version: event.evidence_version.clone(),
                last_event_sequence: event.sequence,
            };
        },
    }
    let mut st = st0;
    st.attempts = st.attempts + 1;
    match event.applied_grade {
        ReviewGrade::Pass => st.passes = st.passes + 1,
        ReviewGrade::Partial => st.partials = st.partials + 1,
        ReviewGrade::Miss => st.misses = st.misses + 1,
    }
    if event.hint_used {
        st.hints = st.hints + 1;
    }
    if event.reference_match == Some(true) {
        st.reference_matches = st.reference_matches + 1;
    }
    if event.delayed_eligible {
        st.delayed_attempts = st.delayed_attempts + 1;
        if event.applied_grade == ReviewGrade::Pass {
            st.delayed_passes = st.delayed_passes + 1;
        }
    }
    st.lapses = event.next_lapses;
    st.success_rung = event.next_success_rung;
    st.interval_ms = event.next_interval_ms;
    st.due_at_unix_ms = event.next_due_at_unix_ms;
    st.last_reviewed_at_unix_ms = event.reviewed_at_unix_ms;
    st.last_grade = event.applied_grade;
    st.last_evidence_version = event.evidence_version.clone();
    st.last_event_sequence = event.sequence;
    match idx {
        Some(i) => {
            let key = ReviewKey {
                card_id: states.entries[i].0.card_id.clone(),
                content_version: states.entries[i].0.content_version.clone(),
            };
            states.entries.set(i, (key, st));
        },
        None => {
            let key = ReviewKey {
                card_id: event.card_id.clone(),
                content_version: event.content_version.clone(),
            };
            states.entries.push((key, st));
        },
    }
}

/// The general category `Cc`, the set `char::is_control` tests.
pub open spec fn is_control(c: char) -> bool {
    (c as u32) <= 0x1f || (0x7f <= (c as u32) && (c as u32) <= 0x9f)
}

/// Whether `c` is a control character.
fn control_char(c: char) -> (r: bool)
    ensures
        r == is_control(c),
{
    let u = c as u32;
    u <= 0x1f || (0x7f <= u && u <= 0x9f)
}

/// Some character of `cs` is a control character.
pub open spec fn has_control(cs: Seq<char>) -> bool {
    exists|i: int| 0 <= i < cs.len() && is_control(#[trigger] cs[i])
}

/// Every character of `cs` is whitespace (`cs.trim()` is empty).
pub open spec fn blank(cs: Seq<char>) -> bool {
    forall|i: int| 0 <= i < cs.len() ==> is_ws(#[trigger] cs[i])
}

/// Whether `s` holds a control character.
fn any_control(s: &str) -> (r: bool)
    ensures
        r == has_control(s@),
{
    let cs = chars_of(s);
    let mut i: usize = 0;
    while i < cs.len()
        invariant
            i <= cs@.len(),
            cs@ == s@,
            forall|j: int| 0 <= j < i ==> !is_control(#[trigger] cs@[j]),
        decreases cs.len() - i,
    {
        if control_char(cs[i]) {
            return true;
        }
        i += 1;
    }
    false
}

/// Whether `s` is empty once trimmed.
fn is_blank(s: &str) -> (r: bool)
    ensures
        r == blank(s@),
{
    let cs = chars_of(s);
    let mut i: usize = 0;
    while i < cs.len()
        invariant
            i <= cs@.len(),
            cs@ == s@,
            forall|j: int| 0 <= j < i ==> is_ws(#[trigger] cs@[j]),
        decreases cs.len() - i,
    {
        if !is_whitespace(cs[i]) {
            return false;
        }
        i += 1;
    }
    true
}

/// An identifier or response of at most `max` UTF-8 bytes, not empty, with
/// no control character.
pub open spec fn token_ok(cs: Seq<char>, max: int) -> bool {
    cs.len() > 0 && encode_utf8(cs).len() <= max && !has_control(cs)
}

/// The complaint `validate_input` makes of an input, if any, in the order
/// the checks are made.
pub open spec fn input_fault(input: ReviewInput) -> Option<Seq<char>> {
    if !token_ok(input.event_id@, MAX_EVENT_ID_BYTES as int) {
        Some("event_id is empty, too long, or contains a control character"@)
    } else if blank(input.key.card_id@) || blank(input.key.content_version@) {
        Some("card identity must not be empty"@)
    } else if blank(input.evidence_version@) {
        Some("evidence_version must not be empty"@)
    } else if input.shown_at_unix_ms < 0 || input.reviewed_at_unix_ms < input.shown_at_unix_ms {
        Some("review timestamps are invalid or out of order"@)
    } else if input.latency_ms > MAX_LATENCY_MS {
        Some("latency exceeds 24 hours"@)
    } else if input.response_uci matches Some(r) && !token_ok(r@, MAX_RESPONSE_BYTES as int) {
        Some("response_uci is empty, too long, or contains a control character"@)
    } else {
        None
    }
}

/// Whether `s` is a non-empty token of at most `max` bytes without control
/// characters.
fn token_valid(s: &String, max: usize) -> (r: bool)
    ensures
        r == token_ok(s@, max as int),
{
    let t = s.as_str();
    !t.is_empty() && t.as_bytes().len() <= max && !any_control(t)
}

/// Check an input before it is recorded: `Ok` exactly when no rule is
/// broken, else the first rule's complaint.
pub fn validate_input(input: &ReviewInput) -> (r: Result<(), String>)
    ensures
        match input_fault(*input) {
            None => r is Ok,
            Some(m) => r matches Err(e) && e@ == m,
        },
{
    if !token_valid(&input.event_id, MAX_EVENT_ID_BYTES) {
        return Err("event_id is empty, too long, or contains a control character".to_string());
    }
    if is_blank(input.key.card_id.as_str()) || is_blank(input.key.content_version.as_str()) {
        return Err("card identity must not be empty".to_string());
    }
    if is_blank(input.evidence_version.as_str()) {
        return Err("evidence_version must not be empty".to_string());
    }
    if input.shown_at_unix_ms < 0 || input.reviewed_at_unix_ms < input.shown_at_unix_ms {
        return Err("review timestamps are invalid or out of order".to_string());
    }
    if input.latency_ms > MAX_LATENCY_MS {
        return Err("latency exceeds 24 hours".to_string());
    }
    match &input.response_uci {
        Some(response) => {
            if !token_valid(response, MAX_RESPONSE_BYTES) {
                return Err(
                    "response_uci is empty, too long, or contains a control character".to_string(),
                );
            }
        },
        None => {},
    }
    Ok(())
}

/// Ascending order on latencies.
pub open spec fn ascending() -> spec_fn(u64, u64) -> bool {
    |a: u64, b: u64| a <= b
}

/// The median of a sample: the middle of the sorted values, or the mean of
/// the two middle ones (their sum held at `u64::MAX`) for an even count;
/// `None` for no values.
pub open spec fn median_spec(v: Seq<u64>) -> Option<u64> {
    if v.len() == 0 {
        None
    } else {
        let s = v.sort_by(ascending());
        let m = v.len() / 2;
        if v.len() % 2 == 1 {
            Some(s[m as int])
        } else {
            let sum = s[m - 1] + s[m as int];
            Some(((if sum > u64::MAX { u64::MAX as int } else { sum }) / 2) as u64)
        }
    }
}

/// `slice::sort_unstable` on a vector of `u64`: the same values, in
/// ascending order.
#[verifier::external_body]
fn sort_unstable(v: &mut Vec<u64>)
    ensures
        final(v)@.to_multiset() == old(v)@.to_multiset(),
        sorted_by(final(v)@, ascending()),
{
    v.sort_unstable();
}

/// The median latency of a set of samples.
pub fn median_latency(values: Vec<u64>) -> (r: Option<u64>)
    ensures
        r == median_spec(values@),
{
    if values.len() == 0 {
        return None;
    }
    let mut values = values;
    let ghost before = values@;
    sort_unstable(&mut values);
    proof {
        assert(total_ordering(ascending()));
        before.lemma_sort_by_ensures(ascending());
        lemma_sorted_unique(values@, before.sort_by(ascending()), ascending());
        broadcast use vstd::seq_lib::group_to_multiset_ensures;

        assert(values@.len() == before.len()) by {
            assert(values@.to_multiset().len() == before.to_multiset().len());
        }
    }
    let middle = values.len() / 2;
    if values.len() % 2 == 1 {
        Some(values[middle])
    } else {
        Some(values[middle - 1].saturating_add(values[middle]) / 2)
    }
}

// --- progress summary ---

/// Aggregate over the active deck. "Mature" means only that the current
/// interval is at least 30 days; it is deliberately not called mastery.
#[derive(Clone, Debug, PartialEq, Eq)]
pub struct ReviewSummary {
    pub active_cards: usize,
    pub new_cards: usize,
    pub reviewed_cards: usize,
    pub due_cards: usize,
    pub mature_cards: usize,
    pub attempts: u64,
    pub hints: u64,
    pub lapses: u64,
    pub reference_matches: u64,
    pub delayed_attempts: u64,
    pub delayed_passes: u64,
    pub next_due_at_unix_ms: Option<i64>,
}

/// The content of a [`ReviewSummary`], in unbounded numbers.
pub struct SummaryView {
    pub active_cards: int,
    pub new_cards: int,
    pub reviewed_cards: int,
    pub due_cards: int,
    pub mature_cards: int,
    pub attempts: int,
    pub hints: int,
    pub lapses: int,
    pub reference_matches: int,
    pub delayed_attempts: int,
    pub delayed_passes: int,
    pub next_due_at_unix_ms: Option<int>,
}

impl View for ReviewSummary {
    type V = SummaryView;

    open spec fn view(&self) -> SummaryView {
        SummaryView {
            active_cards: self.active_cards as int,
            new_cards: self.new_cards as int,
            reviewed_cards: self.reviewed_cards as int,
            due_cards: self.due_cards as int,
            mature_cards: self.mature_cards as int,
            attempts: self.attempts as int,
            hints: self.hints as int,
            lapses: self.lapses as int,
            reference_matches: self.reference_matches as int,
            delayed_attempts: self.delayed_attempts as int,
            delayed_passes: self.delayed_passes as int,
            next_due_at_unix_ms: match self.next_due_at_unix_ms {
                Some(d) => Some(d as int),
                None => None,
            },
        }
    }
}

/// The key's texts.
pub open spec fn key_texts(k: ReviewKey) -> (Seq<char>, Seq<char>) {
    (k.card_id@, k.content_version@)
}

/// The distinct keys of `ks` by their texts, in order of first occurrence.
pub open spec fn distinct_keys(ks: Seq<ReviewKey>) -> Seq<(Seq<char>, Seq<char>)>
    decreases ks.len(),
{
    if ks.len() == 0 {
        Seq::empty()
    } else {
        let d = distinct_keys(ks.drop_last());
        if d.contains(key_texts(ks.last())) {
            d
        } else {
            d.push(key_texts(ks.last()))
        }
    }
}

/// The empty summary.
pub open spec fn no_summary() -> SummaryView {
    SummaryView {
        active_cards: 0,
        new_cards: 0,
        reviewed_cards: 0,
        due_cards: 0,
        mature_cards: 0,
        attempts: 0,
        hints: 0,
        lapses: 0,
        reference_matches: 0,
        delayed_attempts: 0,
        delayed_passes: 0,
        next_due_at_unix_ms: None,
    }
}

/// Adding one active card to a summary: a new card counts as new and due;
/// a reviewed one adds its counters, counts as mature at an interval of 30
/// days or more, and as due when its due time has come, else its due time
/// competes for the earliest upcoming one.
pub open spec fn add_card(s: SummaryView, st: Option<ReviewState>, now: int) -> SummaryView {
    match st {
        None => SummaryView {
            active_cards: s.active_cards + 1,
            new_cards: s.new_cards + 1,
            due_cards: s.due_cards + 1,
            ..s
        },
        Some(t) => SummaryView {
            active_cards: s.active_cards + 1,
            reviewed_cards: s.reviewed_cards + 1,
            attempts: s.attempts + t.attempts,
            hints: s.hints + t.hints,
            lapses: s.lapses + t.lapses,
            reference_matches: s.reference_matches + t.reference_matches,
            delayed_attempts: s.delayed_attempts + t.delayed_attempts,
            delayed_passes: s.delayed_passes + t.delayed_passes,
            mature_cards: s.mature_cards + if t.interval_ms >= MATURE_INTERVAL_MS {
                1int
            } else {
                0
            },
            due_cards: s.due_cards + if t.due_at_unix_ms <= now {
                1int
            } else {
                0
            },
            next_due_at_unix_ms: if t.due_at_unix_ms <= now {
                s.next_due_at_unix_ms
            } else {
                match s.next_due_at_unix_ms {
                    Some(d) => Some(if t.due_at_unix_ms < d {
                        t.due_at_unix_ms as int
                    } else {
                        d
                    }),
                    None => Some(t.due_at_unix_ms as int),
                }
            },
            ..s
        },
    }
}

/// The state recorded for a key given by its texts.
pub open spec fn state_of(entries: Seq<(ReviewKey, ReviewState)>, k: (Seq<char>, Seq<char>)) -> Option<
    ReviewState,
> {
    prior_state(entries, k.0, k.1)
}

/// The summary over the distinct keys `ks`.
pub open spec fn summary_over(
    entries: Seq<(ReviewKey, ReviewState)>,
    ks: Seq<(Seq<char>, Seq<char>)>,
    now: int,
) -> SummaryView
    decreases ks.len(),
{
    if ks.len() == 0 {
        no_summary()
    } else {
        add_card(summary_over(entries, ks.drop_last(), now), state_of(entries, ks.last()), now)
    }
}

/// The summary of the active keys (each counted once) at time `now`.
pub open spec fn summary_spec(entries: Seq<(ReviewKey, ReviewState)>, ks: Seq<ReviewKey>, now: int) -> SummaryView {
    summary_over(entries, distinct_keys(ks), now)
}

/// The summary's counts grow with each card.
proof fn lemma_summary_grows(
    entries: Seq<(ReviewKey, ReviewState)>,
    ks: Seq<(Seq<char>, Seq<char>)>,
    k: int,
    now: int,
)
    requires
        0 <= k <= ks.len(),
    ensures
        ({
            let a = summary_over(entries, ks.take(k), now);
            let b = summary_over(entries, ks, now);
            &&& 0 <= a.active_cards <= b.active_cards
            &&& 0 <= a.new_cards <= b.new_cards
            &&& 0 <= a.reviewed_cards <= b.reviewed_cards
            &&& 0 <= a.due_cards <= b.due_cards
            &&& 0 <= a.mature_cards <= b.mature_cards
            &&& 0 <= a.attempts <= b.attempts
            &&& 0 <= a.hints <= b.hints
            &&& 0 <= a.lapses <= b.lapses
            &&& 0 <= a.reference_matches <= b.reference_matches
            &&& 0 <= a.delayed_attempts <= b.delayed_attempts
            &&& 0 <= a.delayed_passes <= b.delayed_passes
        }),
    decreases ks.len(),
{
    if k == ks.len() {
        assert(ks.take(k) =~= ks);
        lemma_summary_nonneg(entries, ks, now);
    } else {
        assert(ks.drop_last().take(k) =~= ks.take(k));
        lemma_summary_grows(entries, ks.drop_last(), k, now);
    }
}

/// The summary's counts are not negative.
proof fn lemma_summary_nonneg(entries: Seq<(ReviewKey, ReviewState)>, ks: Seq<(Seq<char>, Seq<char>)>, now: int)
    ensures
        ({
            let a = summary_over(entries, ks, now);
            &&& 0 <= a.active_cards && 0 <= a.new_cards && 0 <= a.reviewed_cards
            &&& 0 <= a.due_cards && 0 <= a.mature_cards && 0 <= a.attempts && 0 <= a.hints
            &&& 0 <= a.lapses && 0 <= a.reference_matches && 0 <= a.delayed_attempts
            &&& 0 <= a.delayed_passes
            &&& a.active_cards == ks.len()
            &&& a.new_cards <= a.active_cards && a.reviewed_cards <= a.active_cards
            &&& a.due_cards <= a.active_cards && a.mature_cards <= a.active_cards
        }),
    decreases ks.len(),
{
    if ks.len() > 0 {
        lemma_summary_nonneg(entries, ks.drop_last(), now);
    }
}

/// The totals of the summary fit their types.
pub open spec fn summary_fits(entries: Seq<(ReviewKey, ReviewState)>, ks: Seq<ReviewKey>, now: int) -> bool {
    let s = summary_spec(entries, ks, now);
    &&& s.attempts <= u64::MAX
    &&& s.hints <= u64::MAX
    &&& s.lapses <= u64::MAX
    &&& s.reference_matches <= u64::MAX
    &&& s.delayed_attempts <= u64::MAX
    &&& s.delayed_passes <= u64::MAX
}

impl ReviewStates {
    /// The progress summary of the active deck at time `now_unix_ms`.
    pub fn summary(&self, active_keys: &[ReviewKey], now_unix_ms: i64) -> (r: ReviewSummary)
        requires
            summary_fits(self.entries@, active_keys@, now_unix_ms as int),
        ensures
            r@ == summary_spec(self.entries@, active_keys@, now_unix_ms as int),
    {
        match self.try_summary(active_keys, now_unix_ms) {
            Some(s) => s,
            None => {
                proof {
                    assert(false);
                }
                ReviewSummary {
                    active_cards: 0,
                    new_cards: 0,
                    reviewed_cards: 0,
                    due_cards: 0,
                    mature_cards: 0,
                    attempts: 0,
                    hints: 0,
                    lapses: 0,
                    reference_matches: 0,
                    delayed_attempts: 0,
                    delayed_passes: 0,
                    next_due_at_unix_ms: None,
                }
            },
        }
    }

    /// The progress summary, or `None` exactly when one of its totals does
    /// not fit a `u64`.
    pub fn try_summary(&self, active_keys: &[ReviewKey], now_unix_ms: i64) -> (r: Option<ReviewSummary>)
        ensures
            match r {
                Some(s) => summary_fits(self.entries@, active_keys@, now_unix_ms as int) && s@
                    == summary_spec(self.entries@, active_keys@, now_unix_ms as int),
                None => !summary_fits(self.entries@, active_keys@, now_unix_ms as int),
            },
    {
        let ghost ks = active_keys@;
        let ghost uk = distinct_keys(ks);
        let ghost entries = self.entries@;
        let mut seen: Vec<usize> = Vec::new();
        let mut summary = ReviewSummary {
            active_cards: 0,
            new_cards: 0,
            reviewed_cards: 0,
            due_cards: 0,
            mature_cards: 0,
            attempts: 0,
            hints: 0,
            lapses: 0,
            reference_matches: 0,
            delayed_attempts: 0,
            delayed_passes: 0,
            next_due_at_unix_ms: None,
        };
        let mut i: usize = 0;
        proof {
            assert(ks.take(0) =~= Seq::<ReviewKey>::empty());
        }
        while i < active_keys.len()
            invariant
                i <= ks.len(),
                ks == active_keys@,
                entries == self.entries@,
                uk == distinct_keys(ks),
                seen@.len() == distinct_keys(ks.take(i as int)).len(),
                seen@.len() <= i,
                forall|j: int| 0 <= j < seen@.len() ==> #[trigger] seen@[j] < i,
                forall|j: int|
                    0 <= j < seen@.len() ==> #[trigger] distinct_keys(ks.take(i as int))[j]
                        == key_texts(ks[seen@[j] as int]),
                summary@ == summary_over(entries, distinct_keys(ks.take(i as int)), now_unix_ms as int),
            decreases ks.len() - i,
        {
            let ghost d0 = distinct_keys(ks.take(i as int));
            proof {
                assert(ks.take(i + 1).drop_last() =~= ks.take(i as int));
                assert(ks.take(i + 1).last() == ks[i as int]);
            }
            let key = &active_keys[i];
            let mut dup = false;
            let mut j: usize = 0;
            proof {
                assert forall|t: int| 0 <= t < seen@.len() implies #[trigger] d0[t] == key_texts(
                    ks[seen@[t] as int],
                ) by {
                    assert(distinct_keys(ks.take(i as int))[t] == key_texts(ks[seen@[t] as int]));
                }
            }
            while j < seen.len()
                invariant
                    j <= seen@.len(),
                    ks == active_keys@,
                    seen@.len() == d0.len(),
                    forall|t: int| 0 <= t < seen@.len() ==> #[trigger] seen@[t] < i,
                    forall|t: int|
                        0 <= t < seen@.len() ==> #[trigger] d0[t] == key_texts(ks[seen@[t] as int]),
                    key == active_keys@[i as int],
                    i < ks.len(),
                    dup == exists|t: int| 0 <= t < j && d0[t] == key_texts(ks[i as int]),
                decreases seen@.len() - j,
            {
                let other = &active_keys[seen[j]];
                if crate::http::same_text(other.card_id.as_str(), key.card_id.as_str())
                    && crate::http::same_text(
                    other.content_version.as_str(),
                    key.content_version.as_str(),
                ) {
                    assert(d0[j as int] == key_texts(ks[i as int]));
                    dup = true;
                }
                j += 1;
            }
            proof {
                if d0.contains(key_texts(ks[i as int])) {
                    let t = choose|t: int| 0 <= t < d0.len() && d0[t] == key_texts(ks[i as int]);
                    assert(0 <= t < j && d0[t] == key_texts(ks[i as int]));
                }
            }
            if !dup {
                let ghost before = summary@;
                proof {
                    lemma_summary_nonneg(entries, d0, now_unix_ms as int);
                    assert(distinct_keys(ks.take(i + 1)) == d0.push(key_texts(ks[i as int])));
                    let dk = distinct_keys(ks.take(i + 1));
                    assert(dk.drop_last() =~= d0);
                    lemma_summary_grows(entries, uk, 0, now_unix_ms as int);
                    lemma_distinct_prefix(ks, i as int + 1);
                    lemma_summary_prefix(entries, uk, dk, now_unix_ms as int);
                }
                match self.get(key) {
                    None => {
                        summary.active_cards = summary.active_cards + 1;
                        summary.new_cards = summary.new_cards + 1;
                        summary.due_cards = summary.due_cards + 1;
                    },
                    Some(state) => {
                        if summary.attempts > u64::MAX - state.attempts || summary.hints > u64::MAX
                            - state.hints || summary.lapses > u64::MAX - state.lapses
                            || summary.reference_matches > u64::MAX - state.reference_matches
                            || summary.delayed_attempts > u64::MAX - state.delayed_attempts
                            || summary.delayed_passes > u64::MAX - state.delayed_passes {
                            proof {
                                let dk = distinct_keys(ks.take(i + 1));
                                lemma_summary_prefix(entries, uk, dk, now_unix_ms as int);
                            }
                            return None;
                        }
                        summary.active_cards = summary.active_cards + 1;
                        summary.reviewed_cards = summary.reviewed_cards + 1;
                        summary.attempts = summary.attempts + state.attempts;
                        summary.hints = summary.hints + state.hints;
                        summary.lapses = summary.lapses + state.lapses;
                        summary.reference_matches = summary.reference_matches + state.reference_matches;
                        summary.delayed_attempts = summary.delayed_attempts + state.delayed_attempts;
                        summary.delayed_passes = summary.delayed_passes + state.delayed_passes;
                        if state.interval_ms >= MATURE_INTERVAL_MS {
                            summary.mature_cards = summary.mature_cards + 1;
                        }
                        if state.due_at_unix_ms <= now_unix_ms {
                            summary.due_cards = summary.due_cards + 1;
                        } else {
                            summary.next_due_at_unix_ms = Some(
                                match summary.next_due_at_unix_ms {
                                    Some(due) => if state.due_at_unix_ms < due {
                                        state.due_at_unix_ms
                                    } else {
                                        due
                                    },
                                    None => state.due_at_unix_ms,
                                },
                            );
                        }
                    },
                }
                let ghost s0 = seen@;
                seen.push(i);
                proof {
                    let dk = distinct_keys(ks.take(i + 1));
                    assert(summary@ == summary_over(entries, dk, now_unix_ms as int));
                    assert forall|t: int| 0 <= t < seen@.len() implies #[trigger] dk[t] == key_texts(
                        ks[seen@[t] as int],
                    ) by {
                        if t < s0.len() {
                            assert(seen@[t] == s0[t]);
                            assert(d0[t] == key_texts(ks[s0[t] as int]));
                        }
                    }
                    assert forall|t: int| 0 <= t < seen@.len() implies #[trigger] seen@[t] < i + 1 by {
                        if t < s0.len() {
                            assert(seen@[t] == s0[t]);
                        }
                    }
                }
            } else {
                proof {
                    assert(distinct_keys(ks.take(i + 1)) == d0);
                    assert forall|t: int| 0 <= t < seen@.len() implies #[trigger] seen@[t] < i + 1 by {
                    }
                }
            }
            i += 1;
        }
        proof {
            assert(ks.take(ks.len() as int) =~= ks);
        }
        Some(summary)
    }
}

/// The distinct keys of a prefix are a prefix of the distinct keys.
proof fn lemma_distinct_prefix(ks: Seq<ReviewKey>, k: int)
    requires
        0 <= k <= ks.len(),
    ensures
        distinct_keys(ks.take(k)).len() <= distinct_keys(ks).len(),
        distinct_keys(ks).take(distinct_keys(ks.take(k)).len() as int) == distinct_keys(ks.take(k)),
    decreases ks.len(),
{
    if k == ks.len() {
        assert(ks.take(k) =~= ks);
        assert(distinct_keys(ks).take(distinct_keys(ks).len() as int) =~= distinct_keys(ks));
    } else {
        assert(ks.drop_last().take(k) =~= ks.take(k));
        lemma_distinct_prefix(ks.drop_last(), k);
        let d = distinct_keys(ks.drop_last());
        let p = distinct_keys(ks.take(k));
        assert(distinct_keys(ks).take(p.len() as int) =~= d.take(p.len() as int));
    }
}

/// The summary over a prefix of the distinct keys is bounded by the whole.
proof fn lemma_summary_prefix(
    entries: Seq<(ReviewKey, ReviewState)>,
    uk: Seq<(Seq<char>, Seq<char>)>,
    dk: Seq<(Seq<char>, Seq<char>)>,
    now: int,
)
    requires
        dk.len() <= uk.len(),
        uk.take(dk.len() as int) == dk,
    ensures
        ({
            let a = summary_over(entries, dk, now);
            let b = summary_over(entries, uk, now);
            &&& a.attempts <= b.attempts
            &&& a.hints <= b.hints
            &&& a.lapses <= b.lapses
            &&& a.reference_matches <= b.reference_matches
            &&& a.delayed_attempts <= b.delayed_attempts
            &&& a.delayed_passes <= b.delayed_passes
        }),
{
    lemma_summary_grows(entries, uk, dk.len() as int, now);
}

// --- answer releases ---

pub const REVEAL_SCHEMA: &'static str = "chess-trainer-reveal-event";

/// A server-timed answer release written durably before feedback is
/// returned.
#[derive(Clone, Debug, PartialEq, Eq)]
pub struct RevealInput {
    pub event_id: String,
    pub key: ReviewKey,
    pub evidence_version: String,
    pub shown_at_unix_ms: i64,
    pub revealed_at_unix_ms: i64,
    pub hint_used: bool,
    pub response_uci: Option<String>,
    pub reference_match: Option<bool>,
    pub latency_ms: u64,
    pub feedback: CardFeedback,
    pub assurance: String,
    pub confirmation_nodes_per_position: u64,
    pub analysis_config_version: String,
}

/// A persisted answer release.
#[derive(Clone, Debug, PartialEq, Eq)]
pub struct RevealEvent {
    pub schema: String,
    pub schema_version: u32,
    pub sequence: u64,
    pub event_id: String,
    pub card_id: String,
    pub content_version: String,
    pub evidence_version: String,
    pub shown_at_unix_ms: i64,
    pub revealed_at_unix_ms: i64,
    pub hint_used: bool,
    pub response_uci: Option<String>,
    pub reference_match: Option<bool>,
    pub latency_ms: u64,
    pub feedback: CardFeedback,
    pub assurance: String,
    pub confirmation_nodes_per_position: u64,
    pub analysis_config_version: String,
    pub prior_review_sequence: Option<u64>,
}

/// The complaint `validate_reveal_input` makes of an input, if any, in the
/// order the checks are made.
pub open spec fn reveal_fault(input: RevealInput) -> Option<Seq<char>> {
    let fb = input.feedback;
    if !token_ok(input.event_id@, MAX_EVENT_ID_BYTES as int) {
        Some("event_id is empty, too long, or contains a control character"@)
    } else if blank(input.key.card_id@) || blank(input.key.content_version@) {
        Some("card identity must not be empty"@)
    } else if blank(input.evidence_version@) {
        Some("evidence_version must not be empty"@)
    } else if input.shown_at_unix_ms < 0 || input.revealed_at_unix_ms < input.shown_at_unix_ms {
        Some("reveal timestamps are invalid or out of order"@)
    } else if input.latency_ms > MAX_LATENCY_MS {
        Some("latency exceeds 24 hours"@)
    } else if input.response_uci matches Some(r) && !token_ok(r@, MAX_RESPONSE_BYTES as int) {
        Some("response_uci is empty, too long, or contains a control character"@)
    } else if input.hint_used && (input.response_uci is Some || input.reference_match is Some) {
        Some("a give-up reveal must not claim a response or reference match"@)
    } else if input.hint_used && (fb.played_move is Some || fb.reference_match is Some) {
        Some("give-up feedback must not claim a played move or match"@)
    } else if !input.hint_used && (input.response_uci is None || input.reference_match is None) {
        Some("a committed reveal must record its response and reference match"@)
    } else if !input.hint_used && ((match fb.played_move {
        Some(c) => Some(c.uci@),
        None => None,
    }) != opt_text(input.response_uci) || fb.reference_match != input.reference_match) {
        Some("committed feedback does not match the recorded response"@)
    } else if fb.evidence_version@ != input.evidence_version@ {
        Some("feedback evidence version does not match the reveal"@)
    } else if blank(input.assurance@) || blank(input.analysis_config_version@) {
        Some("answer-release provenance must not be empty"@)
    } else if input.confirmation_nodes_per_position == 0 {
        Some("answer-release confirmation nodes must be positive"@)
    } else {
        None
    }
}

/// Whether two optional strings hold the same text.
fn same_opt(a: &Option<String>, b: &Option<String>) -> (r: bool)
    ensures
        r == (opt_text(*a) == opt_text(*b)),
{
    match (a, b) {
        (Some(x), Some(y)) => crate::http::same_text(x.as_str(), y.as_str()),
        (None, None) => true,
        _ => false,
    }
}

/// Check an answer release before it is recorded: `Ok` exactly when no
/// rule is broken, else the first rule's complaint.
pub fn validate_reveal_input(input: &RevealInput) -> (r: Result<(), String>)
    ensures
        match reveal_fault(*input) {
            None => r is Ok,
            Some(m) => r matches Err(e) && e@ == m,
        },
{
    if !token_valid(&input.event_id, MAX_EVENT_ID_BYTES) {
        return Err("event_id is empty, too long, or contains a control character".to_string());
    }
    if is_blank(input.key.card_id.as_str()) || is_blank(input.key.content_version.as_str()) {
        return Err("card identity must not be empty".to_string());
    }
    if is_blank(input.evidence_version.as_str()) {
        return Err("evidence_version must not be empty".to_string());
    }
    if input.shown_at_unix_ms < 0 || input.revealed_at_unix_ms < input.shown_at_unix_ms {
        return Err("reveal timestamps are invalid or out of order".to_string());
    }
    if input.latency_ms > MAX_LATENCY_MS {
        return Err("latency exceeds 24 hours".to_string());
    }
    match &input.response_uci {
        Some(response) => {
            if !token_valid(response, MAX_RESPONSE_BYTES) {
                return Err(
                    "response_uci is empty, too long, or contains a control character".to_string(),
                );
            }
        },
        None => {},
    }
    if input.hint_used {
        if input.response_uci.is_some() || input.reference_match.is_some() {
            return Err(
                "a give-up reveal must not claim a response or reference match".to_string(),
            );
        }
        if input.feedback.played_move.is_some() || input.feedback.reference_match.is_some() {
            return Err("give-up feedback must not claim a played move or match".to_string());
        }
    } else if input.response_uci.is_none() || input.reference_match.is_none() {
        return Err("a committed reveal must record its response and reference match".to_string());
    } else {
        let played: Option<String> = match &input.feedback.played_move {
            Some(c) => Some(c.uci.clone()),
            None => None,
        };
        if !same_opt(&played, &input.response_uci) || input.feedback.reference_match
            != input.reference_match {
            return Err("committed feedback does not match the recorded response".to_string());
        }
    }
    if !crate::http::same_text(
        input.feedback.evidence_version.as_str(),
        input.evidence_version.as_str(),
    ) {
        return Err("feedback evidence version does not match the reveal".to_string());
    }
    if is_blank(input.assurance.as_str()) || is_blank(input.analysis_config_version.as_str()) {
        return Err("answer-release provenance must not be empty".to_string());
    }
    if input.confirmation_nodes_per_position == 0 {
        return Err("answer-release confirmation nodes must be positive".to_string());
    }
    Ok(())
}

/// The release a reveal input gives rise to: its fields, the sequence, and
/// the sequence of the card's last review, if any.
pub fn derive_reveal(sequence: u64, states: &ReviewStates, input: RevealInput) -> (r: RevealEvent)
    ensures
        r.schema@ == REVEAL_SCHEMA@,
        r.schema_version == EVENT_SCHEMA_VERSION,
        r.sequence == sequence,
        r.event_id == input.event_id,
        r.card_id == input.key.card_id,
        r.content_version == input.key.content_version,
        r.evidence_version == input.evidence_version,
        r.shown_at_unix_ms == input.shown_at_unix_ms,
        r.revealed_at_unix_ms == input.revealed_at_unix_ms,
        r.hint_used == input.hint_used,
        r.response_uci == input.response_uci,
        r.reference_match == input.reference_match,
        r.latency_ms == input.latency_ms,
        r.feedback == input.feedback,
        r.assurance == input.assurance,
        r.confirmation_nodes_per_position == input.confirmation_nodes_per_position,
        r.analysis_config_version == input.analysis_config_version,
        r.prior_review_sequence == match prior_state(
            states.entries@,
            input.key.card_id@,
            input.key.content_version@,
        ) {
            Some(st) => Some(st.last_event_sequence),
            None => None,
        },
{
    let prior_review_sequence = match states.get(&input.key) {
        Some(st) => Some(st.last_event_sequence),
        None => None,
    };
    RevealEvent {
        schema: REVEAL_SCHEMA.to_owned(),
        schema_version: EVENT_SCHEMA_VERSION,
        sequence,
        event_id: input.event_id,
        card_id: input.key.card_id,
        content_version: input.key.content_version,
        evidence_version: input.evidence_version,
        shown_at_unix_ms: input.shown_at_unix_ms,
        revealed_at_unix_ms: input.revealed_at_unix_ms,
        hint_used: input.hint_used,
        response_uci: input.response_uci,
        reference_match: input.reference_match,
        latency_ms: input.latency_ms,
        feedback: input.feedback,
        assurance: input.assurance,
        confirmation_nodes_per_position: input.confirmation_nodes_per_position,
        analysis_config_version: input.analysis_config_version,
        prior_review_sequence,
    }
}

/// A review agrees with the answer release it grades: the same event,
/// card, evidence, timing, hint, response, match and latency, reviewed no
/// earlier than revealed.
pub open spec fn matches_reveal(input: ReviewInput, reveal: RevealEvent) -> bool {
    &&& input.event_id@ == reveal.event_id@
    &&& input.key.card_id@ == reveal.card_id@
    &&& input.key.content_version@ == reveal.content_version@
    &&& input.evidence_version@ == reveal.evidence_version@
    &&& input.shown_at_unix_ms == reveal.shown_at_unix_ms
    &&& input.hint_used == reveal.hint_used
    &&& opt_text(input.response_uci) == opt_text(reveal.response_uci)
    &&& input.reference_match == reveal.reference_match
    &&& input.latency_ms == reveal.latency_ms
    &&& input.reviewed_at_unix_ms >= reveal.revealed_at_unix_ms
}

/// Check that a review matches its durable answer release.
pub fn validate_review_matches_reveal(input: &ReviewInput, reveal: &RevealEvent) -> (r: Result<(), String>)
    ensures
        matches_reveal(*input, *reveal) ==> r is Ok,
        !matches_reveal(*input, *reveal) ==> (r matches Err(e) && e@
            == "review does not match its durable answer release"@),
{
    if !crate::http::same_text(input.event_id.as_str(), reveal.event_id.as_str())
        || !crate::http::same_text(input.key.card_id.as_str(), reveal.card_id.as_str())
        || !crate::http::same_text(input.key.content_version.as_str(), reveal.content_version.as_str())
        || !crate::http::same_text(input.evidence_version.as_str(), reveal.evidence_version.as_str())
        || input.shown_at_unix_ms != reveal.shown_at_unix_ms || input.hint_used != reveal.hint_used
        || !same_opt(&input.response_uci, &reveal.response_uci) || input.reference_match
        != reveal.reference_match || input.latency_ms != reveal.latency_ms
        || input.reviewed_at_unix_ms < reveal.revealed_at_unix_ms {
        return Err("review does not match its durable answer release".to_string());
    }
    Ok(())
}

} // verus!
