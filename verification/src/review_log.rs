//! The review log held in memory: the records a log file replays into, the
//! checks each replayed record must pass, and the decisions that a new
//! review or answer release appends. Reading and writing the file itself is
//! left to the caller, which hands over each parsed record and each write's
//! outcome.
use crate::cards::{copy_feedback, feedback_eq, opt_text, opt_text_eq, same_feedback};
use crate::fen::decimal;
use crate::http::{push_str, push_u64, same_text};
use crate::review::{
    derive_event, derive_reveal, derived_from, find_state, input_fault, matches_reveal,
    prior_state, reveal_fault, validate_input, validate_reveal_input,
    validate_review_matches_reveal, RevealEvent, RevealInput, ReviewEvent, ReviewInput,
    ReviewKey, ReviewState, ReviewStates, applied_state, fresh_state, counters_room, EVENT_SCHEMA, EVENT_SCHEMA_VERSION, REVEAL_SCHEMA,
    PASS_RUNGS, SCHEDULER_VERSION,
};
use vstd::prelude::*;

verus! {

/// The input a stored review was derived from.
pub open spec fn input_of(e: ReviewEvent) -> ReviewInput {
    ReviewInput {
        event_id: e.event_id,
        key: ReviewKey { card_id: e.card_id, content_version: e.content_version },
        evidence_version: e.evidence_version,
        shown_at_unix_ms: e.shown_at_unix_ms,
        reviewed_at_unix_ms: e.reviewed_at_unix_ms,
        grade: e.submitted_grade,
        hint_used: e.hint_used,
        response_uci: e.response_uci,
        reference_match: e.reference_match,
        latency_ms: e.latency_ms,
    }
}

/// Two review inputs hold the same texts, times, grade and flags.
pub open spec fn same_input(a: ReviewInput, b: ReviewInput) -> bool {
    &&& a.event_id@ == b.event_id@
    &&& a.key.card_id@ == b.key.card_id@
    &&& a.key.content_version@ == b.key.content_version@
    &&& a.evidence_version@ == b.evidence_version@
    &&& a.shown_at_unix_ms == b.shown_at_unix_ms
    &&& a.reviewed_at_unix_ms == b.reviewed_at_unix_ms
    &&& a.grade == b.grade
    &&& a.hint_used == b.hint_used
    &&& opt_text(a.response_uci) == opt_text(b.response_uci)
    &&& a.reference_match == b.reference_match
    &&& a.latency_ms == b.latency_ms
}

/// A copy of an optional text.
fn copy_text(o: &Option<String>) -> (r: Option<String>)
    ensures
        r == *o,
{
    match o {
        Some(s) => Some(s.clone()),
        None => None,
    }
}

impl ReviewEvent {
    /// The input this event was derived from.
    pub fn input(&self) -> (r: ReviewInput)
        ensures
            r == input_of(*self),
    {
        ReviewInput {
            event_id: self.event_id.clone(),
            key: ReviewKey {
                card_id: self.card_id.clone(),
                content_version: self.content_version.clone(),
            },
            evidence_version: self.evidence_version.clone(),
            shown_at_unix_ms: self.shown_at_unix_ms,
            reviewed_at_unix_ms: self.reviewed_at_unix_ms,
            grade: self.submitted_grade,
            hint_used: self.hint_used,
            response_uci: copy_text(&self.response_uci),
            reference_match: self.reference_match,
            latency_ms: self.latency_ms,
        }
    }

    /// Whether this event records exactly `input`.
    pub fn matches_input(&self, input: &ReviewInput) -> (r: bool)
        ensures
            r == same_input(input_of(*self), *input),
    {
        same_text(self.event_id.as_str(), input.event_id.as_str()) && same_text(
            self.card_id.as_str(),
            input.key.card_id.as_str(),
        ) && same_text(self.content_version.as_str(), input.key.content_version.as_str())
            && same_text(self.evidence_version.as_str(), input.evidence_version.as_str())
            && self.shown_at_unix_ms == input.shown_at_unix_ms && self.reviewed_at_unix_ms
            == input.reviewed_at_unix_ms && self.submitted_grade == input.grade && self.hint_used
            == input.hint_used && opt_text_eq(&self.response_uci, &input.response_uci)
            && self.reference_match == input.reference_match && self.latency_ms
            == input.latency_ms
    }
}

/// The input a stored answer release was made from.
pub open spec fn reveal_input_of(e: RevealEvent) -> RevealInput {
    RevealInput {
        event_id: e.event_id,
        key: ReviewKey { card_id: e.card_id, content_version: e.content_version },
        evidence_version: e.evidence_version,
        shown_at_unix_ms: e.shown_at_unix_ms,
        revealed_at_unix_ms: e.revealed_at_unix_ms,
        hint_used: e.hint_used,
        response_uci: e.response_uci,
        reference_match: e.reference_match,
        latency_ms: e.latency_ms,
        feedback: e.feedback,
        assurance: e.assurance,
        confirmation_nodes_per_position: e.confirmation_nodes_per_position,
        analysis_config_version: e.analysis_config_version,
    }
}

/// Two answer-release inputs hold the same texts, times, flags and
/// feedback.
pub open spec fn same_reveal_input(a: RevealInput, b: RevealInput) -> bool {
    &&& a.event_id@ == b.event_id@
    &&& a.key.card_id@ == b.key.card_id@
    &&& a.key.content_version@ == b.key.content_version@
    &&& a.evidence_version@ == b.evidence_version@
    &&& a.shown_at_unix_ms == b.shown_at_unix_ms
    &&& a.revealed_at_unix_ms == b.revealed_at_unix_ms
    &&& a.hint_used == b.hint_used
    &&& opt_text(a.response_uci) == opt_text(b.response_uci)
    &&& a.reference_match == b.reference_match
    &&& a.latency_ms == b.latency_ms
    &&& same_feedback(a.feedback, b.feedback)
    &&& a.assurance@ == b.assurance@
    &&& a.confirmation_nodes_per_position == b.confirmation_nodes_per_position
    &&& a.analysis_config_version@ == b.analysis_config_version@
}

/// Inputs that agree in every text and value draw the same complaint.
proof fn lemma_reveal_fault_agrees(a: RevealInput, b: RevealInput)
    requires
        same_reveal_input(a, b),
    ensures
        reveal_fault(a) == reveal_fault(b),
{
    let pa = match a.feedback.played_move {
        Some(c) => Some(c.uci@),
        None => None,
    };
    let pb = match b.feedback.played_move {
        Some(c) => Some(c.uci@),
        None => None,
    };
    assert(pa == pb);
}

impl RevealEvent {
    /// The input this release was made from.
    pub fn input(&self) -> (r: RevealInput)
        ensures
            same_reveal_input(r, reveal_input_of(*self)),
    {
        RevealInput {
            event_id: self.event_id.clone(),
            key: ReviewKey {
                card_id: self.card_id.clone(),
                content_version: self.content_version.clone(),
            },
            evidence_version: self.evidence_version.clone(),
            shown_at_unix_ms: self.shown_at_unix_ms,
            revealed_at_unix_ms: self.revealed_at_unix_ms,
            hint_used: self.hint_used,
            response_uci: copy_text(&self.response_uci),
            reference_match: self.reference_match,
            latency_ms: self.latency_ms,
            feedback: copy_feedback(&self.feedback),
            assurance: self.assurance.clone(),
            confirmation_nodes_per_position: self.confirmation_nodes_per_position,
            analysis_config_version: self.analysis_config_version.clone(),
        }
    }

    /// Whether this release records exactly `input`.
    pub fn matches_input(&self, input: &RevealInput) -> (r: bool)
        ensures
            r == same_reveal_input(reveal_input_of(*self), *input),
    {
        same_text(self.event_id.as_str(), input.event_id.as_str()) && same_text(
            self.card_id.as_str(),
            input.key.card_id.as_str(),
        ) && same_text(self.content_version.as_str(), input.key.content_version.as_str())
            && same_text(self.evidence_version.as_str(), input.evidence_version.as_str())
            && self.shown_at_unix_ms == input.shown_at_unix_ms && self.revealed_at_unix_ms
            == input.revealed_at_unix_ms && self.hint_used == input.hint_used && opt_text_eq(
            &self.response_uci,
            &input.response_uci,
        ) && self.reference_match == input.reference_match && self.latency_ms
            == input.latency_ms && feedback_eq(&self.feedback, &input.feedback) && same_text(
            self.assurance.as_str(),
            input.assurance.as_str(),
        ) && self.confirmation_nodes_per_position == input.confirmation_nodes_per_position
            && same_text(
            self.analysis_config_version.as_str(),
            input.analysis_config_version.as_str(),
        )
    }
}

/// `"expected sequence <expected>, found <found>"`.
pub open spec fn sequence_message(expected: u64, found: u64) -> Seq<char> {
    "expected sequence "@ + decimal(expected as nat) + ", found "@ + decimal(found as nat)
}

fn sequence_error(expected: u64, found: u64) -> (r: String)
    ensures
        r@ == sequence_message(expected, found),
{
    let mut s = String::new();
    push_str(&mut s, "expected sequence ");
    push_u64(&mut s, expected);
    push_str(&mut s, ", found ");
    push_u64(&mut s, found);
    s
}

/// The complaint a replayed review draws when it is expected at
/// `sequence` after the states `entries`: a foreign schema or scheduler, a
/// sequence gap, an input that would be refused today, or a stored decision
/// that the scheduler does not reproduce.
pub open spec fn loaded_event_fault(
    e: ReviewEvent,
    sequence: u64,
    entries: Seq<(ReviewKey, ReviewState)>,
) -> Option<Seq<char>> {
    if e.schema@ != EVENT_SCHEMA@ || e.schema_version != EVENT_SCHEMA_VERSION {
        Some("expected chess-trainer-review-event schema version 1"@)
    } else if e.scheduler_version@ != SCHEDULER_VERSION@ {
        Some("unsupported scheduler version '"@ + e.scheduler_version@ + "'"@)
    } else if e.sequence != sequence {
        Some(sequence_message(sequence, e.sequence))
    } else if input_fault(input_of(e)) is Some {
        input_fault(input_of(e))
    } else if !derived_from(e, sequence, prior_state(entries, e.card_id@, e.content_version@), input_of(e)) {
        Some("stored scheduler decision does not match deterministic replay"@)
    } else {
        None
    }
}

/// Check a review read back from the log against a deterministic replay.
pub fn validate_loaded_event(event: &ReviewEvent, expected_sequence: u64, states: &ReviewStates) -> (r:
    Result<(), String>)
    requires
        forall|i: int|
            0 <= i < states.entries@.len() ==> #[trigger] states.entries@[i].1.success_rung
                < usize::MAX,
    ensures
        match loaded_event_fault(*event, expected_sequence, states.entries@) {
            None => r is Ok,
            Some(m) => r matches Err(e) && e@ == m,
        },
{
    if !same_text(event.schema.as_str(), EVENT_SCHEMA) || event.schema_version
        != EVENT_SCHEMA_VERSION {
        return Err("expected chess-trainer-review-event schema version 1".to_string());
    }
    if !same_text(event.scheduler_version.as_str(), SCHEDULER_VERSION) {
        let mut s = String::new();
        push_str(&mut s, "unsupported scheduler version '");
        push_str(&mut s, event.scheduler_version.as_str());
        push_str(&mut s, "'");
        return Err(s);
    }
    if event.sequence != expected_sequence {
        return Err(sequence_error(expected_sequence, event.sequence));
    }
    let input = event.input();
    match validate_input(&input) {
        Err(m) => {
            return Err(m);
        },
        Ok(()) => {},
    }
    proof {
        let p = prior_state(states.entries@, input.key.card_id@, input.key.content_version@);
        if p is Some {
            let i = find_state(states.entries@, input.key.card_id@, input.key.content_version@, 0)->0;
            lemma_find_state_in_range(states.entries@, input.key.card_id@, input.key.content_version@, 0);
            assert(states.entries@[i].1.success_rung < usize::MAX);
        }
    }
    let expected = derive_event(expected_sequence, states, input);
    if event.applied_grade != expected.applied_grade || event.prior_due_at_unix_ms
        != expected.prior_due_at_unix_ms || event.prior_interval_ms != expected.prior_interval_ms
        || event.was_due != expected.was_due || event.delayed_eligible != expected.delayed_eligible
        || event.next_due_at_unix_ms != expected.next_due_at_unix_ms || event.next_interval_ms
        != expected.next_interval_ms || event.next_success_rung != expected.next_success_rung
        || event.next_lapses != expected.next_lapses {
        return Err("stored scheduler decision does not match deterministic replay".to_string());
    }
    Ok(())
}

/// A found state lies within the entries.
pub proof fn lemma_find_state_in_range(
    entries: Seq<(ReviewKey, ReviewState)>,
    card: Seq<char>,
    content: Seq<char>,
    k: int,
)
    ensures
        find_state(entries, card, content, k) matches Some(i) ==> k <= i < entries.len()
            && entries[i].0.card_id@ == card && entries[i].0.content_version@ == content,
    decreases entries.len() - k,
{
    if k >= 0 && k < entries.len() && !(entries[k].0.card_id@ == card
        && entries[k].0.content_version@ == content) {
        lemma_find_state_in_range(entries, card, content, k + 1);
    }
}

/// The sequence of the last review of a card version, if any.
pub open spec fn last_sequence(
    entries: Seq<(ReviewKey, ReviewState)>,
    card: Seq<char>,
    content: Seq<char>,
) -> Option<u64> {
    match prior_state(entries, card, content) {
        Some(s) => Some(s.last_event_sequence),
        None => None,
    }
}

/// The complaint a replayed answer release draws when it is expected at
/// `sequence` after the states `entries`: a foreign schema, a sequence gap,
/// an input that would be refused today, or a prior-review sequence that a
/// replay does not reproduce (the only field a replay derives rather than
/// copies).
pub open spec fn loaded_reveal_fault(
    e: RevealEvent,
    sequence: u64,
    entries: Seq<(ReviewKey, ReviewState)>,
) -> Option<Seq<char>> {
    if e.schema@ != REVEAL_SCHEMA@ || e.schema_version != EVENT_SCHEMA_VERSION {
        Some("expected chess-trainer-reveal-event schema version 1"@)
    } else if e.sequence != sequence {
        Some(sequence_message(sequence, e.sequence))
    } else if reveal_fault(reveal_input_of(e)) is Some {
        reveal_fault(reveal_input_of(e))
    } else if e.prior_review_sequence != last_sequence(entries, e.card_id@, e.content_version@) {
        Some("stored reveal does not match deterministic replay"@)
    } else {
        None
    }
}

/// Check an answer release read back from the log against a
/// deterministic replay.
pub fn validate_loaded_reveal(event: &RevealEvent, expected_sequence: u64, states: &ReviewStates) -> (r:
    Result<(), String>)
    ensures
        match loaded_reveal_fault(*event, expected_sequence, states.entries@) {
            None => r is Ok,
            Some(m) => r matches Err(e) && e@ == m,
        },
{
    if !same_text(event.schema.as_str(), REVEAL_SCHEMA) || event.schema_version
        != EVENT_SCHEMA_VERSION {
        return Err("expected chess-trainer-reveal-event schema version 1".to_string());
    }
    if event.sequence != expected_sequence {
        return Err(sequence_error(expected_sequence, event.sequence));
    }
    let input = event.input();
    proof {
        lemma_reveal_fault_agrees(input, reveal_input_of(*event));
    }
    match validate_reveal_input(&input) {
        Err(m) => {
            return Err(m);
        },
        Ok(()) => {},
    }
    let replay = derive_reveal(expected_sequence, states, input);
    if event.prior_review_sequence != replay.prior_review_sequence {
        return Err("stored reveal does not match deterministic replay".to_string());
    }
    Ok(())
}

/// A state whose counters fit what the reviews before `next_sequence` can
/// have produced, on a rung of the ladder.
pub open spec fn state_bounded(st: ReviewState, next_sequence: u64) -> bool {
    &&& st.success_rung <= PASS_RUNGS
    &&& st.attempts < next_sequence
    &&& st.passes <= st.attempts
    &&& st.partials <= st.attempts
    &&& st.misses <= st.attempts
    &&& st.hints <= st.attempts
    &&& st.reference_matches <= st.attempts
    &&& st.delayed_attempts <= st.attempts
    &&& st.delayed_passes <= st.attempts
}

/// How the states relate before and after one review is folded in: the
/// card's entry is advanced in place, or a fresh one is appended.
pub open spec fn states_after(
    before: Seq<(ReviewKey, ReviewState)>,
    after: Seq<(ReviewKey, ReviewState)>,
    e: ReviewEvent,
) -> bool {
    match find_state(before, e.card_id@, e.content_version@, 0) {
        Some(i) => after == before.update(i, (before[i].0, applied_state(before[i].1, e))),
        None => after.len() == before.len() + 1 && after.drop_last() == before
            && after.last().0.card_id@ == e.card_id@ && after.last().0.content_version@
            == e.content_version@ && after.last().1 == applied_state(fresh_state(e), e),
    }
}

/// The first review recorded under `id`, from index `k` on.
pub open spec fn find_event(events: Seq<ReviewEvent>, id: Seq<char>, k: int) -> Option<int>
    decreases events.len() - k,
{
    if k < 0 || k >= events.len() {
        None
    } else if events[k].event_id@ == id {
        Some(k)
    } else {
        find_event(events, id, k + 1)
    }
}

/// The first answer release recorded under `id`, from index `k` on.
pub open spec fn find_reveal(reveals: Seq<RevealEvent>, id: Seq<char>, k: int) -> Option<int>
    decreases reveals.len() - k,
{
    if k < 0 || k >= reveals.len() {
        None
    } else if reveals[k].event_id@ == id {
        Some(k)
    } else {
        find_reveal(reveals, id, k + 1)
    }
}

/// A release made at `sequence` from `input` after the states `entries`.
pub open spec fn reveal_derived(
    r: RevealEvent,
    sequence: u64,
    entries: Seq<(ReviewKey, ReviewState)>,
    input: RevealInput,
) -> bool {
    &&& r.schema@ == REVEAL_SCHEMA@
    &&& r.schema_version == EVENT_SCHEMA_VERSION
    &&& r.sequence == sequence
    &&& r.event_id == input.event_id
    &&& r.card_id == input.key.card_id
    &&& r.content_version == input.key.content_version
    &&& r.evidence_version == input.evidence_version
    &&& r.shown_at_unix_ms == input.shown_at_unix_ms
    &&& r.revealed_at_unix_ms == input.revealed_at_unix_ms
    &&& r.hint_used == input.hint_used
    &&& r.response_uci == input.response_uci
    &&& r.reference_match == input.reference_match
    &&& r.latency_ms == input.latency_ms
    &&& r.feedback == input.feedback
    &&& r.assurance == input.assurance
    &&& r.confirmation_nodes_per_position == input.confirmation_nodes_per_position
    &&& r.analysis_config_version == input.analysis_config_version
    &&& r.prior_review_sequence == last_sequence(entries, input.key.card_id@, input.key.content_version@)
}

/// Why the log refuses a new record.
#[derive(Debug)]
pub enum LogFault {
    InvalidInput(String),
    EventIdConflict(String),
    Poisoned,
}

/// The content of a [`LogFault`].
pub enum LogFaultView {
    InvalidInput(Seq<char>),
    EventIdConflict(Seq<char>),
    Poisoned,
}

impl View for LogFault {
    type V = LogFaultView;

    open spec fn view(&self) -> LogFaultView {
        match self {
            LogFault::InvalidInput(m) => LogFaultView::InvalidInput(m@),
            LogFault::EventIdConflict(id) => LogFaultView::EventIdConflict(id@),
            LogFault::Poisoned => LogFaultView::Poisoned,
        }
    }
}

/// What recording a review comes to: the review already stored at an
/// index, or a new review to append once it is durable.
pub enum ReviewPlan {
    Existing(usize),
    Append(ReviewEvent),
}

/// What recording an answer release comes to.
pub enum RevealPlan {
    Existing(usize),
    Append(RevealEvent),
}

/// The content of a [`ReviewLog`].
pub struct LogView {
    pub events: Seq<ReviewEvent>,
    pub reveals: Seq<RevealEvent>,
    pub states: Seq<(ReviewKey, ReviewState)>,
    pub next_sequence: u64,
    pub poisoned: bool,
}

/// The reviews and answer releases of a log in the order they were
/// recorded, the per-card states they project to, the sequence the next
/// record takes, and whether a write was interrupted.
pub struct ReviewLog {
    events: Vec<ReviewEvent>,
    reveals: Vec<RevealEvent>,
    states: ReviewStates,
    next_sequence: u64,
    poisoned: bool,
}

impl View for ReviewLog {
    type V = LogView;

    closed spec fn view(&self) -> LogView {
        LogView {
            events: self.events@,
            reveals: self.reveals@,
            states: self.states.entries@,
            next_sequence: self.next_sequence,
            poisoned: self.poisoned,
        }
    }
}

/// Whether a release's review is still to come.
pub open spec fn pending_in(events: Seq<ReviewEvent>) -> spec_fn(RevealEvent) -> bool {
    |r: RevealEvent| find_event(events, r.event_id@, 0) is None
}

/// What recording `input` comes to in the log `v`: `Ok(Some(i))` for the
/// identical review stored at `i`, `Ok(None)` for a new review, or the
/// refusal: an invalid input, an interrupted write, an event id used for
/// something else, or an answer release the review does not match or that
/// a later review has made stale.
pub open spec fn review_outcome(v: LogView, input: ReviewInput) -> Result<Option<int>, LogFaultView> {
    let id = input.event_id@;
    if input_fault(input) is Some {
        Err(LogFaultView::InvalidInput(input_fault(input)->0))
    } else if v.poisoned {
        Err(LogFaultView::Poisoned)
    } else if find_event(v.events, id, 0) is Some {
        let i = find_event(v.events, id, 0)->0;
        if same_input(input_of(v.events[i]), input) {
            Ok(Some(i))
        } else {
            Err(LogFaultView::EventIdConflict(id))
        }
    } else if find_reveal(v.reveals, id, 0) is Some {
        let j = find_reveal(v.reveals, id, 0)->0;
        if !matches_reveal(input, v.reveals[j]) {
            Err(LogFaultView::InvalidInput("review does not match its durable answer release"@))
        } else if last_sequence(v.states, input.key.card_id@, input.key.content_version@)
            != v.reveals[j].prior_review_sequence {
            Err(LogFaultView::InvalidInput("review was submitted from a stale answer release"@))
        } else {
            Ok(None)
        }
    } else {
        Ok(None)
    }
}

/// What recording the answer release `input` comes to in the log `v`.
pub open spec fn reveal_outcome(v: LogView, input: RevealInput) -> Result<Option<int>, LogFaultView> {
    let id = input.event_id@;
    if reveal_fault(input) is Some {
        Err(LogFaultView::InvalidInput(reveal_fault(input)->0))
    } else if v.poisoned {
        Err(LogFaultView::Poisoned)
    } else if find_reveal(v.reveals, id, 0) is Some {
        let j = find_reveal(v.reveals, id, 0)->0;
        if same_reveal_input(reveal_input_of(v.reveals[j]), input) {
            Ok(Some(j))
        } else {
            Err(LogFaultView::EventIdConflict(id))
        }
    } else if find_event(v.events, id, 0) is Some {
        Err(LogFaultView::EventIdConflict(id))
    } else {
        Ok(None)
    }
}

/// The complaint a review read back from the log draws, in the order the
/// checks are made.
pub open spec fn load_review_fault(v: LogView, e: ReviewEvent) -> Option<Seq<char>> {
    let id = e.event_id@;
    if loaded_event_fault(e, v.next_sequence, v.states) is Some {
        loaded_event_fault(e, v.next_sequence, v.states)
    } else if find_reveal(v.reveals, id, 0) is Some && !matches_reveal(
        input_of(e),
        v.reveals[find_reveal(v.reveals, id, 0)->0],
    ) {
        Some("review does not match its durable answer release"@)
    } else if find_reveal(v.reveals, id, 0) is Some && ({
        let r = v.reveals[find_reveal(v.reveals, id, 0)->0];
        last_sequence(v.states, r.card_id@, r.content_version@) != r.prior_review_sequence
    }) {
        Some("review was recorded from a stale answer release"@)
    } else if find_event(v.events, id, 0) is Some {
        Some("duplicate review event id"@)
    } else {
        None
    }
}

/// The complaint an answer release read back from the log draws.
pub open spec fn load_reveal_fault(v: LogView, e: RevealEvent) -> Option<Seq<char>> {
    let id = e.event_id@;
    if loaded_reveal_fault(e, v.next_sequence, v.states) is Some {
        loaded_reveal_fault(e, v.next_sequence, v.states)
    } else if find_event(v.events, id, 0) is Some {
        Some("answer release appears after its review event"@)
    } else if find_reveal(v.reveals, id, 0) is Some {
        Some("duplicate reveal event id"@)
    } else {
        None
    }
}

impl ReviewLog {
    /// The log's invariant: sequences start at one and every state's
    /// counters fit the reviews recorded so far.
    pub closed spec fn wf(&self) -> bool {
        &&& self.next_sequence >= 1
        &&& forall|i: int|
            0 <= i < self.states.entries@.len() ==> state_bounded(
                #[trigger] self.states.entries@[i].1,
                self.next_sequence,
            )
    }

    /// An empty log; its first record takes sequence 1.
    pub fn new() -> (r: ReviewLog)
        ensures
            r.wf(),
            r@.events == Seq::<ReviewEvent>::empty(),
            r@.reveals == Seq::<RevealEvent>::empty(),
            r@.states == Seq::<(ReviewKey, ReviewState)>::empty(),
            r@.next_sequence == 1,
            !r@.poisoned,
    {
        ReviewLog {
            events: Vec::new(),
            reveals: Vec::new(),
            states: ReviewStates::new(),
            next_sequence: 1,
            poisoned: false,
        }
    }

    /// The reviews in the order they were recorded.
    pub fn events(&self) -> (r: &[ReviewEvent])
        ensures
            r@ == self@.events,
    {
        self.events.as_slice()
    }

    /// The answer releases in the order they were recorded.
    pub fn reveals(&self) -> (r: &[RevealEvent])
        ensures
            r@ == self@.reveals,
    {
        self.reveals.as_slice()
    }

    /// The per-card states.
    pub fn states(&self) -> (r: &ReviewStates)
        ensures
            r.entries@ == self@.states,
    {
        &self.states
    }

    /// The sequence the next record takes.
    pub fn next_sequence(&self) -> (r: u64)
        ensures
            r == self@.next_sequence,
    {
        self.next_sequence
    }

    /// Whether a write was interrupted since the log was opened.
    pub fn is_poisoned(&self) -> (r: bool)
        ensures
            r == self@.poisoned,
    {
        self.poisoned
    }

    /// The state of a card version, if it has been reviewed.
    pub fn state(&self, key: &ReviewKey) -> (r: Option<&ReviewState>)
        ensures
            match r {
                Some(s) => prior_state(self@.states, key.card_id@, key.content_version@) == Some(*s),
                None => prior_state(self@.states, key.card_id@, key.content_version@) is None,
            },
    {
        self.states.get(key)
    }

    fn event_index(&self, id: &str) -> (r: Option<usize>)
        ensures
            match r {
                Some(i) => find_event(self@.events, id@, 0) == Some(i as int) && i
                    < self@.events.len(),
                None => find_event(self@.events, id@, 0) is None,
            },
    {
        let mut i: usize = 0;
        while i < self.events.len()
            invariant
                i <= self.events@.len(),
                find_event(self.events@, id@, 0) == find_event(self.events@, id@, i as int),
            decreases self.events@.len() - i,
        {
            if same_text(self.events[i].event_id.as_str(), id) {
                return Some(i);
            }
            i += 1;
        }
        None
    }

    fn reveal_index(&self, id: &str) -> (r: Option<usize>)
        ensures
            match r {
                Some(i) => find_reveal(self@.reveals, id@, 0) == Some(i as int) && i
                    < self@.reveals.len(),
                None => find_reveal(self@.reveals, id@, 0) is None,
            },
    {
        let mut i: usize = 0;
        while i < self.reveals.len()
            invariant
                i <= self.reveals@.len(),
                find_reveal(self.reveals@, id@, 0) == find_reveal(self.reveals@, id@, i as int),
            decreases self.reveals@.len() - i,
        {
            if same_text(self.reveals[i].event_id.as_str(), id) {
                return Some(i);
            }
            i += 1;
        }
        None
    }

    /// The review recorded under an event id, if any.
    pub fn event(&self, event_id: &str) -> (r: Option<&ReviewEvent>)
        ensures
            match find_event(self@.events, event_id@, 0) {
                Some(i) => r == Some(&self@.events[i]),
                None => r is None,
            },
    {
        match self.event_index(event_id) {
            Some(i) => Some(&self.events[i]),
            None => None,
        }
    }

    /// The index of the review recorded under an event id, if any.
    pub fn event_index_of(&self, event_id: &str) -> (r: Option<usize>)
        ensures
            match find_event(self@.events, event_id@, 0) {
                Some(i) => r matches Some(x) && x as int == i && i < self@.events.len(),
                None => r is None,
            },
    {
        self.event_index(event_id)
    }

    /// Whether an answer release was recorded under an event id.
    pub fn has_reveal(&self, event_id: &str) -> (r: bool)
        ensures
            r == find_reveal(self@.reveals, event_id@, 0) is Some,
    {
        self.reveal_index(event_id).is_some()
    }

    /// The answer releases whose review has not been recorded yet, in
    /// recording order.
    pub fn pending_reveals(&self) -> (r: Vec<&RevealEvent>)
        ensures
            r@.map_values(|x: &RevealEvent| *x) == self@.reveals.filter(pending_in(self@.events)),
    {
        let ghost p = pending_in(self@.events);
        let mut out: Vec<&RevealEvent> = Vec::new();
        let mut i: usize = 0;
        while i < self.reveals.len()
            invariant
                i <= self.reveals@.len(),
                p == pending_in(self@.events),
                out@.map_values(|x: &RevealEvent| *x) == self.reveals@.take(i as int).filter(p),
            decreases self.reveals@.len() - i,
        {
            let ghost before = out@;
            let pending = self.event_index(self.reveals[i].event_id.as_str()).is_none();
            if pending {
                out.push(&self.reveals[i]);
            }
            proof {
                let s = self.reveals@.take(i + 1);
                assert(s.drop_last() =~= self.reveals@.take(i as int));
                assert(s.last() == self.reveals@[i as int]);
                reveal(Seq::filter);
                assert(s.filter(p) == if p(s.last()) {
                    s.drop_last().filter(p).push(s.last())
                } else {
                    s.drop_last().filter(p)
                });
                assert(out@.map_values(|x: &RevealEvent| *x) =~= s.filter(p));
            }
            i += 1;
        }
        assert(self.reveals@.take(self.reveals@.len() as int) =~= self.reveals@);
        out
    }
}

impl ReviewLog {
    /// Fold a review into the log once it is durable: it is appended, its
    /// card's state advances, and the sequence moves on.
    pub fn commit_review(&mut self, event: ReviewEvent)
        requires
            old(self).wf(),
            old(self)@.next_sequence < u64::MAX,
            derived_from(
                event,
                old(self)@.next_sequence,
                prior_state(old(self)@.states, event.card_id@, event.content_version@),
                input_of(event),
            ),
        ensures
            final(self).wf(),
            final(self)@.events == old(self)@.events.push(event),
            final(self)@.reveals == old(self)@.reveals,
            states_after(old(self)@.states, final(self)@.states, event),
            final(self)@.next_sequence == old(self)@.next_sequence + 1,
            final(self)@.poisoned == old(self)@.poisoned,
    {
        let ghost n = self.next_sequence;
        let ghost before = self.states.entries@;
        proof {
            lemma_find_state_in_range(before, event.card_id@, event.content_version@, 0);
            if find_state(before, event.card_id@, event.content_version@, 0) is Some {
                let i = find_state(before, event.card_id@, event.content_version@, 0)->0;
                assert(state_bounded(before[i].1, n));
                assert(counters_room(before[i].1));
            }
        }
        crate::review::apply_event(&mut self.states, &event);
        self.events.push(event);
        self.next_sequence = self.next_sequence + 1;
        proof {
            let after = self.states.entries@;
            assert forall|k: int| 0 <= k < after.len() implies state_bounded(
                #[trigger] after[k].1,
                self.next_sequence,
            ) by {
                match find_state(before, event.card_id@, event.content_version@, 0) {
                    Some(i) => {
                        if k != i {
                            assert(after[k] == before[k]);
                            assert(state_bounded(before[k].1, n));
                        } else {
                            assert(state_bounded(before[i].1, n));
                        }
                    },
                    None => {
                        if k < before.len() {
                            assert(after[k] == after.drop_last()[k]);
                            assert(state_bounded(before[k].1, n));
                        }
                    },
                }
            }
        }
    }

    /// Add an answer release once it is durable.
    pub fn commit_reveal(&mut self, event: RevealEvent)
        requires
            old(self).wf(),
            old(self)@.next_sequence < u64::MAX,
        ensures
            final(self).wf(),
            final(self)@.events == old(self)@.events,
            final(self)@.reveals == old(self)@.reveals.push(event),
            final(self)@.states == old(self)@.states,
            final(self)@.next_sequence == old(self)@.next_sequence + 1,
            final(self)@.poisoned == old(self)@.poisoned,
    {
        self.reveals.push(event);
        self.next_sequence = self.next_sequence + 1;
        proof {
            let es = self.states.entries@;
            assert forall|k: int| 0 <= k < es.len() implies state_bounded(
                #[trigger] es[k].1,
                self.next_sequence,
            ) by {
                assert(state_bounded(es[k].1, (self.next_sequence - 1) as u64));
            }
        }
    }

    /// Mark the log as having lost a write: nothing more is recorded until
    /// it is reopened.
    pub fn poison(&mut self)
        requires
            old(self).wf(),
        ensures
            final(self).wf(),
            final(self)@.events == old(self)@.events,
            final(self)@.reveals == old(self)@.reveals,
            final(self)@.states == old(self)@.states,
            final(self)@.next_sequence == old(self)@.next_sequence,
            final(self)@.poisoned,
    {
        self.poisoned = true;
    }

    /// Decide what recording a review comes to, before anything is written.
    pub fn prepare_review(&self, input: ReviewInput) -> (r: Result<ReviewPlan, LogFault>)
        requires
            self.wf(),
        ensures
            r matches Ok(ReviewPlan::Existing(k)) ==> k < self@.events.len(),
            match review_outcome(self@, input) {
                Ok(Some(i)) => r matches Ok(ReviewPlan::Existing(k)) && k == i,
                Ok(None) => r matches Ok(ReviewPlan::Append(e)) && derived_from(
                    e,
                    self@.next_sequence,
                    prior_state(self@.states, input.key.card_id@, input.key.content_version@),
                    input,
                ),
                Err(f) => r matches Err(x) && x@ == f,
            },
    {
        match validate_input(&input) {
            Err(m) => {
                return Err(LogFault::InvalidInput(m));
            },
            Ok(()) => {},
        }
        if self.poisoned {
            return Err(LogFault::Poisoned);
        }
        match self.event_index(input.event_id.as_str()) {
            Some(i) => {
                if self.events[i].matches_input(&input) {
                    return Ok(ReviewPlan::Existing(i));
                }
                return Err(LogFault::EventIdConflict(input.event_id));
            },
            None => {},
        }
        match self.reveal_index(input.event_id.as_str()) {
            Some(j) => {
                match validate_review_matches_reveal(&input, &self.reveals[j]) {
                    Err(m) => {
                        return Err(LogFault::InvalidInput(m));
                    },
                    Ok(()) => {},
                }
                let current: Option<u64> = match self.states.get(&input.key) {
                    Some(st) => Some(st.last_event_sequence),
                    None => None,
                };
                if current != self.reveals[j].prior_review_sequence {
                    return Err(
                        LogFault::InvalidInput(
                            "review was submitted from a stale answer release".to_string(),
                        ),
                    );
                }
            },
            None => {},
        }
        proof {
            self.lemma_rung_room(input.key.card_id@, input.key.content_version@);
        }
        Ok(ReviewPlan::Append(derive_event(self.next_sequence, &self.states, input)))
    }

    /// The state a card version has, if any, is on a rung of the ladder.
    proof fn lemma_rung_room(&self, card: Seq<char>, content: Seq<char>)
        requires
            self.wf(),
        ensures
            prior_state(self.states.entries@, card, content) matches Some(p) ==> p.success_rung
                <= PASS_RUNGS,
            forall|i: int|
                0 <= i < self.states.entries@.len() ==> #[trigger] self.states.entries@[i].1.success_rung
                    < usize::MAX,
    {
        lemma_find_state_in_range(self.states.entries@, card, content, 0);
        if prior_state(self.states.entries@, card, content) is Some {
            let i = find_state(self.states.entries@, card, content, 0)->0;
            assert(state_bounded(self.states.entries@[i].1, self.next_sequence));
        }
        assert forall|i: int| 0 <= i < self.states.entries@.len() implies #[trigger] self.states.entries@[i].1.success_rung
            < usize::MAX by {
            assert(state_bounded(self.states.entries@[i].1, self.next_sequence));
        }
    }

    /// Decide what recording an answer release comes to, before anything
    /// is written.
    pub fn prepare_reveal(&self, input: RevealInput) -> (r: Result<RevealPlan, LogFault>)
        requires
            self.wf(),
        ensures
            r matches Ok(RevealPlan::Existing(k)) ==> k < self@.reveals.len(),
            match reveal_outcome(self@, input) {
                Ok(Some(i)) => r matches Ok(RevealPlan::Existing(k)) && k == i,
                Ok(None) => r matches Ok(RevealPlan::Append(e)) && reveal_derived(
                    e,
                    self@.next_sequence,
                    self@.states,
                    input,
                ),
                Err(f) => r matches Err(x) && x@ == f,
            },
    {
        match validate_reveal_input(&input) {
            Err(m) => {
                return Err(LogFault::InvalidInput(m));
            },
            Ok(()) => {},
        }
        if self.poisoned {
            return Err(LogFault::Poisoned);
        }
        match self.reveal_index(input.event_id.as_str()) {
            Some(j) => {
                if self.reveals[j].matches_input(&input) {
                    return Ok(RevealPlan::Existing(j));
                }
                return Err(LogFault::EventIdConflict(input.event_id));
            },
            None => {},
        }
        if self.event_index(input.event_id.as_str()).is_some() {
            return Err(LogFault::EventIdConflict(input.event_id));
        }
        Ok(RevealPlan::Append(derive_reveal(self.next_sequence, &self.states, input)))
    }

    /// Replay a review read back from the log: on success it is folded in
    /// as if recorded now; on a complaint the log is left as it was.
    pub fn load_review(&mut self, event: ReviewEvent) -> (r: Result<(), String>)
        requires
            old(self).wf(),
            old(self)@.next_sequence < u64::MAX,
        ensures
            final(self).wf(),
            match load_review_fault(old(self)@, event) {
                None => r is Ok && final(self)@.events == old(self)@.events.push(event)
                    && final(self)@.reveals == old(self)@.reveals && states_after(
                    old(self)@.states,
                    final(self)@.states,
                    event,
                ) && final(self)@.next_sequence == old(self)@.next_sequence + 1
                    && final(self)@.poisoned == old(self)@.poisoned,
                Some(m) => r matches Err(e) && e@ == m && final(self)@ == old(self)@,
            },
    {
        proof {
            self.lemma_rung_room(event.card_id@, event.content_version@);
        }
        match validate_loaded_event(&event, self.next_sequence, &self.states) {
            Err(m) => {
                return Err(m);
            },
            Ok(()) => {},
        }
        match self.reveal_index(event.event_id.as_str()) {
            Some(j) => {
                let input = event.input();
                match validate_review_matches_reveal(&input, &self.reveals[j]) {
                    Err(m) => {
                        return Err(m);
                    },
                    Ok(()) => {},
                }
                let key = ReviewKey {
                    card_id: self.reveals[j].card_id.clone(),
                    content_version: self.reveals[j].content_version.clone(),
                };
                let current: Option<u64> = match self.states.get(&key) {
                    Some(st) => Some(st.last_event_sequence),
                    None => None,
                };
                if current != self.reveals[j].prior_review_sequence {
                    return Err("review was recorded from a stale answer release".to_string());
                }
            },
            None => {},
        }
        if self.event_index(event.event_id.as_str()).is_some() {
            return Err("duplicate review event id".to_string());
        }
        self.commit_review(event);
        Ok(())
    }

    /// Replay an answer release read back from the log: on success it is
    /// added; on a complaint the log is left as it was.
    pub fn load_reveal(&mut self, event: RevealEvent) -> (r: Result<(), String>)
        requires
            old(self).wf(),
            old(self)@.next_sequence < u64::MAX,
        ensures
            final(self).wf(),
            match load_reveal_fault(old(self)@, event) {
                None => r is Ok && final(self)@.events == old(self)@.events
                    && final(self)@.reveals == old(self)@.reveals.push(event)
                    && final(self)@.states == old(self)@.states && final(self)@.next_sequence
                    == old(self)@.next_sequence + 1 && final(self)@.poisoned
                    == old(self)@.poisoned,
                Some(m) => r matches Err(e) && e@ == m && final(self)@ == old(self)@,
            },
    {
        match validate_loaded_reveal(&event, self.next_sequence, &self.states) {
            Err(m) => {
                return Err(m);
            },
            Ok(()) => {},
        }
        if self.event_index(event.event_id.as_str()).is_some() {
            return Err("answer release appears after its review event".to_string());
        }
        if self.reveal_index(event.event_id.as_str()).is_some() {
            return Err("duplicate reveal event id".to_string());
        }
        self.commit_reveal(event);
        Ok(())
    }
}

/// The length of a log's prefix up to and including its last newline: the
/// records in it are complete, and anything after it is an interrupted
/// append.
pub open spec fn complete_len_spec(b: Seq<u8>, k: int) -> int
    decreases k,
{
    if k <= 0 {
        0
    } else if b[k - 1] == 10u8 {
        k
    } else {
        complete_len_spec(b, k - 1)
    }
}

proof fn lemma_complete_len(b: Seq<u8>, k: int)
    requires
        0 <= k <= b.len(),
    ensures
        0 <= complete_len_spec(b, k) <= k,
        complete_len_spec(b, k) > 0 ==> b[complete_len_spec(b, k) - 1] == 10u8,
    decreases k,
{
    if k > 0 && b[k - 1] != 10u8 {
        lemma_complete_len(b, k - 1);
    }
}

/// The length of the complete records of a log's bytes.
pub fn complete_len(bytes: &[u8]) -> (r: usize)
    ensures
        r == complete_len_spec(bytes@, bytes@.len() as int),
        r <= bytes@.len(),
{
    let mut k = bytes.len();
    proof {
        lemma_complete_len(bytes@, k as int);
    }
    while k > 0 && bytes[k - 1] != 10u8
        invariant
            k <= bytes@.len(),
            complete_len_spec(bytes@, bytes@.len() as int) == complete_len_spec(bytes@, k as int),
        decreases k,
    {
        k -= 1;
    }
    k
}

/// The index of the first newline at or after `k`, or the length.
pub open spec fn next_newline(b: Seq<u8>, k: int) -> int
    decreases b.len() - k,
{
    if k < 0 || k >= b.len() {
        b.len() as int
    } else if b[k] == 10u8 {
        k
    } else {
        next_newline(b, k + 1)
    }
}

pub proof fn lemma_next_newline(b: Seq<u8>, k: int)
    requires
        0 <= k,
    ensures
        k <= b.len() ==> k <= next_newline(b, k) <= b.len(),
    decreases b.len() - k,
{
    if k < b.len() && b[k] != 10u8 {
        lemma_next_newline(b, k + 1);
    }
}

proof fn lemma_next_newline_at(b: Seq<u8>, k: int, i: int)
    requires
        0 <= k <= i < b.len(),
        b[i] == 10u8,
        forall|j: int| k <= j < i ==> b[j] != 10u8,
    ensures
        next_newline(b, k) == i,
    decreases i - k,
{
    if k < i {
        lemma_next_newline_at(b, k + 1, i);
    }
}

/// The newline-separated records of `b` from index `k` on; a final piece
/// with no newline after it counts as a record unless it is empty.
pub open spec fn lines_from(b: Seq<u8>, k: int) -> Seq<Seq<u8>>
    decreases b.len() - k,
{
    if k < 0 || k >= b.len() {
        Seq::empty()
    } else {
        let e = next_newline(b, k);
        proof {
            lemma_next_newline(b, k);
        }
        if e >= b.len() {
            seq![b.subrange(k, e)]
        } else {
            seq![b.subrange(k, e)].add(lines_from(b, e + 1))
        }
    }
}

/// The records of a log file: the newline-terminated lines of its complete
/// prefix, in order (blank ones included, for the caller to refuse).
pub fn log_lines(bytes: &[u8]) -> (r: Vec<Vec<u8>>)
    ensures
        r@.map_values(|v: Vec<u8>| v@) == lines_from(
            bytes@.take(complete_len_spec(bytes@, bytes@.len() as int)),
            0,
        ),
{
    let n = complete_len(bytes);
    let ghost c = bytes@.take(n as int);
    proof {
        lemma_complete_len(bytes@, bytes@.len() as int);
    }
    let mut out: Vec<Vec<u8>> = Vec::new();
    let mut start: usize = 0;
    let mut i: usize = 0;
    while i < n
        invariant
            n <= bytes@.len(),
            c == bytes@.take(n as int),
            n > 0 ==> c[n - 1] == 10u8,
            start <= i <= n,
            forall|j: int| start <= j < i ==> c[j] != 10u8,
            out@.map_values(|v: Vec<u8>| v@) + lines_from(c, start as int) == lines_from(c, 0),
        decreases n - i,
    {
        if bytes[i] == 10u8 {
            let piece = vstd::slice::slice_to_vec(vstd::slice::slice_subrange(bytes, start, i));
            proof {
                lemma_next_newline_at(c, start as int, i as int);
                assert(piece@ =~= c.subrange(start as int, i as int));
                assert(lines_from(c, start as int) == seq![c.subrange(start as int, i as int)].add(
                    lines_from(c, i + 1),
                ));
            }
            let ghost before = out@.map_values(|v: Vec<u8>| v@);
            out.push(piece);
            proof {
                assert(out@.map_values(|v: Vec<u8>| v@) =~= before.push(piece@));
                assert(before.push(piece@) + lines_from(c, i + 1) =~= before + (seq![
                    c.subrange(start as int, i as int),
                ].add(lines_from(c, i + 1))));
            }
            start = i + 1;
        }
        i += 1;
    }
    proof {
        if start < n {
            assert(c[n - 1] != 10u8);
        }
        assert(out@.map_values(|v: Vec<u8>| v@) + lines_from(c, start as int) =~= out@.map_values(
            |v: Vec<u8>| v@,
        ));
    }
    out
}

/// A found review lies within the events and carries the id.
proof fn lemma_find_event(events: Seq<ReviewEvent>, id: Seq<char>, k: int)
    requires
        0 <= k,
    ensures
        find_event(events, id, k) matches Some(i) ==> k <= i < events.len() && events[i].event_id@
            == id,
        find_event(events, id, k) is None ==> forall|j: int|
            k <= j < events.len() && 0 <= j ==> #[trigger] events[j].event_id@ != id,
    decreases events.len() - k,
{
    if 0 <= k < events.len() && events[k].event_id@ != id {
        lemma_find_event(events, id, k + 1);
    }
}

/// Searching a log extended by one review finds what it found before, and
/// otherwise the new review when it carries the id.
proof fn lemma_find_event_push(events: Seq<ReviewEvent>, e: ReviewEvent, id: Seq<char>)
    requires
        find_event(events, id, 0) is None,
        e.event_id@ == id,
    ensures
        find_event(events.push(e), id, 0) == Some(events.len() as int),
{
    lemma_find_event(events, id, 0);
    lemma_find_event(events.push(e), id, 0);
    let f = find_event(events.push(e), id, 0);
    if f is Some {
        let i = f->0;
        if i < events.len() {
            assert(events.push(e)[i] == events[i]);
        }
    } else {
        assert(events.push(e)[events.len() as int].event_id@ == id);
    }
}

/// Recording is idempotent: once a new review has been appended, recording
/// the same input again is answered with the stored review and appends
/// nothing.
pub proof fn lemma_record_idempotent(v: LogView, input: ReviewInput, e: ReviewEvent, w: LogView)
    requires
        review_outcome(v, input) == Ok::<Option<int>, LogFaultView>(None),
        derived_from(
            e,
            v.next_sequence,
            prior_state(v.states, input.key.card_id@, input.key.content_version@),
            input,
        ),
        w.events == v.events.push(e),
        w.reveals == v.reveals,
        w.poisoned == v.poisoned,
    ensures
        review_outcome(w, input) == Ok::<Option<int>, LogFaultView>(Some(v.events.len() as int)),
{
    assert(input_of(e) == input);
    lemma_find_event_push(v.events, e, input.event_id@);
}

/// What the log accepts it also reads back: a review appended after the
/// log `v` replays without complaint from `v`, so reopening the file
/// rebuilds the same log.
pub proof fn lemma_record_replays(v: LogView, input: ReviewInput, e: ReviewEvent)
    requires
        review_outcome(v, input) == Ok::<Option<int>, LogFaultView>(None),
        derived_from(
            e,
            v.next_sequence,
            prior_state(v.states, input.key.card_id@, input.key.content_version@),
            input,
        ),
    ensures
        load_review_fault(v, e) is None,
{
    assert(input_of(e) == input);
}

/// The same holds of answer releases: a release appended after the log `v`
/// replays without complaint from `v`.
pub proof fn lemma_reveal_replays(v: LogView, input: RevealInput, e: RevealEvent)
    requires
        reveal_outcome(v, input) == Ok::<Option<int>, LogFaultView>(None),
        reveal_derived(e, v.next_sequence, v.states, input),
    ensures
        load_reveal_fault(v, e) is None,
{
    assert(reveal_input_of(e) == input);
}

/// Releasing an answer is idempotent in the same way: a retried release
/// with the same input is answered with the stored one.
pub proof fn lemma_reveal_idempotent(v: LogView, input: RevealInput, e: RevealEvent, w: LogView)
    requires
        reveal_outcome(v, input) == Ok::<Option<int>, LogFaultView>(None),
        reveal_derived(e, v.next_sequence, v.states, input),
        w.events == v.events,
        w.reveals == v.reveals.push(e),
        w.poisoned == v.poisoned,
    ensures
        reveal_outcome(w, input) == Ok::<Option<int>, LogFaultView>(Some(v.reveals.len() as int)),
{
    assert(reveal_input_of(e) == input);
    lemma_find_reveal_push(v.reveals, e, input.event_id@);
    assert(same_feedback(input.feedback, input.feedback));
}

proof fn lemma_find_reveal(reveals: Seq<RevealEvent>, id: Seq<char>, k: int)
    requires
        0 <= k,
    ensures
        find_reveal(reveals, id, k) matches Some(i) ==> k <= i < reveals.len()
            && reveals[i].event_id@ == id,
        find_reveal(reveals, id, k) is None ==> forall|j: int|
            k <= j < reveals.len() && 0 <= j ==> #[trigger] reveals[j].event_id@ != id,
    decreases reveals.len() - k,
{
    if 0 <= k < reveals.len() && reveals[k].event_id@ != id {
        lemma_find_reveal(reveals, id, k + 1);
    }
}

proof fn lemma_find_reveal_push(reveals: Seq<RevealEvent>, e: RevealEvent, id: Seq<char>)
    requires
        find_reveal(reveals, id, 0) is None,
        e.event_id@ == id,
    ensures
        find_reveal(reveals.push(e), id, 0) == Some(reveals.len() as int),
{
    lemma_find_reveal(reveals, id, 0);
    lemma_find_reveal(reveals.push(e), id, 0);
    let f = find_reveal(reveals.push(e), id, 0);
    if f is Some {
        let i = f->0;
        if i < reveals.len() {
            assert(reveals.push(e)[i] == reveals[i]);
        }
    } else {
        assert(reveals.push(e)[reveals.len() as int].event_id@ == id);
    }
}

/// One complete line of the log as read: empty, a review, an answer
/// release, or a record that could not be read (with the reason).
pub enum LogRecord {
    Blank,
    Review(ReviewEvent),
    Reveal(RevealEvent),
    Unreadable(String),
}

/// The reviews among `recs`, in order.
pub open spec fn reviews_of(recs: Seq<LogRecord>) -> Seq<ReviewEvent>
    decreases recs.len(),
{
    if recs.len() == 0 {
        Seq::empty()
    } else {
        let p = reviews_of(recs.drop_last());
        match recs.last() {
            LogRecord::Review(e) => p.push(e),
            _ => p,
        }
    }
}

/// The answer releases among `recs`, in order.
pub open spec fn reveals_of(recs: Seq<LogRecord>) -> Seq<RevealEvent>
    decreases recs.len(),
{
    if recs.len() == 0 {
        Seq::empty()
    } else {
        let p = reveals_of(recs.drop_last());
        match recs.last() {
            LogRecord::Reveal(e) => p.push(e),
            _ => p,
        }
    }
}

/// Every record of `recs` is a review or an answer release.
pub open spec fn all_records(recs: Seq<LogRecord>) -> bool {
    forall|i: int| 0 <= i < recs.len() ==> (#[trigger] recs[i] is Review || recs[i] is Reveal)
}

/// Why replaying stops at record `k` of `recs` (read after the records
/// before it loaded into a log `w`), if it does: a blank line that is not
/// the last, an unreadable record, or a review or release the log refuses.
pub open spec fn record_fault(recs: Seq<LogRecord>, k: int, w: LogView) -> Option<Seq<char>> {
    match recs[k] {
        LogRecord::Blank => if k + 1 < recs.len() {
            Some("blank records are not allowed"@)
        } else {
            None
        },
        LogRecord::Unreadable(t) => Some(t@),
        LogRecord::Review(e) => load_review_fault(w, e),
        LogRecord::Reveal(e) => load_reveal_fault(w, e),
    }
}

/// A log view that the records `recs` (all reviews or releases) loaded
/// into, from an empty log: their reviews and releases in order, one
/// sequence number each, the states kept by the reviews.
pub open spec fn loaded_from(w: LogView, recs: Seq<LogRecord>) -> bool {
    &&& w.events == reviews_of(recs)
    &&& w.reveals == reveals_of(recs)
    &&& w.next_sequence == recs.len() + 1
    &&& !w.poisoned
}

/// Rebuild the log from the records of its complete lines, in order (the
/// line after the last newline is the final, empty one). A blank line
/// anywhere else, an unreadable record, or a review or release the log
/// refuses stops the replay with the 1-based line number and the reason.
pub fn replay(records: Vec<LogRecord>) -> (r: Result<ReviewLog, (usize, String)>)
    requires
        records@.len() + 2 < u64::MAX,
    ensures
        match r {
            Ok(log) => log.wf() && exists|n: int|
                #![trigger records@.take(n)]
                (n == records@.len() || (n + 1 == records@.len() && records@.last() is Blank))
                    && all_records(records@.take(n)) && loaded_from(log@, records@.take(n)),
            Err((line, m)) => 1 <= line <= records@.len() && all_records(records@.take(line - 1))
                && exists|w: LogView|
                #[trigger] loaded_from(w, records@.take(line - 1)) && record_fault(records@, line - 1, w)
                    == Some(m@),
        },
{
    let mut log = ReviewLog::new();
    let n = records.len();
    let ghost all = records@;
    let mut rest = records;
    let mut rev: Vec<LogRecord> = Vec::new();
    while rest.len() > 0
        invariant
            rest@.len() + rev@.len() == n,
            n == all.len(),
            forall|k: int| 0 <= k < rest@.len() ==> #[trigger] rest@[k] == all[k],
            forall|k: int| 0 <= k < rev@.len() ==> #[trigger] rev@[k] == all[n - 1 - k],
        decreases rest@.len(),
    {
        let x = rest.pop().unwrap();
        rev.push(x);
    }
    let mut i: usize = 0;
    while i < n
        invariant
            i <= n,
            n == all.len(),
            all == records@,
            n + 2 < u64::MAX,
            rev@.len() == n - i,
            forall|k: int| 0 <= k < rev@.len() ==> #[trigger] rev@[k] == all[n - 1 - k],
            log.wf(),
            all_records(all.take(i as int)),
            loaded_from(log@, all.take(i as int)),
        decreases n - i,
    {
        let ghost w = log@;
        let ghost pre = all.take(i as int);
        proof {
            assert(all.take(i + 1).drop_last() =~= pre);
            assert(all.take(i + 1).last() == all[i as int]);
        }
        let rec = rev.pop().unwrap();
        assert(rec == all[i as int]);
        match rec {
            LogRecord::Blank => {
                if i + 1 == n {
                    assert(all.last() is Blank);
                    assert(loaded_from(log@, records@.take(i as int)) && all_records(records@.take(i as int)));
                    return Ok(log);
                }
                let m = "blank records are not allowed".to_string();
                assert(record_fault(records@, i as int, w) == Some(m@));
                assert(loaded_from(w, records@.take(i as int)));
                return Err((i + 1, m));
            },
            LogRecord::Unreadable(t) => {
                return Err((i + 1, t));
            },
            LogRecord::Review(e) => {
                match log.load_review(e) {
                    Ok(()) => {},
                    Err(m) => {
                        assert(loaded_from(w, records@.take(i as int)));
                        assert(record_fault(records@, i as int, w) == Some(m@));
                        assert(all_records(records@.take(i as int)));
                        assert(1 <= i + 1 <= records@.len());
                        return Err((i + 1, m));
                    },
                }
            },
            LogRecord::Reveal(e) => {
                match log.load_reveal(e) {
                    Ok(()) => {},
                    Err(m) => {
                        assert(loaded_from(w, records@.take(i as int)));
                        assert(record_fault(records@, i as int, w) == Some(m@));
                        assert(all_records(records@.take(i as int)));
                        assert(1 <= i + 1 <= records@.len());
                        return Err((i + 1, m));
                    },
                }
            },
        }
        i += 1;
        proof {
            assert forall|k: int| 0 <= k < i implies (#[trigger] all.take(i as int)[k] is Review
                || all.take(i as int)[k] is Reveal) by {
                if k < i - 1 {
                    assert(all.take(i as int)[k] == pre[k]);
                }
            }
        }
    }
    assert(all.take(n as int) =~= all);
    Ok(log)
}

} // verus!
