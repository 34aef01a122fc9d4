//! The review service behind the trainer's private review pages: it hands
//! out one answer-free prompt at a time, keeps server-timed pending
//! attempts, releases the answer only after a committed response, and
//! records the eventual self-grade. Time comes in as arguments (wall-clock
//! milliseconds and a monotonic millisecond counter), and each durable
//! write is handed to the caller as a record to append, after which the
//! caller reports back.
use crate::cards::{
    copy_feedback, fault_text, find_card, opt_text, same_feedback, CardFeedback, CardKey,
    CardView, Catalog, TrainingCard,
};
use crate::http::same_text;
use crate::review::{
    derived_from, distinct_keys, key_texts, prior_state, summary_fits, summary_over, summary_spec, ReviewGrade, ReviewInput, ReviewKey,
    ReviewSummary, SummaryView, DAY_MS,
};
use crate::review_log::{
    same_reveal_input, last_sequence, pending_in, find_event, find_reveal, input_of, reveal_derived, reveal_input_of, review_outcome,
    reveal_outcome, LogFault, LogFaultView, LogView, ReviewLog,
};
use crate::review::{RevealEvent, RevealInput, ReviewEvent};
use vstd::prelude::*;

verus! {

/// At most this many attempts are kept pending.
pub const MAX_PENDING_ATTEMPTS: usize = 256;

/// An unrevealed attempt expires after thirty minutes.
pub const PENDING_TTL_MS: u64 = 1_800_000;

/// A request for the next card.
pub struct NextRequest {}

/// A request to release the answer of an attempt: either a committed move
/// with its reason, or a give-up.
pub struct RevealRequest {
    pub attempt_id: String,
    pub move_uci: Option<String>,
    pub reason_present: bool,
    pub gave_up: bool,
}

/// A self-grade of a revealed attempt.
pub struct GradeRequest {
    pub attempt_id: String,
    pub outcome: ReviewGrade,
}

/// What an attempt's answer release recorded.
#[derive(Clone, Debug)]
pub struct RevealedAttempt {
    pub feedback: CardFeedback,
    pub response_uci: Option<String>,
    pub hint_used: bool,
    pub latency_ms: u64,
    pub revealed_at_unix_ms: i64,
    pub assurance: String,
    pub confirmation_nodes_per_position: u64,
    pub analysis_config_version: String,
}

/// An attempt handed out and not yet forgotten.
pub struct PendingAttempt {
    pub key: CardKey,
    pub expected_last_event_sequence: Option<u64>,
    pub shown_at_mono_ms: u64,
    pub shown_at_unix_ms: i64,
    pub revealed: Option<RevealedAttempt>,
    pub recorded_at_unix_ms: Option<i64>,
    pub recorded_grade: Option<ReviewGrade>,
}

/// The review queue: scheduled cards due now, new cards still allowed
/// today, active cards, and active cards reviewed in the last day.
#[derive(Clone, Copy, Debug, PartialEq, Eq, Structural)]
pub struct QueueCounts {
    pub due: usize,
    pub new: usize,
    pub active: usize,
    pub reviewed_24h: usize,
}

/// `a - b` held at zero.
pub open spec fn sat_sub(a: int, b: int) -> int {
    if a >= b {
        a - b
    } else {
        0
    }
}

/// The start of the day-long window that ends at `now`.
pub open spec fn window_start(now: i64) -> int {
    if now as int - DAY_MS >= i64::MIN {
        now - DAY_MS
    } else {
        i64::MIN as int
    }
}

fn window_start_of(now: i64) -> (r: i64)
    ensures
        r == window_start(now),
{
    if now >= i64::MIN + DAY_MS {
        now - DAY_MS
    } else {
        i64::MIN
    }
}

/// The identities of the deck's cards, in deck order.
pub open spec fn active_keys(cards: Seq<CardView>) -> Seq<(Seq<char>, Seq<char>)> {
    cards.map_values(|c: CardView| (c.card_id, c.content_version))
}

/// `ids` with `id` added unless it is already there.
pub open spec fn add_text(ids: Seq<Seq<char>>, id: Seq<char>) -> Seq<Seq<char>> {
    if ids.contains(id) {
        ids
    } else {
        ids.push(id)
    }
}

/// `keys` with `k` added unless it is already there.
pub open spec fn add_key(
    keys: Seq<(Seq<char>, Seq<char>)>,
    k: (Seq<char>, Seq<char>),
) -> Seq<(Seq<char>, Seq<char>)> {
    if keys.contains(k) {
        keys
    } else {
        keys.push(k)
    }
}

/// A release of a new card's answer within the window, for an active card.
pub open spec fn new_release(r: RevealEvent, active: Seq<(Seq<char>, Seq<char>)>, start: int) -> bool {
    &&& r.revealed_at_unix_ms >= start
    &&& r.prior_review_sequence is None
    &&& active.contains((r.card_id@, r.content_version@))
}

/// A first review of an active card shown within the window and recorded
/// without an answer release.
pub open spec fn new_review(
    e: ReviewEvent,
    reveals: Seq<RevealEvent>,
    active: Seq<(Seq<char>, Seq<char>)>,
    start: int,
) -> bool {
    &&& find_reveal(reveals, e.event_id@, 0) is None
    &&& e.shown_at_unix_ms >= start
    &&& e.prior_due_at_unix_ms is None
    &&& active.contains((e.card_id@, e.content_version@))
}

/// The distinct event ids of the new-card releases among `rs`.
pub open spec fn release_ids(
    rs: Seq<RevealEvent>,
    active: Seq<(Seq<char>, Seq<char>)>,
    start: int,
) -> Seq<Seq<char>>
    decreases rs.len(),
{
    if rs.len() == 0 {
        Seq::empty()
    } else {
        let d = release_ids(rs.drop_last(), active, start);
        if new_release(rs.last(), active, start) {
            add_text(d, rs.last().event_id@)
        } else {
            d
        }
    }
}

/// `init` extended by the distinct event ids of the first reviews among
/// `es`.
pub open spec fn review_ids(
    es: Seq<ReviewEvent>,
    reveals: Seq<RevealEvent>,
    active: Seq<(Seq<char>, Seq<char>)>,
    start: int,
    init: Seq<Seq<char>>,
) -> Seq<Seq<char>>
    decreases es.len(),
{
    if es.len() == 0 {
        init
    } else {
        let d = review_ids(es.drop_last(), reveals, active, start, init);
        if new_review(es.last(), reveals, active, start) {
            add_text(d, es.last().event_id@)
        } else {
            d
        }
    }
}

/// How many new cards were started (revealed, or reviewed without a
/// release) in the day before `now`: distinct event ids.
pub open spec fn new_started(v: LogView, cards: Seq<CardView>, now: i64) -> int {
    let active = active_keys(cards);
    let start = window_start(now);
    review_ids(v.events, v.reveals, active, start, release_ids(v.reveals, active, start)).len() as int
}

/// The distinct active keys reviewed in the window, over `es`.
pub open spec fn reviewed_keys(
    es: Seq<ReviewEvent>,
    active: Seq<(Seq<char>, Seq<char>)>,
    start: int,
) -> Seq<(Seq<char>, Seq<char>)>
    decreases es.len(),
{
    if es.len() == 0 {
        Seq::empty()
    } else {
        let d = reviewed_keys(es.drop_last(), active, start);
        let e = es.last();
        if e.reviewed_at_unix_ms >= start && active.contains((e.card_id@, e.content_version@)) {
            add_key(d, (e.card_id@, e.content_version@))
        } else {
            d
        }
    }
}

/// The queue at `now` given the deck's summary `s`: scheduled cards due
/// (due cards that are not new), new cards still allowed (today's
/// allowance less what was started, and no more than there are), active
/// cards, and active cards reviewed in the last day.
pub open spec fn queue_spec(v: LogView, cat: crate::cards::CatalogView, now: i64) -> (int, int, int, int) {
    let s = deck_summary(v, cat.cards, now);
    let allowed = sat_sub(cat.new_per_day as int, new_started(v, cat.cards, now));
    (
        sat_sub(s.due_cards, s.new_cards),
        if allowed < s.new_cards {
            allowed
        } else {
            s.new_cards
        },
        s.active_cards,
        reviewed_keys(v.events, active_keys(cat.cards), window_start(now)).len() as int,
    )
}

/// The distinct keys of `ks`, in order of first occurrence.
pub open spec fn distinct_texts(ks: Seq<(Seq<char>, Seq<char>)>) -> Seq<(Seq<char>, Seq<char>)>
    decreases ks.len(),
{
    if ks.len() == 0 {
        Seq::empty()
    } else {
        add_key(distinct_texts(ks.drop_last()), ks.last())
    }
}

/// Distinct review keys depend on the keys' texts alone.
proof fn lemma_distinct_texts(ks: Seq<ReviewKey>)
    ensures
        distinct_keys(ks) == distinct_texts(ks.map_values(|k: ReviewKey| key_texts(k))),
    decreases ks.len(),
{
    if ks.len() > 0 {
        lemma_distinct_texts(ks.drop_last());
        assert(ks.drop_last().map_values(|k: ReviewKey| key_texts(k)) =~= ks.map_values(
            |k: ReviewKey| key_texts(k),
        ).drop_last());
    }
}

/// The summary of the deck's cards.
pub open spec fn deck_summary(v: LogView, cards: Seq<CardView>, now: i64) -> SummaryView {
    summary_over(v.states, distinct_texts(active_keys(cards)), now as int)
}

/// The totals of the deck's summary fit a `u64`.
pub open spec fn deck_fits(v: LogView, cards: Seq<CardView>, now: i64) -> bool {
    let s = deck_summary(v, cards, now);
    &&& s.attempts <= u64::MAX
    &&& s.hints <= u64::MAX
    &&& s.lapses <= u64::MAX
    &&& s.reference_matches <= u64::MAX
    &&& s.delayed_attempts <= u64::MAX
    &&& s.delayed_passes <= u64::MAX
}

/// A record waiting to be made durable by the caller.
pub enum Staged {
    Nothing,
    Review(ReviewEvent),
    Reveal(RevealEvent),
}

/// The review service: the deck, the review log (and the name of its file,
/// for messages), the attempts handed out (by attempt id), and the record
/// waiting to be written, if any.
pub struct ReviewApi {
    catalog: Catalog,
    log: ReviewLog,
    log_path: String,
    pending: Vec<(String, PendingAttempt)>,
    staged: Staged,
}

/// The content of a [`ReviewApi`].
pub struct ApiView {
    pub catalog: crate::cards::CatalogView,
    pub log: LogView,
    pub log_path: Seq<char>,
    pub pending: Seq<(String, PendingAttempt)>,
    pub staged: Staged,
}

impl View for ReviewApi {
    type V = ApiView;

    closed spec fn view(&self) -> ApiView {
        ApiView {
            catalog: self.catalog@,
            log: self.log@,
            log_path: self.log_path@,
            pending: self.pending@,
            staged: self.staged,
        }
    }
}

/// A staged record is the one the log decided to append next.
pub open spec fn staged_ok(v: LogView, st: Staged) -> bool {
    match st {
        Staged::Nothing => true,
        Staged::Review(e) => derived_from(
            e,
            v.next_sequence,
            prior_state(v.states, e.card_id@, e.content_version@),
            input_of(e),
        ) && review_outcome(v, input_of(e)) == Ok::<Option<int>, LogFaultView>(None),
        Staged::Reveal(e) => reveal_derived(e, v.next_sequence, v.states, reveal_input_of(e))
            && reveal_outcome(v, reveal_input_of(e)) == Ok::<Option<int>, LogFaultView>(None),
    }
}

/// The texts of some strings.
pub open spec fn texts_of(v: Seq<String>) -> Seq<Seq<char>> {
    v.map_values(|s: String| s@)
}

/// Whether one of `v` holds the text `t`.
fn texts_contain(v: &Vec<String>, t: &str) -> (r: bool)
    ensures
        r == texts_of(v@).contains(t@),
{
    let mut i: usize = 0;
    while i < v.len()
        invariant
            i <= v@.len(),
            forall|j: int| 0 <= j < i ==> #[trigger] v@[j]@ != t@,
        decreases v@.len() - i,
    {
        if same_text(v[i].as_str(), t) {
            assert(texts_of(v@)[i as int] == t@);
            return true;
        }
        i += 1;
    }
    proof {
        if texts_of(v@).contains(t@) {
            let j = choose|j: int| 0 <= j < texts_of(v@).len() && texts_of(v@)[j] == t@;
            assert(v@[j]@ == t@);
        }
    }
    false
}

/// Whether one of `v` holds the key texts `(a, b)`.
fn keys_contain(v: &Vec<ReviewKey>, a: &str, b: &str) -> (r: bool)
    ensures
        r == v@.map_values(|k: ReviewKey| key_texts(k)).contains((a@, b@)),
{
    let ghost m = v@.map_values(|k: ReviewKey| key_texts(k));
    let mut i: usize = 0;
    while i < v.len()
        invariant
            i <= v@.len(),
            m == v@.map_values(|k: ReviewKey| key_texts(k)),
            forall|j: int| 0 <= j < i ==> #[trigger] m[j] != (a@, b@),
        decreases v@.len() - i,
    {
        if same_text(v[i].card_id.as_str(), a) && same_text(v[i].content_version.as_str(), b) {
            assert(m[i as int] == (a@, b@));
            return true;
        }
        i += 1;
    }
    proof {
        if m.contains((a@, b@)) {
            let j = choose|j: int| 0 <= j < m.len() && m[j] == (a@, b@);
            assert(m[j] != (a@, b@));
        }
    }
    false
}

/// The review key of a card identity.
pub fn review_key(key: &CardKey) -> (r: ReviewKey)
    ensures
        r.card_id == key.card_id,
        r.content_version == key.content_version,
{
    ReviewKey { card_id: key.card_id.clone(), content_version: key.content_version.clone() }
}

impl ReviewApi {
    /// The service's invariant: that of its log, and a staged record is
    /// what the log decided to append next.
    pub closed spec fn wf(&self) -> bool {
        &&& self.log.wf()
        &&& staged_ok(self.log@, self.staged)
    }

    /// The deck's title.
    pub fn deck_title(&self) -> (r: &str)
        ensures
            r@ == self@.catalog.title,
    {
        self.catalog.title()
    }

    /// The review keys of the deck's cards, in deck order.
    fn active_review_keys(&self) -> (r: Vec<ReviewKey>)
        ensures
            r@.map_values(|k: ReviewKey| key_texts(k)) == active_keys(self@.catalog.cards),
    {
        let cards = self.catalog.cards();
        let mut out: Vec<ReviewKey> = Vec::new();
        let mut i: usize = 0;
        while i < cards.len()
            invariant
                i <= cards@.len(),
                cards@.map_values(|c: TrainingCard| c@) == self@.catalog.cards,
                out@.map_values(|k: ReviewKey| key_texts(k)) == active_keys(self@.catalog.cards).take(
                    i as int,
                ),
            decreases cards@.len() - i,
        {
            let ck = cards[i].key();
            let k = ReviewKey { card_id: ck.card_id, content_version: ck.content_version };
            let ghost before = out@;
            out.push(k);
            proof {
                assert(self@.catalog.cards[i as int] == cards@[i as int]@);
                assert(out@ == before.push(k));
                assert(out@.map_values(|k: ReviewKey| key_texts(k)) =~= before.map_values(
                    |k: ReviewKey| key_texts(k),
                ).push(key_texts(k)));
                assert(out@.map_values(|k: ReviewKey| key_texts(k)) =~= active_keys(
                    self@.catalog.cards,
                ).take(i + 1));
            }
            i += 1;
        }
        assert(active_keys(self@.catalog.cards).take(cards@.len() as int) =~= active_keys(
            self@.catalog.cards,
        ));
        out
    }

    /// How many new cards were started in the day before `now`.
    fn new_revealed_24h(&self, active: &Vec<ReviewKey>, now: i64) -> (r: usize)
        requires
            active@.map_values(|k: ReviewKey| key_texts(k)) == active_keys(self@.catalog.cards),
        ensures
            r == new_started(self@.log, self@.catalog.cards, now),
    {
        let ghost act = active_keys(self@.catalog.cards);
        let start = window_start_of(now);
        let reveals = self.log.reveals();
        let mut ids: Vec<String> = Vec::new();
        let mut i: usize = 0;
        while i < reveals.len()
            invariant
                i <= reveals@.len(),
                reveals@ == self@.log.reveals,
                act == active@.map_values(|k: ReviewKey| key_texts(k)),
                texts_of(ids@) == release_ids(reveals@.take(i as int), act, start as int),
            decreases reveals@.len() - i,
        {
            let r = &reveals[i];
            proof {
                assert(reveals@.take(i + 1).drop_last() =~= reveals@.take(i as int));
                assert(reveals@.take(i + 1).last() == reveals@[i as int]);
            }
            if r.revealed_at_unix_ms >= start && r.prior_review_sequence.is_none() && keys_contain(
                active,
                r.card_id.as_str(),
                r.content_version.as_str(),
            ) && !texts_contain(&ids, r.event_id.as_str()) {
                ids.push(r.event_id.clone());
                proof {
                    assert(texts_of(ids@) =~= texts_of(ids@).drop_last().push(r.event_id@));
                }
            }
            i += 1;
        }
        assert(reveals@.take(reveals@.len() as int) =~= reveals@);
        let ghost init = texts_of(ids@);
        let events = self.log.events();
        let mut k: usize = 0;
        while k < events.len()
            invariant
                k <= events@.len(),
                events@ == self@.log.events,
                reveals@ == self@.log.reveals,
                act == active@.map_values(|k: ReviewKey| key_texts(k)),
                init == release_ids(reveals@, act, start as int),
                texts_of(ids@) == review_ids(events@.take(k as int), reveals@, act, start as int, init),
            decreases events@.len() - k,
        {
            let e = &events[k];
            proof {
                assert(events@.take(k + 1).drop_last() =~= events@.take(k as int));
                assert(events@.take(k + 1).last() == events@[k as int]);
            }
            if !self.log.has_reveal(e.event_id.as_str()) && e.shown_at_unix_ms >= start
                && e.prior_due_at_unix_ms.is_none() && keys_contain(
                active,
                e.card_id.as_str(),
                e.content_version.as_str(),
            ) && !texts_contain(&ids, e.event_id.as_str()) {
                ids.push(e.event_id.clone());
                proof {
                    assert(texts_of(ids@) =~= texts_of(ids@).drop_last().push(e.event_id@));
                }
            }
            k += 1;
        }
        assert(events@.take(events@.len() as int) =~= events@);
        ids.len()
    }

    /// How many distinct active cards were reviewed in the day before `now`.
    fn reviewed_24h(&self, active: &Vec<ReviewKey>, now: i64) -> (r: usize)
        requires
            active@.map_values(|k: ReviewKey| key_texts(k)) == active_keys(self@.catalog.cards),
        ensures
            r == reviewed_keys(self@.log.events, active_keys(self@.catalog.cards), window_start(now)).len(),
    {
        let ghost act = active_keys(self@.catalog.cards);
        let start = window_start_of(now);
        let events = self.log.events();
        let mut seen: Vec<ReviewKey> = Vec::new();
        let mut k: usize = 0;
        while k < events.len()
            invariant
                k <= events@.len(),
                events@ == self@.log.events,
                act == active@.map_values(|k: ReviewKey| key_texts(k)),
                seen@.map_values(|k: ReviewKey| key_texts(k)) == reviewed_keys(
                    events@.take(k as int),
                    act,
                    start as int,
                ),
            decreases events@.len() - k,
        {
            let e = &events[k];
            proof {
                assert(events@.take(k + 1).drop_last() =~= events@.take(k as int));
                assert(events@.take(k + 1).last() == events@[k as int]);
            }
            if e.reviewed_at_unix_ms >= start && keys_contain(
                active,
                e.card_id.as_str(),
                e.content_version.as_str(),
            ) && !keys_contain(&seen, e.card_id.as_str(), e.content_version.as_str()) {
                seen.push(ReviewKey { card_id: e.card_id.clone(), content_version: e.content_version.clone() });
                proof {
                    assert(seen@.map_values(|k: ReviewKey| key_texts(k)) =~= seen@.drop_last().map_values(
                        |k: ReviewKey| key_texts(k),
                    ).push((e.card_id@, e.content_version@)));
                }
            }
            k += 1;
        }
        assert(events@.take(events@.len() as int) =~= events@);
        seen.len()
    }

    /// The deck's summary at `now`, or `None` when a total does not fit.
    fn deck_summary_at(&self, active: &Vec<ReviewKey>, now: i64) -> (r: Option<ReviewSummary>)
        requires
            active@.map_values(|k: ReviewKey| key_texts(k)) == active_keys(self@.catalog.cards),
        ensures
            match r {
                Some(s) => deck_fits(self@.log, self@.catalog.cards, now) && s@ == deck_summary(
                    self@.log,
                    self@.catalog.cards,
                    now,
                ),
                None => !deck_fits(self@.log, self@.catalog.cards, now),
            },
    {
        proof {
            lemma_distinct_texts(active@);
        }
        self.log.states().try_summary(active.as_slice(), now)
    }

    /// The queue at `now`, or `None` when a summary total does not fit.
    pub fn queue_counts(&self, now: i64) -> (r: Option<QueueCounts>)
        ensures
            match r {
                Some(q) => deck_fits(self@.log, self@.catalog.cards, now) && (
                q.due as int,
                q.new as int,
                q.active as int,
                q.reviewed_24h as int,
            ) == queue_spec(self@.log, self@.catalog, now),
                None => !deck_fits(self@.log, self@.catalog.cards, now),
            },
    {
        let active = self.active_review_keys();
        let summary = match self.deck_summary_at(&active, now) {
            Some(s) => s,
            None => {
                return None;
            },
        };
        let started = self.new_revealed_24h(&active, now);
        let allowed = if self.catalog.new_per_day() >= started {
            self.catalog.new_per_day() - started
        } else {
            0
        };
        let new = if allowed < summary.new_cards {
            allowed
        } else {
            summary.new_cards
        };
        let due = if summary.due_cards >= summary.new_cards {
            summary.due_cards - summary.new_cards
        } else {
            0
        };
        let reviewed_24h = self.reviewed_24h(&active, now);
        Some(QueueCounts { due, new, active: summary.active_cards, reviewed_24h })
    }
}

/// Whether an unfinished attempt holds the card `(id, cv)`.
pub open spec fn reserved(pending: Seq<(String, PendingAttempt)>, id: Seq<char>, cv: Seq<char>) -> bool {
    exists|j: int|
        0 <= j < pending.len() && #[trigger] pending[j].1.recorded_grade is None
            && pending[j].1.key.card_id@ == id && pending[j].1.key.content_version@ == cv
}

/// Text order: the first differing character decides, and a proper
/// prefix comes first (the order of `str`, whose UTF-8 bytes sort as their
/// characters do).
pub open spec fn text_lt(a: Seq<char>, b: Seq<char>) -> bool
    decreases a.len(),
{
    if a.len() == 0 {
        b.len() > 0
    } else if b.len() == 0 {
        false
    } else if a[0] != b[0] {
        (a[0] as u32) < (b[0] as u32)
    } else {
        text_lt(a.drop_first(), b.drop_first())
    }
}

fn chars_lt(a: &Vec<char>, b: &Vec<char>) -> (r: bool)
    ensures
        r == text_lt(a@, b@),
{
    let mut i: usize = 0;
    assert(a@.skip(0) =~= a@);
    assert(b@.skip(0) =~= b@);
    while i < a.len() && i < b.len() && a[i] == b[i]
        invariant
            i <= a@.len(),
            i <= b@.len(),
            text_lt(a@, b@) == text_lt(a@.skip(i as int), b@.skip(i as int)),
        decreases a@.len() - i,
    {
        proof {
            assert(a@.skip(i as int).drop_first() =~= a@.skip(i + 1));
            assert(b@.skip(i as int).drop_first() =~= b@.skip(i + 1));
        }
        i += 1;
    }
    if i == a.len() {
        i < b.len()
    } else if i == b.len() {
        false
    } else {
        (a[i] as u32) < (b[i] as u32)
    }
}

/// A card that is due now: not held by an attempt, reviewed before, and
/// its due time has come.
pub open spec fn due_now(v: ApiView, c: CardView, now: i64) -> bool {
    &&& !reserved(v.pending, c.card_id, c.content_version)
    &&& prior_state(v.log.states, c.card_id, c.content_version) matches Some(st)
        && st.due_at_unix_ms <= now
}

/// The due time of a card that has been reviewed.
pub open spec fn due_at(v: ApiView, c: CardView) -> i64 {
    prior_state(v.log.states, c.card_id, c.content_version)->0.due_at_unix_ms
}

/// Whether card `a` goes before card `b` among due cards: earlier due
/// time, then smaller card id.
pub open spec fn due_before(v: ApiView, a: CardView, b: CardView) -> bool {
    due_at(v, a) < due_at(v, b) || (due_at(v, a) == due_at(v, b) && text_lt(a.card_id, b.card_id))
}

/// The first of the due cards among the first `n` in order of due time and
/// card id (the earliest in the deck among equals).
pub open spec fn best_due(v: ApiView, now: i64, n: int) -> Option<int>
    decreases n,
{
    if n <= 0 {
        None
    } else {
        let prev = best_due(v, now, n - 1);
        let c = v.catalog.cards[n - 1];
        if due_now(v, c, now) && (prev is None || due_before(v, c, v.catalog.cards[prev->0])) {
            Some(n - 1)
        } else {
            prev
        }
    }
}

/// The first card in deck order from `k` on that is neither held nor
/// reviewed before.
pub open spec fn first_new(v: ApiView, k: int) -> Option<int>
    decreases v.catalog.cards.len() - k,
{
    if k < 0 || k >= v.catalog.cards.len() {
        None
    } else if !reserved(v.pending, v.catalog.cards[k].card_id, v.catalog.cards[k].content_version)
        && prior_state(v.log.states, v.catalog.cards[k].card_id, v.catalog.cards[k].content_version) is None {
        Some(k)
    } else {
        first_new(v, k + 1)
    }
}

/// The card to show next at `now`: the first due card, else, while new
/// cards are still allowed, the first new one.
pub open spec fn select_spec(v: ApiView, now: i64) -> Option<int> {
    match best_due(v, now, v.catalog.cards.len() as int) {
        Some(k) => Some(k),
        None => if queue_spec(v.log, v.catalog, now).1 == 0 {
            None
        } else {
            first_new(v, 0)
        },
    }
}

proof fn lemma_select_bounds(v: ApiView, now: i64)
    ensures
        select_spec(v, now) matches Some(k) ==> 0 <= k < v.catalog.cards.len(),
{
    lemma_best_due_bounds(v, now, v.catalog.cards.len() as int);
    lemma_first_new_bounds(v, 0);
}

proof fn lemma_best_due_bounds(v: ApiView, now: i64, n: int)
    ensures
        best_due(v, now, n) matches Some(k) ==> 0 <= k < n,
    decreases n,
{
    if n > 0 {
        lemma_best_due_bounds(v, now, n - 1);
    }
}

proof fn lemma_first_new_bounds(v: ApiView, k: int)
    ensures
        first_new(v, k) matches Some(i) ==> k <= i < v.catalog.cards.len(),
    decreases v.catalog.cards.len() - k,
{
    if 0 <= k < v.catalog.cards.len() {
        lemma_first_new_bounds(v, k + 1);
    }
}

impl ReviewApi {
    /// Whether an unfinished attempt holds the card `(id, cv)`.
    fn card_is_reserved(&self, id: &str, cv: &str) -> (r: bool)
        ensures
            r == reserved(self@.pending, id@, cv@),
    {
        let mut j: usize = 0;
        while j < self.pending.len()
            invariant
                j <= self.pending@.len(),
                forall|t: int|
                    0 <= t < j ==> !(#[trigger] self.pending@[t].1.recorded_grade is None
                        && self.pending@[t].1.key.card_id@ == id@
                        && self.pending@[t].1.key.content_version@ == cv@),
            decreases self.pending@.len() - j,
        {
            let p = &self.pending[j].1;
            if p.recorded_grade.is_none() && same_text(p.key.card_id.as_str(), id) && same_text(
                p.key.content_version.as_str(),
                cv,
            ) {
                return true;
            }
            j += 1;
        }
        false
    }

    /// The index in the deck of the card to show next at `now`, or an
    /// error when a summary total does not fit.
    pub fn select_next(&self, now: i64) -> (r: Result<Option<usize>, String>)
        ensures
            select_spec(self@, now) matches Some(k) ==> 0 <= k < self@.catalog.cards.len(),
            self@.catalog.cards.len() <= usize::MAX,
            match r {
                Ok(o) => match select_spec(self@, now) {
                    Some(k) => o == Some(k as usize),
                    None => o is None,
                },
                Err(e) => !deck_fits(self@.log, self@.catalog.cards, now) && e@
                    == "review totals are out of range"@,
            },
    {
        proof {
            lemma_select_bounds(self@, now);
        }
        let cards = self.catalog.cards();
        assert(self@.catalog.cards.len() == cards@.len());
        let mut best: Option<usize> = None;
        let mut best_id: Vec<char> = Vec::new();
        let mut best_due_at: i64 = 0;
        let mut i: usize = 0;
        while i < cards.len()
            invariant
                i <= cards@.len(),
                cards@.map_values(|c: TrainingCard| c@) == self@.catalog.cards,
                match best_due(self@, now, i as int) {
                    Some(k) => best == Some(k as usize) && best_id@ == self@.catalog.cards[k].card_id
                        && best_due_at == due_at(self@, self@.catalog.cards[k]),
                    None => best is None,
                },
                best matches Some(k) ==> k < i,
            decreases cards@.len() - i,
        {
            let ghost c = self@.catalog.cards[i as int];
            let ck = cards[i].key();
            proof {
                assert(c == cards@[i as int]@);
            }
            if !self.card_is_reserved(ck.card_id.as_str(), ck.content_version.as_str()) {
                let rk = ReviewKey { card_id: ck.card_id, content_version: ck.content_version };
                match self.log.state(&rk) {
                    Some(st) => {
                        if st.due_at_unix_ms <= now {
                            let id = crate::text::chars_of(rk.card_id.as_str());
                            let better = match best {
                                None => true,
                                Some(_) => st.due_at_unix_ms < best_due_at || (st.due_at_unix_ms
                                    == best_due_at && chars_lt(&id, &best_id)),
                            };
                            if better {
                                best = Some(i);
                                best_id = id;
                                best_due_at = st.due_at_unix_ms;
                            }
                        }
                    },
                    None => {},
                }
            }
            i += 1;
        }
        proof {
            assert(cards@.len() == self@.catalog.cards.len());
        }
        if best.is_some() {
            return Ok(best);
        }
        let queue = match self.queue_counts(now) {
            Some(q) => q,
            None => {
                return Err("review totals are out of range".to_string());
            },
        };
        if queue.new == 0 {
            return Ok(None);
        }
        assert(best_due(self@, now, self@.catalog.cards.len() as int) is None);
        let mut k: usize = 0;
        while k < cards.len()
            invariant
                k <= cards@.len(),
                cards@.map_values(|c: TrainingCard| c@) == self@.catalog.cards,
                first_new(self@, 0) == first_new(self@, k as int),
                best_due(self@, now, self@.catalog.cards.len() as int) is None,
                queue_spec(self@.log, self@.catalog, now).1 != 0,
            decreases cards@.len() - k,
        {
            let ck = cards[k].key();
            proof {
                assert(self@.catalog.cards[k as int] == cards@[k as int]@);
            }
            if !self.card_is_reserved(ck.card_id.as_str(), ck.content_version.as_str()) {
                let rk = ReviewKey { card_id: ck.card_id, content_version: ck.content_version };
                if self.log.state(&rk).is_none() {
                    proof {
                        assert(first_new(self@, k as int) == Some(k as int));
                        assert(best_due(self@, now, self@.catalog.cards.len() as int) is None);
                    }
                    return Ok(Some(k));
                }
            }
            k += 1;
        }
        Ok(None)
    }
}

/// Milliseconds from `then` to `now` on the monotonic clock, held at zero.
pub open spec fn elapsed(now: u64, then: u64) -> int {
    sat_sub(now as int, then as int)
}

/// An attempt survives the expiry sweep when its answer is out and it is
/// still ungraded, or when it is younger than the time-to-live.
pub open spec fn keeps(p: PendingAttempt, mono_ms: u64) -> bool {
    (p.revealed is Some && p.recorded_grade is None) || elapsed(mono_ms, p.shown_at_mono_ms)
        <= PENDING_TTL_MS
}

/// An attempt that may be evicted to make room: unrevealed or graded.
pub open spec fn evictable(p: PendingAttempt) -> bool {
    p.revealed is None || p.recorded_grade is Some
}

/// The attempts that survive the expiry sweep, in order.
pub open spec fn swept(pending: Seq<(String, PendingAttempt)>, mono_ms: u64) -> Seq<(String, PendingAttempt)> {
    pending.filter(|e: (String, PendingAttempt)| keeps(e.1, mono_ms))
}

/// Whether one of `s` is evictable.
pub open spec fn any_evictable(s: Seq<(String, PendingAttempt)>) -> bool {
    exists|j: int| 0 <= j < s.len() && evictable(#[trigger] s[j].1)
}

impl ReviewApi {
    /// Forget expired attempts, then, when the table is full, the oldest
    /// evictable ones until there is room for one more.
    pub fn prune_pending(&mut self, mono_ms: u64)
        requires
            old(self).wf(),
        ensures
            final(self).wf(),
            final(self)@.catalog == old(self)@.catalog,
            final(self)@.log == old(self)@.log,
            final(self)@.log_path == old(self)@.log_path,
            final(self)@.staged == old(self)@.staged,
            forall|j: int|
                0 <= j < final(self)@.pending.len() ==> swept(old(self)@.pending, mono_ms).contains(
                    #[trigger] final(self)@.pending[j],
                ),
            forall|j: int|
                0 <= j < old(self)@.pending.len() && !evictable(#[trigger] old(self)@.pending[j].1)
                    ==> final(self)@.pending.contains(old(self)@.pending[j]),
            swept(old(self)@.pending, mono_ms).len() < MAX_PENDING_ATTEMPTS ==> final(self)@.pending
                == swept(old(self)@.pending, mono_ms),
            final(self)@.pending.len() < MAX_PENDING_ATTEMPTS || !any_evictable(final(self)@.pending),
    {
        let ghost p0 = self.pending@;
        let ghost sw = swept(p0, mono_ms);
        let mut kept: Vec<(String, PendingAttempt)> = Vec::new();
        let mut old_pending: Vec<(String, PendingAttempt)> = Vec::new();
        std::mem::swap(&mut old_pending, &mut self.pending);
        let mut rest = old_pending;
        proof {
            assert(rest@ == p0);
        }
        let ghost mut taken: Seq<(String, PendingAttempt)> = Seq::empty();
        let ghost keep_fn = |e: (String, PendingAttempt)| keeps(e.1, mono_ms);
        while rest.len() > 0
            invariant
                p0 == taken + rest@,
                kept@ == taken.filter(keep_fn),
                keep_fn == (|e: (String, PendingAttempt)| keeps(e.1, mono_ms)),
            decreases rest@.len(),
        {
            let e = rest.remove(0);
            let ghost t0 = taken;
            let ghost ge = e;
            let p = &e.1;
            let elapsed_ms = if mono_ms >= p.shown_at_mono_ms {
                mono_ms - p.shown_at_mono_ms
            } else {
                0
            };
            let keep = (p.revealed.is_some() && p.recorded_grade.is_none()) || elapsed_ms
                <= PENDING_TTL_MS;
            proof {
                assert(keep == keep_fn(e));
                reveal(Seq::filter);
                assert(t0.push(ge).drop_last() =~= t0);
            }
            if keep {
                kept.push(e);
                proof {
                    assert(t0.push(ge).filter(keep_fn) == t0.filter(keep_fn).push(ge));
                }
            } else {
                proof {
                    assert(t0.push(ge).filter(keep_fn) == t0.filter(keep_fn));
                }
            }
            proof {
                taken = t0.push(ge);
                assert(p0 =~= taken + rest@);
            }
        }
        proof {
            assert(taken =~= p0);
        }
        self.pending = kept;
        proof {
            assert(self.pending@ == sw);
            assert forall|j: int| 0 <= j < p0.len() && !evictable(#[trigger] p0[j].1) implies sw.contains(p0[j]) by {
                p0.filter_lemma(keep_fn);
                assert(keep_fn(p0[j]));
                lemma_filter_keeps(p0, keep_fn, j);
            }
        }
        if self.pending.len() >= MAX_PENDING_ATTEMPTS {
            let remove = self.pending.len() - (MAX_PENDING_ATTEMPTS - 1);
            let mut removed: usize = 0;
            while removed < remove
                invariant
                    forall|j: int| 0 <= j < self.pending@.len() ==> sw.contains(#[trigger] self.pending@[j]),
                    forall|j: int|
                        0 <= j < p0.len() && !evictable(#[trigger] p0[j].1) ==> self.pending@.contains(p0[j]),
                    self.pending@.len() + removed == sw.len(),
                    sw.len() >= MAX_PENDING_ATTEMPTS,
                    remove == sw.len() + 1 - MAX_PENDING_ATTEMPTS,
                    self.catalog == old(self).catalog,
                    self.log == old(self).log,
                    self.log_path == old(self).log_path,
                    self.staged == old(self).staged,
                ensures
                    self.pending@.len() < MAX_PENDING_ATTEMPTS || !any_evictable(self.pending@),
                    forall|j: int| 0 <= j < self.pending@.len() ==> sw.contains(#[trigger] self.pending@[j]),
                    forall|j: int|
                        0 <= j < p0.len() && !evictable(#[trigger] p0[j].1) ==> self.pending@.contains(p0[j]),
                    self.catalog == old(self).catalog,
                    self.log == old(self).log,
                    self.log_path == old(self).log_path,
                    self.staged == old(self).staged,
                decreases remove - removed,
            {
                let mut oldest: Option<usize> = None;
                let mut oldest_at: u64 = 0;
                let mut j: usize = 0;
                while j < self.pending.len()
                    invariant
                        j <= self.pending@.len(),
                        oldest matches Some(k) ==> k < j && evictable(self.pending@[k as int].1),
                        oldest is None ==> forall|t: int| 0 <= t < j ==> !evictable(#[trigger] self.pending@[t].1),
                    decreases self.pending@.len() - j,
                {
                    let p = &self.pending[j].1;
                    if p.revealed.is_none() || p.recorded_grade.is_some() {
                        if oldest.is_none() || p.shown_at_mono_ms < oldest_at {
                            oldest = Some(j);
                            oldest_at = p.shown_at_mono_ms;
                        }
                    }
                    j += 1;
                }
                match oldest {
                    None => {
                        break;
                    },
                    Some(k) => {
                        let ghost before = self.pending@;
                        let _gone = self.pending.remove(k);
                        proof {
                            assert forall|j: int| 0 <= j < self.pending@.len() implies sw.contains(
                                #[trigger] self.pending@[j],
                            ) by {
                                if j < k {
                                    assert(self.pending@[j] == before[j]);
                                } else {
                                    assert(self.pending@[j] == before[j + 1]);
                                }
                            }
                            assert forall|t: int| 0 <= t < p0.len() && !evictable(#[trigger] p0[t].1) implies self.pending@.contains(
                                p0[t],
                            ) by {
                                let w = choose|w: int| 0 <= w < before.len() && before[w] == p0[t];
                                assert(w != k);
                                if w < k {
                                    assert(self.pending@[w] == p0[t]);
                                } else {
                                    assert(self.pending@[w - 1] == p0[t]);
                                }
                            }
                        }
                        removed += 1;
                    },
                }
            }
        }
    }
}

/// An element the filter keeps is in the filtered sequence.
proof fn lemma_filter_keeps<A>(s: Seq<A>, f: spec_fn(A) -> bool, j: int)
    requires
        0 <= j < s.len(),
        f(s[j]),
    ensures
        s.filter(f).contains(s[j]),
    decreases s.len(),
{
    reveal(Seq::filter);
    if j == s.len() - 1 {
        assert(s.filter(f) == s.drop_last().filter(f).push(s.last()));
        assert(s.filter(f)[s.filter(f).len() - 1] == s[j]);
    } else {
        lemma_filter_keeps(s.drop_last(), f, j);
        assert(s.drop_last()[j] == s[j]);
        let d = s.drop_last().filter(f);
        let w = choose|w: int| 0 <= w < d.len() && d[w] == s[j];
        if f(s.last()) {
            assert(s.filter(f)[w] == s[j]);
        } else {
            assert(s.filter(f)[w] == s[j]);
        }
    }
}

/// `"unfinished answer release '<id>' is stale for active card '<card>';
/// repair the private review log"`.
pub open spec fn stale_release_message(id: Seq<char>, card: Seq<char>) -> Seq<char> {
    "unfinished answer release '"@ + id + "' is stale for active card '"@ + card
        + "'; repair the private review log"@
}

/// The attempt ids restored from the unfinished releases `rs` of the log
/// `v`: releases of cards the deck no longer holds are skipped; a release
/// that a later review made stale, or more than the allowed number of
/// attempts, is refused.
pub open spec fn restore_ids(
    cat: crate::cards::CatalogView,
    v: LogView,
    rs: Seq<RevealEvent>,
) -> Result<Seq<Seq<char>>, Seq<char>>
    decreases rs.len(),
{
    if rs.len() == 0 {
        Ok(Seq::empty())
    } else {
        match restore_ids(cat, v, rs.drop_last()) {
            Err(m) => Err(m),
            Ok(ids) => {
                let r = rs.last();
                if find_card(cat.cards, r.card_id@, r.content_version@, 0) is None {
                    Ok(ids)
                } else if last_sequence(v.states, r.card_id@, r.content_version@)
                    != r.prior_review_sequence {
                    Err(stale_release_message(r.event_id@, r.card_id@))
                } else if add_text(ids, r.event_id@).len() > MAX_PENDING_ATTEMPTS {
                    Err("active deck has more than 256 unfinished answer releases"@)
                } else {
                    Ok(add_text(ids, r.event_id@))
                }
            },
        }
    }
}

/// What an answer release records of its attempt.
pub open spec fn revealed_from(a: RevealedAttempt, r: RevealEvent) -> bool {
    &&& same_feedback(a.feedback, r.feedback)
    &&& opt_text(a.response_uci) == opt_text(r.response_uci)
    &&& a.hint_used == r.hint_used
    &&& a.latency_ms == r.latency_ms
    &&& a.revealed_at_unix_ms == r.revealed_at_unix_ms
    &&& a.assurance@ == r.assurance@
    &&& a.confirmation_nodes_per_position == r.confirmation_nodes_per_position
    &&& a.analysis_config_version@ == r.analysis_config_version@
}

/// An attempt restored at `mono_ms` from the release `r`.
pub open spec fn restored_from(p: PendingAttempt, r: RevealEvent, mono_ms: u64) -> bool {
    &&& p.key.card_id@ == r.card_id@
    &&& p.key.content_version@ == r.content_version@
    &&& p.expected_last_event_sequence == r.prior_review_sequence
    &&& p.shown_at_mono_ms == mono_ms
    &&& p.shown_at_unix_ms == r.shown_at_unix_ms
    &&& p.revealed matches Some(a) && revealed_from(a, r)
    &&& p.recorded_at_unix_ms is None
    &&& p.recorded_grade is None
}

/// An attempt restored at `mono_ms` from some release of `reveals` with
/// its id.
pub open spec fn restored_entry(e: (String, PendingAttempt), reveals: Seq<RevealEvent>, mono_ms: u64) -> bool {
    exists|k: int|
        0 <= k < reveals.len() && #[trigger] reveals[k].event_id@ == e.0@ && restored_from(
            e.1,
            reveals[k],
            mono_ms,
        )
}

/// The ids of some attempts.
pub open spec fn attempt_ids(pending: Seq<(String, PendingAttempt)>) -> Seq<Seq<char>> {
    pending.map_values(|e: (String, PendingAttempt)| e.0@)
}

/// What a release recorded of its attempt, copied.
fn revealed_of(r: &RevealEvent) -> (a: RevealedAttempt)
    ensures
        revealed_from(a, *r),
{
    RevealedAttempt {
        feedback: copy_feedback(&r.feedback),
        response_uci: match &r.response_uci {
            Some(t) => Some(t.clone()),
            None => None,
        },
        hint_used: r.hint_used,
        latency_ms: r.latency_ms,
        revealed_at_unix_ms: r.revealed_at_unix_ms,
        assurance: r.assurance.clone(),
        confirmation_nodes_per_position: r.confirmation_nodes_per_position,
        analysis_config_version: r.analysis_config_version.clone(),
    }
}

/// The index of the attempt with id `id`, if any.
fn attempt_index(pending: &Vec<(String, PendingAttempt)>, id: &str) -> (r: Option<usize>)
    ensures
        match r {
            Some(i) => i < pending@.len() && pending@[i as int].0@ == id@ && forall|j: int|
                0 <= j < i ==> #[trigger] pending@[j].0@ != id@,
            None => !attempt_ids(pending@).contains(id@),
        },
{
    let mut i: usize = 0;
    while i < pending.len()
        invariant
            i <= pending@.len(),
            forall|j: int| 0 <= j < i ==> #[trigger] pending@[j].0@ != id@,
        decreases pending@.len() - i,
    {
        if same_text(pending[i].0.as_str(), id) {
            return Some(i);
        }
        i += 1;
    }
    proof {
        if attempt_ids(pending@).contains(id@) {
            let j = choose|j: int| 0 <= j < attempt_ids(pending@).len() && attempt_ids(pending@)[j] == id@;
            assert(pending@[j].0@ == id@);
        }
    }
    None
}

impl ReviewApi {
    /// Open the service over a deck and a replayed log, restoring an attempt
    /// for each unfinished answer release of a card the deck still holds.
    pub fn new(catalog: Catalog, log: ReviewLog, log_path: String, mono_ms: u64) -> (r: Result<
        ReviewApi,
        String,
    >)
        requires
            log.wf(),
        ensures
            match restore_ids(catalog@, log@, log@.reveals.filter(pending_in(log@.events))) {
                Err(m) => r matches Err(e) && e@ == m,
                Ok(ids) => r matches Ok(api) && api.wf() && api@.catalog == catalog@ && api@.log
                    == log@ && api@.log_path == log_path@ && api@.staged is Nothing
                    && attempt_ids(api@.pending) == ids && forall|j: int|
                    0 <= j < api@.pending.len() ==> restored_entry(
                        #[trigger] api@.pending[j],
                        log@.reveals,
                        mono_ms,
                    ),
            },
    {
        let durable = log.pending_reveals();
        let ghost rs = log@.reveals.filter(pending_in(log@.events));
        let mut pending: Vec<(String, PendingAttempt)> = Vec::new();
        let mut i: usize = 0;
        assert(rs.take(0) =~= Seq::<RevealEvent>::empty());
        assert(attempt_ids(pending@) =~= Seq::<Seq<char>>::empty());
        while i < durable.len()
            invariant
                i <= durable@.len(),
                durable@.map_values(|x: &RevealEvent| *x) == rs,
                rs == log@.reveals.filter(pending_in(log@.events)),
                restore_ids(catalog@, log@, rs.take(i as int)) == Ok::<Seq<Seq<char>>, Seq<char>>(
                    attempt_ids(pending@),
                ),
                forall|j: int|
                    0 <= j < pending@.len() ==> restored_entry(#[trigger] pending@[j], log@.reveals, mono_ms),
            decreases durable@.len() - i,
        {
            let r: &RevealEvent = durable[i];
            proof {
                assert(rs.take(i + 1).drop_last() =~= rs.take(i as int));
                assert(rs.take(i + 1).last() == rs[i as int]);
                assert(*r == rs[i as int]);
                assert(rs.contains(*r));
                log@.reveals.lemma_filter_contains_rev(pending_in(log@.events), *r);
                assert(log@.reveals.contains(*r));
            }
            let ghost kr = choose|k: int| 0 <= k < log@.reveals.len() && log@.reveals[k] == *r;
            if catalog.get(r.card_id.as_str(), r.content_version.as_str()).is_some() {
                let key = ReviewKey { card_id: r.card_id.clone(), content_version: r.content_version.clone() };
                let current: Option<u64> = match log.state(&key) {
                    Some(st) => Some(st.last_event_sequence),
                    None => None,
                };
                if current != r.prior_review_sequence {
                    let mut m = String::new();
                    crate::http::push_str(&mut m, "unfinished answer release '");
                    crate::http::push_str(&mut m, r.event_id.as_str());
                    crate::http::push_str(&mut m, "' is stale for active card '");
                    crate::http::push_str(&mut m, r.card_id.as_str());
                    crate::http::push_str(&mut m, "'; repair the private review log");
                    proof {
                        lemma_restore_err_sticks(catalog@, log@, rs, i as int + 1);
                    }
                    return Err(m);
                }
                let attempt = PendingAttempt {
                    key: CardKey { card_id: r.card_id.clone(), content_version: r.content_version.clone() },
                    expected_last_event_sequence: r.prior_review_sequence,
                    shown_at_mono_ms: mono_ms,
                    shown_at_unix_ms: r.shown_at_unix_ms,
                    revealed: Some(revealed_of(r)),
                    recorded_at_unix_ms: None,
                    recorded_grade: None,
                };
                let ghost before = pending@;
                match attempt_index(&pending, r.event_id.as_str()) {
                    Some(j) => {
                        pending.set(j, (r.event_id.clone(), attempt));
                        proof {
                            assert(attempt_ids(before).contains(r.event_id@)) by {
                                assert(attempt_ids(before)[j as int] == r.event_id@);
                            }
                            assert(attempt_ids(pending@) =~= attempt_ids(before));
                            assert forall|t: int| 0 <= t < pending@.len() implies restored_entry(
                                #[trigger] pending@[t],
                                log@.reveals,
                                mono_ms,
                            ) by {
                                if t == j {
                                    assert(log@.reveals[kr].event_id@ == pending@[t].0@);
                                } else {
                                    assert(pending@[t] == before[t]);
                                }
                            }
                        }
                    },
                    None => {
                        pending.push((r.event_id.clone(), attempt));
                        proof {
                            assert(attempt_ids(pending@) =~= attempt_ids(before).push(r.event_id@));
                            assert forall|t: int| 0 <= t < pending@.len() implies restored_entry(
                                #[trigger] pending@[t],
                                log@.reveals,
                                mono_ms,
                            ) by {
                                if t == before.len() {
                                    assert(log@.reveals[kr].event_id@ == pending@[t].0@);
                                } else {
                                    assert(pending@[t] == before[t]);
                                }
                            }
                        }
                    },
                }
                if pending.len() > MAX_PENDING_ATTEMPTS {
                    proof {
                        lemma_restore_err_sticks(catalog@, log@, rs, i as int + 1);
                    }
                    return Err("active deck has more than 256 unfinished answer releases".to_string());
                }
            }
            i += 1;
        }
        proof {
            assert(rs.take(durable@.len() as int) =~= rs);
        }
        Ok(ReviewApi { catalog, log, log_path, pending, staged: Staged::Nothing })
    }
}

/// Once restoring refuses a prefix, it refuses every longer one the same
/// way.
proof fn lemma_restore_err_sticks(
    cat: crate::cards::CatalogView,
    v: LogView,
    rs: Seq<RevealEvent>,
    k: int,
)
    requires
        0 <= k <= rs.len(),
        restore_ids(cat, v, rs.take(k)) is Err,
    ensures
        restore_ids(cat, v, rs) == restore_ids(cat, v, rs.take(k)),
    decreases rs.len() - k,
{
    if k < rs.len() {
        assert(rs.take(k + 1).drop_last() =~= rs.take(k));
        lemma_restore_err_sticks(cat, v, rs, k + 1);
    } else {
        assert(rs.take(k) =~= rs);
    }
}

/// How a refusal of the log reads.
pub open spec fn log_fault_text(f: LogFaultView, path: Seq<char>) -> Seq<char> {
    match f {
        LogFaultView::InvalidInput(m) => "invalid review: "@ + m,
        LogFaultView::EventIdConflict(id) => "event id '"@ + id
            + "' was already used for a different review"@,
        LogFaultView::Poisoned => "review log '"@ + path
            + "' had an interrupted write; reopen it before recording more reviews"@,
    }
}

/// Whether a review is of an active card.
pub open spec fn of_active(e: ReviewEvent, active: Seq<(Seq<char>, Seq<char>)>) -> bool {
    active.contains((e.card_id@, e.content_version@))
}

/// How many reviews of active cards were made without a hint.
pub open spec fn no_hint_count(es: Seq<ReviewEvent>, active: Seq<(Seq<char>, Seq<char>)>) -> int
    decreases es.len(),
{
    if es.len() == 0 {
        0
    } else {
        no_hint_count(es.drop_last(), active) + if of_active(es.last(), active) && !es.last().hint_used {
            1int
        } else {
            0
        }
    }
}

/// How many of those were passes.
pub open spec fn no_hint_passes(es: Seq<ReviewEvent>, active: Seq<(Seq<char>, Seq<char>)>) -> int
    decreases es.len(),
{
    if es.len() == 0 {
        0
    } else {
        no_hint_passes(es.drop_last(), active) + if of_active(es.last(), active)
            && !es.last().hint_used && es.last().applied_grade == ReviewGrade::Pass {
            1int
        } else {
            0
        }
    }
}

/// The latencies of the reviews of active cards, in order.
pub open spec fn active_latencies(es: Seq<ReviewEvent>, active: Seq<(Seq<char>, Seq<char>)>) -> Seq<u64>
    decreases es.len(),
{
    if es.len() == 0 {
        Seq::empty()
    } else if of_active(es.last(), active) {
        active_latencies(es.drop_last(), active).push(es.last().latency_ms)
    } else {
        active_latencies(es.drop_last(), active)
    }
}

/// The progress of the deck, as the review pages show it.
#[derive(Clone, Debug)]
pub struct ProgressReport {
    pub deck_title: String,
    pub deck_id: String,
    pub queue: QueueCounts,
    pub reviewed_cards: usize,
    pub mature_cards: usize,
    pub total_reviews: u64,
    pub hints: u64,
    pub lapses: u64,
    pub reference_matches: u64,
    pub delayed_attempts: u64,
    pub delayed_passes: u64,
    pub no_hint_attempts: usize,
    pub no_hint_passes: usize,
    pub median_latency_ms: Option<u64>,
    pub next_due_at_ms: Option<i64>,
}

/// The report is the deck's progress at `now`.
pub open spec fn report_of(r: ProgressReport, v: ApiView, now: i64) -> bool {
    let s = deck_summary(v.log, v.catalog.cards, now);
    let active = active_keys(v.catalog.cards);
    &&& r.deck_title@ == v.catalog.title
    &&& r.deck_id@ == v.catalog.deck_id
    &&& (r.queue.due as int, r.queue.new as int, r.queue.active as int, r.queue.reviewed_24h as int)
        == queue_spec(v.log, v.catalog, now)
    &&& r.reviewed_cards == s.reviewed_cards
    &&& r.mature_cards == s.mature_cards
    &&& r.total_reviews == s.attempts
    &&& r.hints == s.hints
    &&& r.lapses == s.lapses
    &&& r.reference_matches == s.reference_matches
    &&& r.delayed_attempts == s.delayed_attempts
    &&& r.delayed_passes == s.delayed_passes
    &&& r.no_hint_attempts == no_hint_count(v.log.events, active)
    &&& r.no_hint_passes == no_hint_passes(v.log.events, active)
    &&& r.median_latency_ms == crate::review::median_spec(active_latencies(v.log.events, active))
    &&& match r.next_due_at_ms {
        Some(d) => s.next_due_at_unix_ms == Some(d as int),
        None => s.next_due_at_unix_ms is None,
    }
}

proof fn lemma_counts_bounded(es: Seq<ReviewEvent>, active: Seq<(Seq<char>, Seq<char>)>)
    ensures
        0 <= no_hint_passes(es, active) <= no_hint_count(es, active) <= es.len(),
    decreases es.len(),
{
    if es.len() > 0 {
        lemma_counts_bounded(es.drop_last(), active);
    }
}

impl ReviewApi {
    /// The service's log.
    pub fn log(&self) -> (r: &ReviewLog)
        requires
            self.wf(),
        ensures
            r@ == self@.log,
            r.wf(),
    {
        &self.log
    }

    /// A refusal of the log as text.
    fn fault_message(&self, f: &LogFault) -> (r: String)
        ensures
            r@ == log_fault_text(f@, self@.log_path),
    {
        let mut s = String::new();
        match f {
            LogFault::InvalidInput(m) => {
                crate::http::push_str(&mut s, "invalid review: ");
                crate::http::push_str(&mut s, m.as_str());
            },
            LogFault::EventIdConflict(id) => {
                crate::http::push_str(&mut s, "event id '");
                crate::http::push_str(&mut s, id.as_str());
                crate::http::push_str(&mut s, "' was already used for a different review");
            },
            LogFault::Poisoned => {
                crate::http::push_str(&mut s, "review log '");
                crate::http::push_str(&mut s, self.log_path.as_str());
                crate::http::push_str(
                    &mut s,
                    "' had an interrupted write; reopen it before recording more reviews",
                );
            },
        }
        s
    }

    /// The deck's progress at `now`, or an error when a summary total does
    /// not fit.
    fn progress_report(&self, now: i64) -> (r: Result<ProgressReport, String>)
        ensures
            match r {
                Ok(p) => report_of(p, self@, now),
                Err(e) => !deck_fits(self@.log, self@.catalog.cards, now) && e@
                    == "review totals are out of range"@,
            },
    {
        let active = self.active_review_keys();
        let summary = match self.deck_summary_at(&active, now) {
            Some(s) => s,
            None => {
                return Err("review totals are out of range".to_string());
            },
        };
        let queue = match self.queue_counts(now) {
            Some(q) => q,
            None => {
                return Err("review totals are out of range".to_string());
            },
        };
        let ghost act = active_keys(self@.catalog.cards);
        let events = self.log.events();
        let mut no_hint: usize = 0;
        let mut passes: usize = 0;
        let mut latencies: Vec<u64> = Vec::new();
        let mut i: usize = 0;
        while i < events.len()
            invariant
                i <= events@.len(),
                events@ == self@.log.events,
                act == active@.map_values(|k: ReviewKey| key_texts(k)),
                no_hint == no_hint_count(events@.take(i as int), act),
                passes == no_hint_passes(events@.take(i as int), act),
                latencies@ == active_latencies(events@.take(i as int), act),
            decreases events@.len() - i,
        {
            let e = &events[i];
            proof {
                assert(events@.take(i + 1).drop_last() =~= events@.take(i as int));
                assert(events@.take(i + 1).last() == events@[i as int]);
                lemma_counts_bounded(events@.take(i as int), act);
            }
            if keys_contain(&active, e.card_id.as_str(), e.content_version.as_str()) {
                latencies.push(e.latency_ms);
                if !e.hint_used {
                    no_hint = no_hint + 1;
                    if e.applied_grade == ReviewGrade::Pass {
                        passes = passes + 1;
                    }
                }
            }
            i += 1;
        }
        proof {
            assert(events@.take(events@.len() as int) =~= events@);
        }
        let median = crate::review::median_latency(latencies);
        Ok(ProgressReport {
            deck_title: self.catalog.title().to_string(),
            deck_id: self.catalog.deck_id().to_string(),
            queue,
            reviewed_cards: summary.reviewed_cards,
            mature_cards: summary.mature_cards,
            total_reviews: summary.attempts,
            hints: summary.hints,
            lapses: summary.lapses,
            reference_matches: summary.reference_matches,
            delayed_attempts: summary.delayed_attempts,
            delayed_passes: summary.delayed_passes,
            no_hint_attempts: no_hint,
            no_hint_passes: passes,
            median_latency_ms: median,
            next_due_at_ms: summary.next_due_at_unix_ms,
        })
    }

    /// Sweep expired attempts, then report the deck's progress at `now`.
    pub fn progress(&mut self, now: i64, mono_ms: u64) -> (r: Result<ProgressReport, String>)
        requires
            old(self).wf(),
        ensures
            final(self).wf(),
            final(self)@.log == old(self)@.log,
            final(self)@.catalog == old(self)@.catalog,
            match r {
                Ok(p) => report_of(p, final(self)@, now),
                Err(e) => !deck_fits(final(self)@.log, final(self)@.catalog.cards, now),
            },
    {
        self.prune_pending(mono_ms);
        self.progress_report(now)
    }
}

/// The oldest ungraded attempt among the first `n`, by the wall-clock time
/// it was shown (the first among equals).
pub open spec fn oldest_open(pending: Seq<(String, PendingAttempt)>, n: int) -> Option<int>
    decreases n,
{
    if n <= 0 {
        None
    } else {
        let prev = oldest_open(pending, n - 1);
        let p = pending[n - 1].1;
        if p.recorded_grade is None && (prev is None || p.shown_at_unix_ms
            < pending[prev->0].1.shown_at_unix_ms) {
            Some(n - 1)
        } else {
            prev
        }
    }
}

proof fn lemma_oldest_bounds(pending: Seq<(String, PendingAttempt)>, n: int)
    ensures
        oldest_open(pending, n) matches Some(k) ==> 0 <= k < n && pending[k].1.recorded_grade is None,
    decreases n,
{
    if n > 0 {
        lemma_oldest_bounds(pending, n - 1);
    }
}

/// An attempt handed to the page: its id and the card's answer-free prompt.
pub struct NextCard {
    pub attempt_id: String,
    pub prompt: crate::cards::TrainingPrompt,
}

/// What the next-card page shows: the queue, the card of an attempt (if
/// any), and the answer already released for it (if any).
pub struct NextView {
    pub queue: QueueCounts,
    pub card: Option<NextCard>,
    pub recovered: Option<RevealedAttempt>,
}

/// What asking for the next card comes to: a view to show, or a card for
/// which a new attempt is to be opened under a fresh random id.
pub enum NextPlan {
    Ready(NextView),
    Issue { card: usize, queue: QueueCounts },
}

/// The prompt shows the card without its answer.
pub open spec fn prompt_of(p: crate::cards::TrainingPrompt, c: CardView) -> bool {
    &&& p.prompt@ == c.prompt
    &&& p.fen@ == c.fen
    &&& p.position_id@ == c.position_id
    &&& p.orientation@ == c.orientation
    &&& p.check == c.check
    &&& crate::cards::choices_of(p.legal_moves@) == c.legal_moves
    &&& crate::book::texts(p.tags@) == c.tags
}

/// The queue counts are those of `queue_spec`.
pub open spec fn queue_is(q: QueueCounts, v: ApiView, now: i64) -> bool {
    (q.due as int, q.new as int, q.active as int, q.reviewed_24h as int) == queue_spec(
        v.log,
        v.catalog,
        now,
    )
}

/// Two released attempts record the same things.
pub open spec fn same_revealed(a: RevealedAttempt, b: RevealedAttempt) -> bool {
    &&& same_feedback(a.feedback, b.feedback)
    &&& opt_text(a.response_uci) == opt_text(b.response_uci)
    &&& a.hint_used == b.hint_used
    &&& a.latency_ms == b.latency_ms
    &&& a.revealed_at_unix_ms == b.revealed_at_unix_ms
    &&& a.assurance@ == b.assurance@
    &&& a.confirmation_nodes_per_position == b.confirmation_nodes_per_position
    &&& a.analysis_config_version@ == b.analysis_config_version@
}

fn copy_revealed(a: &RevealedAttempt) -> (r: RevealedAttempt)
    ensures
        same_revealed(r, *a),
{
    RevealedAttempt {
        feedback: copy_feedback(&a.feedback),
        response_uci: match &a.response_uci {
            Some(t) => Some(t.clone()),
            None => None,
        },
        hint_used: a.hint_used,
        latency_ms: a.latency_ms,
        revealed_at_unix_ms: a.revealed_at_unix_ms,
        assurance: a.assurance.clone(),
        confirmation_nodes_per_position: a.confirmation_nodes_per_position,
        analysis_config_version: a.analysis_config_version.clone(),
    }
}

/// A fresh attempt at card `c`, shown at `now` (and `mono_ms`), expecting
/// the card's review state to stay as it is in `v`.
pub open spec fn fresh_attempt(p: PendingAttempt, c: CardView, v: LogView, now: i64, mono_ms: u64) -> bool {
    &&& p.key.card_id@ == c.card_id
    &&& p.key.content_version@ == c.content_version
    &&& p.expected_last_event_sequence == last_sequence(v.states, c.card_id, c.content_version)
    &&& p.shown_at_mono_ms == mono_ms
    &&& p.shown_at_unix_ms == now
    &&& p.revealed is None
    &&& p.recorded_at_unix_ms is None
    &&& p.recorded_grade is None
}

/// The view shows attempt `j` again: its id, its card's prompt, and the
/// answer already released for it, if any.
pub open spec fn shows_attempt(view: NextView, v: ApiView, j: int) -> bool {
    &&& view.card matches Some(c)
    &&& c.attempt_id@ == v.pending[j].0@
    &&& find_card(
        v.catalog.cards,
        v.pending[j].1.key.card_id@,
        v.pending[j].1.key.content_version@,
        0,
    ) matches Some(k)
    &&& prompt_of(c.prompt, v.catalog.cards[k])
    &&& match v.pending[j].1.revealed {
        Some(a) => view.recovered matches Some(b) && same_revealed(b, a),
        None => view.recovered is None,
    }
}

/// Why asking for the next card at `now` is refused: a summary total does
/// not fit, or the oldest ungraded attempt is of a card the deck no longer
/// holds.
pub open spec fn next_refused(e: Seq<char>, v: ApiView, now: i64) -> bool {
    if !deck_fits(v.log, v.catalog.cards, now) {
        e == "review totals are out of range"@
    } else {
        match oldest_open(v.pending, v.pending.len() as int) {
            Some(j) => find_card(
                v.catalog.cards,
                v.pending[j].1.key.card_id@,
                v.pending[j].1.key.content_version@,
                0,
            ) is None && e == "pending review card is no longer active"@,
            None => false,
        }
    }
}

/// The next-card view at `now`: the queue, and the oldest ungraded attempt
/// shown again, or no card when none is to be shown.
pub open spec fn next_view_ok(view: NextView, v: ApiView, now: i64) -> bool {
    &&& queue_is(view.queue, v, now)
    &&& match oldest_open(v.pending, v.pending.len() as int) {
        Some(j) => shows_attempt(view, v, j),
        None => select_spec(v, now) is None && view.card is None && view.recovered is None,
    }
}

impl ReviewApi {
    /// Sweep expired attempts, then decide the next card at `now`: the
    /// oldest ungraded attempt is shown again (with its released answer, if
    /// any); else the card `select_next` picks is to get a new attempt; else
    /// no card.
    pub fn next(&mut self, _request: NextRequest, now: i64, mono_ms: u64) -> (r: Result<NextPlan, String>)
        requires
            old(self).wf(),
        ensures
            final(self).wf(),
            final(self)@.log == old(self)@.log,
            final(self)@.catalog == old(self)@.catalog,
            final(self)@.log_path == old(self)@.log_path,
            final(self)@.staged == old(self)@.staged,
            match r {
                Err(e) => next_refused(e@, final(self)@, now),
                Ok(NextPlan::Ready(view)) => next_view_ok(view, final(self)@, now),
                Ok(NextPlan::Issue { card, queue }) => queue_is(queue, final(self)@, now) && oldest_open(
                    final(self)@.pending,
                    final(self)@.pending.len() as int,
                ) is None && select_spec(final(self)@, now) == Some(card as int),
            },
    {
        self.prune_pending(mono_ms);
        let queue = match self.queue_counts(now) {
            Some(q) => q,
            None => {
                return Err("review totals are out of range".to_string());
            },
        };
        let mut oldest: Option<usize> = None;
        let mut j: usize = 0;
        while j < self.pending.len()
            invariant
                j <= self.pending@.len(),
                match oldest_open(self@.pending, j as int) {
                    Some(k) => oldest == Some(k as usize),
                    None => oldest is None,
                },
                oldest matches Some(k) ==> k < j,
            decreases self.pending@.len() - j,
        {
            let p = &self.pending[j].1;
            proof {
                assert(self@.pending[j as int] == self.pending@[j as int]);
                if oldest is Some {
                    assert(self@.pending[oldest->0 as int] == self.pending@[oldest->0 as int]);
                }
            }
            let ghost prev = oldest_open(self@.pending, j as int);
            proof {
                lemma_oldest_bounds(self@.pending, j as int);
            }
            if p.recorded_grade.is_none() {
                match oldest {
                    None => {
                        oldest = Some(j);
                    },
                    Some(k) => {
                        if p.shown_at_unix_ms < self.pending[k].1.shown_at_unix_ms {
                            oldest = Some(j);
                        }
                    },
                }
            }
            proof {
                let q = self@.pending[j as int].1;
                assert(oldest_open(self@.pending, j + 1) == (if q.recorded_grade is None && (prev is None
                    || q.shown_at_unix_ms < self@.pending[prev->0].1.shown_at_unix_ms) {
                    Some(j as int)
                } else {
                    prev
                }));
            }
            j += 1;
        }
        proof {
            lemma_oldest_bounds(self@.pending, self@.pending.len() as int);
        }
        match oldest {
            Some(k) => {
                let entry = &self.pending[k];
                let card = match self.catalog.get(
                    entry.1.key.card_id.as_str(),
                    entry.1.key.content_version.as_str(),
                ) {
                    Some(c) => c,
                    None => {
                        proof {
                            assert(deck_fits(self@.log, self@.catalog.cards, now));
                            assert(oldest_open(self@.pending, self@.pending.len() as int) == Some(k as int));
                            assert(find_card(self@.catalog.cards, self@.pending[k as int].1.key.card_id@, self@.pending[k as int].1.key.content_version@, 0) is None);
                        }
                        return Err("pending review card is no longer active".to_string());
                    },
                };
                let recovered = match &entry.1.revealed {
                    Some(a) => Some(copy_revealed(a)),
                    None => None,
                };
                let view = NextView {
                    queue,
                    card: Some(NextCard { attempt_id: entry.0.clone(), prompt: card.prompt_view() }),
                    recovered,
                };
                proof {
                    assert(oldest_open(self@.pending, self@.pending.len() as int) == Some(k as int));
                    assert(shows_attempt(view, self@, k as int));
                    assert(queue_is(view.queue, self@, now));
                }
                Ok(NextPlan::Ready(view))
            },
            None => {
                proof {
                    assert(deck_fits(self@.log, self@.catalog.cards, now));
                }
                match self.select_next(now) {
                    Err(e) => {
                        proof {
                            assert(!deck_fits(self@.log, self@.catalog.cards, now));
                            assert(false);
                        }
                        Err(e)
                    },
                    Ok(None) => {
                        proof {
                            assert(oldest_open(self@.pending, self@.pending.len() as int) is None);
                            assert(select_spec(self@, now) is None);
                        }
                        Ok(NextPlan::Ready(NextView { queue, card: None, recovered: None }))
                    },
                    Ok(Some(k)) => {
                        proof {
                            lemma_select_bounds(self@, now);
                            assert(oldest_open(self@.pending, self@.pending.len() as int) is None);
                            assert(select_spec(self@, now) is Some);
                            assert(select_spec(self@, now) == Some(k as int));
                        }
                        Ok(NextPlan::Issue { card: k, queue })
                    },
                }
            },
        }
    }

    /// Open a new attempt at deck card `card` under the id `attempt_id`,
    /// shown at `now`, and the view that hands it out.
    pub fn open_attempt(
        &mut self,
        card: usize,
        attempt_id: String,
        queue: QueueCounts,
        now: i64,
        mono_ms: u64,
    ) -> (r: NextView)
        requires
            old(self).wf(),
            card < old(self)@.catalog.cards.len(),
        ensures
            final(self).wf(),
            final(self)@.log == old(self)@.log,
            final(self)@.catalog == old(self)@.catalog,
            final(self)@.log_path == old(self)@.log_path,
            final(self)@.staged == old(self)@.staged,
            r.queue == queue,
            r.recovered is None,
            r.card matches Some(c) && c.attempt_id@ == attempt_id@ && prompt_of(
                c.prompt,
                old(self)@.catalog.cards[card as int],
            ),
            attempt_ids(final(self)@.pending) == add_text(attempt_ids(old(self)@.pending), attempt_id@),
            exists|j: int|
                0 <= j < final(self)@.pending.len() && final(self)@.pending[j].0@ == attempt_id@
                    && fresh_attempt(
                    #[trigger] final(self)@.pending[j].1,
                    old(self)@.catalog.cards[card as int],
                    old(self)@.log,
                    now,
                    mono_ms,
                ),
    {
        let cards = self.catalog.cards();
        proof {
            assert(self@.catalog.cards[card as int] == cards@[card as int]@);
        }
        let key = cards[card].key();
        let prompt = cards[card].prompt_view();
        let rk = review_key(&key);
        let expected: Option<u64> = match self.log.state(&rk) {
            Some(st) => Some(st.last_event_sequence),
            None => None,
        };
        let attempt = PendingAttempt {
            key,
            expected_last_event_sequence: expected,
            shown_at_mono_ms: mono_ms,
            shown_at_unix_ms: now,
            revealed: None,
            recorded_at_unix_ms: None,
            recorded_grade: None,
        };
        let ghost before = self.pending@;
        let id_copy = attempt_id.clone();
        match attempt_index(&self.pending, attempt_id.as_str()) {
            Some(j) => {
                self.pending.set(j, (attempt_id, attempt));
                proof {
                    assert(attempt_ids(before)[j as int] == id_copy@);
                    assert(attempt_ids(self@.pending) =~= attempt_ids(before));
                    assert(self@.pending[j as int].0@ == id_copy@);
                    assert(fresh_attempt(self@.pending[j as int].1, old(self)@.catalog.cards[card as int], old(self)@.log, now, mono_ms));
                }
            },
            None => {
                self.pending.push((attempt_id, attempt));
                proof {
                    assert(attempt_ids(self@.pending) =~= attempt_ids(before).push(id_copy@));
                    assert(self@.pending[before.len() as int].0@ == id_copy@);
                    assert(fresh_attempt(self@.pending[before.len() as int].1, old(self)@.catalog.cards[card as int], old(self)@.log, now, mono_ms));
                }
            },
        }
        NextView { queue, card: Some(NextCard { attempt_id: id_copy, prompt }), recovered: None }
    }
}

/// The first attempt with id `id`.
pub open spec fn attempt_pos(pending: Seq<(String, PendingAttempt)>, id: Seq<char>, k: int) -> Option<int>
    decreases pending.len() - k,
{
    if k < 0 || k >= pending.len() {
        None
    } else if pending[k].0@ == id {
        Some(k)
    } else {
        attempt_pos(pending, id, k + 1)
    }
}

proof fn lemma_attempt_pos(pending: Seq<(String, PendingAttempt)>, id: Seq<char>, k: int)
    requires
        0 <= k,
    ensures
        attempt_pos(pending, id, k) matches Some(i) ==> k <= i < pending.len() && pending[i].0@ == id,
        attempt_pos(pending, id, k) is None ==> forall|j: int|
            k <= j < pending.len() ==> #[trigger] pending[j].0@ != id,
    decreases pending.len() - k,
{
    if k < pending.len() && pending[k].0@ != id {
        lemma_attempt_pos(pending, id, k + 1);
    }
}

/// The feedback releases card `c`'s answer and explanation.
pub open spec fn feedback_of(c: CardView, f: CardFeedback) -> bool {
    let a = c.answer;
    &&& f.reference_move@ == a.reference_move
    &&& f.source_game_move@ == a.source_game_move
    &&& crate::cards::pairs_of(f.reference_line@) == a.reference_line
    &&& crate::cards::pairs_of(f.source_game_line@) == a.source_game_line
    &&& f.explanation@ == c.explanation
    &&& f.success_criterion@ == c.success_criterion
    &&& f.loss_cp_equivalent == a.loss_cp_equivalent
    &&& f.loss_bucket@ == a.loss_bucket
    &&& opt_text(f.mate_event) == a.mate_event
    &&& f.evidence_version@ == c.evidence_version
}

/// A repeated reveal request commits to what the released attempt did: a
/// give-up again, or the same move with a reason.
pub open spec fn same_commitment(a: RevealedAttempt, req: RevealRequest) -> bool {
    if a.hint_used {
        req.gave_up && req.move_uci is None
    } else {
        !req.gave_up && req.reason_present && opt_text(req.move_uci) == opt_text(a.response_uci)
    }
}

/// The latency of a reveal: the time since the attempt was shown, at most
/// a day.
pub open spec fn latency_spec(mono_ms: u64, shown_mono_ms: u64) -> int {
    if elapsed(mono_ms, shown_mono_ms) < DAY_MS {
        elapsed(mono_ms, shown_mono_ms)
    } else {
        DAY_MS as int
    }
}

/// What a reveal request comes to before anything is recorded.
pub enum RevealPrep {
    /// The attempt's answer is already out; show it again.
    Recover(int),
    /// Release the answer of attempt `.0` at deck card `.1`.
    Release(int, int),
}

/// The checks a reveal request passes through, in order: the attempt must
/// exist, be ungraded, and its card unchanged since it was shown; a
/// released attempt is shown again if the request commits to the same
/// thing; else the card must still be in the deck, a give-up carries no
/// move, and a committed move comes with a reason and is legal.
pub open spec fn reveal_prep(v: ApiView, req: RevealRequest) -> Result<RevealPrep, Seq<char>> {
    match attempt_pos(v.pending, req.attempt_id@, 0) {
        None => Err("unknown or expired review attempt"@),
        Some(j) => {
            let p = v.pending[j].1;
            if p.recorded_grade is Some {
                Err("review attempt was already graded"@)
            } else if last_sequence(v.log.states, p.key.card_id@, p.key.content_version@)
                != p.expected_last_event_sequence {
                Err("review card changed after this attempt was issued; load a fresh card"@)
            } else if p.revealed is Some {
                if same_commitment(p.revealed->0, req) {
                    Ok(RevealPrep::Recover(j))
                } else {
                    Err("reveal request conflicts with the move already committed for this attempt"@)
                }
            } else {
                match find_card(v.catalog.cards, p.key.card_id@, p.key.content_version@, 0) {
                    None => Err("review card is no longer active"@),
                    Some(k) => if req.gave_up {
                        if req.move_uci is Some {
                            Err("give-up reveal must not include a move"@)
                        } else {
                            Ok(RevealPrep::Release(j, k))
                        }
                    } else if !req.reason_present {
                        Err("commit a reason before revealing"@)
                    } else if req.move_uci is None {
                        Err("commit a legal move before revealing"@)
                    } else if crate::cards::find_choice(
                        v.catalog.cards[k].legal_moves,
                        req.move_uci->0@,
                        0,
                    ) is None {
                        Err(
                            fault_text(
                                crate::cards::CardsFault::InvalidResponse(
                                    v.catalog.cards[k].card_id,
                                    "submitted move is not legal in the card position"@,
                                ),
                            ),
                        )
                    } else {
                        Ok(RevealPrep::Release(j, k))
                    },
                }
            }
        },
    }
}

/// The answer release of attempt `j` at card `k`, revealed `lat` ms after it
/// was shown, at wall-clock time `at`.
pub open spec fn release_of(
    e: RevealEvent,
    v: ApiView,
    req: RevealRequest,
    j: int,
    k: int,
    lat: int,
    at: int,
) -> bool {
    let p = v.pending[j].1;
    let c = v.catalog.cards[k];
    &&& e.event_id@ == req.attempt_id@
    &&& e.card_id@ == p.key.card_id@
    &&& e.content_version@ == p.key.content_version@
    &&& e.evidence_version@ == c.evidence_version
    &&& e.shown_at_unix_ms == p.shown_at_unix_ms
    &&& e.revealed_at_unix_ms == at
    &&& e.hint_used == req.gave_up
    &&& e.latency_ms == lat
    &&& feedback_of(c, e.feedback)
    &&& e.feedback.evidence_version@ == e.evidence_version@
    &&& (if req.gave_up {
        &&& e.response_uci is None
        &&& e.reference_match is None
        &&& e.feedback.played_move is None
        &&& e.feedback.reference_match is None
    } else {
        let m = crate::cards::find_choice(c.legal_moves, req.move_uci->0@, 0)->0;
        &&& opt_text(e.response_uci) == opt_text(req.move_uci)
        &&& crate::cards::opt_choice(e.feedback.played_move) == Some(c.legal_moves[m])
        &&& e.feedback.reference_match == Some(c.legal_moves[m].0 == c.answer.reference_move.0)
        &&& e.reference_match == e.feedback.reference_match
    })
    &&& e.assurance@ == v.catalog.assurance
    &&& e.confirmation_nodes_per_position == v.catalog.confirmation_nodes_per_position
    &&& e.analysis_config_version@ == v.catalog.analysis_config_version
    &&& e.prior_review_sequence == p.expected_last_event_sequence
}

/// What a reveal request has ready, or that a release is to be written.
pub enum RevealStep {
    Ready(RevealedAttempt),
    Write,
}

/// The attempts after attempt `j` records its released answer `a`.
pub open spec fn with_answer(
    pending: Seq<(String, PendingAttempt)>,
    j: int,
    a: RevealedAttempt,
) -> Seq<(String, PendingAttempt)> {
    pending.update(j, (pending[j].0, PendingAttempt { revealed: Some(a), ..pending[j].1 }))
}

fn copy_key(k: &CardKey) -> (r: CardKey)
    ensures
        r == *k,
{
    CardKey { card_id: k.card_id.clone(), content_version: k.content_version.clone() }
}

fn copy_opt_i64(o: &Option<i64>) -> (r: Option<i64>)
    ensures
        r == *o,
{
    match o {
        Some(x) => Some(*x),
        None => None,
    }
}

/// The result of a reveal request that passed its checks as a release of
/// attempt `j` at card `k` (from the service `v` to `w`): the new-card
/// limit; a refusal of the log or an answer release made stale since; the
/// release staged for writing; or an identical release already in the log,
/// shown again and remembered.
pub open spec fn release_result(
    v: ApiView,
    w: ApiView,
    req: RevealRequest,
    j: int,
    k: int,
    mono_ms: u64,
    r: Result<RevealStep, String>,
) -> bool {
    let p = v.pending[j].1;
    let lat = latency_spec(mono_ms, p.shown_at_mono_ms);
    let at = crate::review::sat_add_i64(p.shown_at_unix_ms as int, lat);
    if p.expected_last_event_sequence is None && new_started(v.log, v.catalog.cards, at as i64)
        >= v.catalog.new_per_day {
        &&& r matches Err(e)
        &&& e@ == "the new-card limit was reached; load a fresh queue"@
        &&& w.pending == v.pending
        &&& w.staged == v.staged
    } else {
        match r {
            Err(e) => w.pending == v.pending && w.staged == v.staged && (e@
                == "answer release was recorded from a stale card state"@ || exists|f: LogFaultView|
                e@ == log_fault_text(f, v.log_path)),
            Ok(RevealStep::Write) => w.pending == v.pending && (w.staged matches Staged::Reveal(e)
                && release_of(e, v, req, j, k, lat, at)),
            Ok(RevealStep::Ready(a)) => w.staged == v.staged && exists|i: int, b: RevealedAttempt|
                0 <= i < v.log.reveals.len() && release_of(v.log.reveals[i], v, req, j, k, lat, at)
                    && revealed_from(b, v.log.reveals[i]) && same_revealed(a, b) && w.pending
                    == with_answer(v.pending, j, b),
        }
    }
}

proof fn lemma_same_release(
    a: RevealEvent,
    b: RevealInput,
    v: ApiView,
    req: RevealRequest,
    j: int,
    k: int,
    lat: int,
    at: int,
)
    requires
        same_reveal_input(reveal_input_of(a), b),
        a.prior_review_sequence == v.pending[j].1.expected_last_event_sequence,
        release_input_of(b, v, req, j, k, lat, at),
    ensures
        release_of(a, v, req, j, k, lat, at),
{
    let c = v.catalog.cards[k];
    assert(crate::cards::opt_choice(a.feedback.played_move) == crate::cards::opt_choice(b.feedback.played_move));
}

/// The input of the release of attempt `j` at card `k`.
pub open spec fn release_input_of(
    e: RevealInput,
    v: ApiView,
    req: RevealRequest,
    j: int,
    k: int,
    lat: int,
    at: int,
) -> bool {
    let p = v.pending[j].1;
    let c = v.catalog.cards[k];
    &&& e.event_id@ == req.attempt_id@
    &&& e.key.card_id@ == p.key.card_id@
    &&& e.key.content_version@ == p.key.content_version@
    &&& e.evidence_version@ == c.evidence_version
    &&& e.shown_at_unix_ms == p.shown_at_unix_ms
    &&& e.revealed_at_unix_ms == at
    &&& e.hint_used == req.gave_up
    &&& e.latency_ms == lat
    &&& feedback_of(c, e.feedback)
    &&& e.feedback.evidence_version@ == e.evidence_version@
    &&& (if req.gave_up {
        &&& e.response_uci is None
        &&& e.reference_match is None
        &&& e.feedback.played_move is None
        &&& e.feedback.reference_match is None
    } else {
        let m = crate::cards::find_choice(c.legal_moves, req.move_uci->0@, 0)->0;
        &&& opt_text(e.response_uci) == opt_text(req.move_uci)
        &&& crate::cards::opt_choice(e.feedback.played_move) == Some(c.legal_moves[m])
        &&& e.feedback.reference_match == Some(c.legal_moves[m].0 == c.answer.reference_move.0)
        &&& e.reference_match == e.feedback.reference_match
    })
    &&& e.assurance@ == v.catalog.assurance
    &&& e.confirmation_nodes_per_position == v.catalog.confirmation_nodes_per_position
    &&& e.analysis_config_version@ == v.catalog.analysis_config_version
}

impl ReviewApi {
    /// The index of the first attempt with id `id`.
    fn find_attempt(&self, id: &str) -> (r: Option<usize>)
        ensures
            match attempt_pos(self@.pending, id@, 0) {
                Some(i) => r matches Some(x) && x as int == i && i < self@.pending.len(),
                None => r is None,
            },
    {
        let mut i: usize = 0;
        while i < self.pending.len()
            invariant
                i <= self.pending@.len(),
                attempt_pos(self@.pending, id@, 0) == attempt_pos(self@.pending, id@, i as int),
            decreases self.pending@.len() - i,
        {
            if same_text(self.pending[i].0.as_str(), id) {
                return Some(i);
            }
            i += 1;
        }
        None
    }

    /// Attempt `j` records its released answer `a`.
    fn set_answer(&mut self, j: usize, a: RevealedAttempt)
        requires
            old(self).wf(),
            j < old(self)@.pending.len(),
        ensures
            final(self).wf(),
            final(self)@.catalog == old(self)@.catalog,
            final(self)@.log == old(self)@.log,
            final(self)@.log_path == old(self)@.log_path,
            final(self)@.staged == old(self)@.staged,
            final(self)@.pending == with_answer(old(self)@.pending, j as int, a),
    {
        let p = &self.pending[j].1;
        let updated = PendingAttempt {
            key: copy_key(&p.key),
            expected_last_event_sequence: p.expected_last_event_sequence,
            shown_at_mono_ms: p.shown_at_mono_ms,
            shown_at_unix_ms: p.shown_at_unix_ms,
            revealed: Some(a),
            recorded_at_unix_ms: p.recorded_at_unix_ms,
            recorded_grade: p.recorded_grade,
        };
        let id = self.pending[j].0.clone();
        self.pending.set(j, (id, updated));
        proof {
            assert(self@.pending =~= with_answer(old(self)@.pending, j as int, a));
        }
    }

    /// Release the answer of an attempt (after expired attempts were swept):
    /// the checks of `reveal_prep`, then the new-card limit, then the log's
    /// decision; a new release is staged for the caller to write, after
    /// which it calls `finish_reveal`.
    pub fn reveal_answer(&mut self, request: RevealRequest, mono_ms: u64) -> (r: Result<RevealStep, String>)
        requires
            old(self).wf(),
        ensures
            final(self).wf(),
            final(self)@.catalog == old(self)@.catalog,
            final(self)@.log == old(self)@.log,
            final(self)@.log_path == old(self)@.log_path,
            match reveal_prep(old(self)@, request) {
                Err(m) => r matches Err(e) && e@ == m && final(self)@.pending == old(self)@.pending
                    && final(self)@.staged == old(self)@.staged,
                Ok(RevealPrep::Recover(j)) => r matches Ok(RevealStep::Ready(a)) && same_revealed(
                    a,
                    old(self)@.pending[j].1.revealed->0,
                ) && final(self)@.pending == old(self)@.pending && final(self)@.staged == old(
                    self,
                )@.staged,
                Ok(RevealPrep::Release(j, k)) => release_result(
                    old(self)@,
                    final(self)@,
                    request,
                    j,
                    k,
                    mono_ms,
                    r,
                ),
            },
    {
        let j = match self.find_attempt(request.attempt_id.as_str()) {
            None => {
                return Err("unknown or expired review attempt".to_string());
            },
            Some(j) => j,
        };
        proof {
            lemma_attempt_pos(self@.pending, request.attempt_id@, 0);
        }
        let p = &self.pending[j].1;
        if p.recorded_grade.is_some() {
            return Err("review attempt was already graded".to_string());
        }
        let rk = review_key(&p.key);
        let current: Option<u64> = match self.log.state(&rk) {
            Some(st) => Some(st.last_event_sequence),
            None => None,
        };
        if current != p.expected_last_event_sequence {
            return Err(
                "review card changed after this attempt was issued; load a fresh card".to_string(),
            );
        }
        match &p.revealed {
            Some(a) => {
                let same = if a.hint_used {
                    request.gave_up && request.move_uci.is_none()
                } else {
                    !request.gave_up && request.reason_present && crate::cards::opt_text_eq(
                        &request.move_uci,
                        &a.response_uci,
                    )
                };
                if !same {
                    return Err(
                        "reveal request conflicts with the move already committed for this attempt".to_string(),
                    );
                }
                return Ok(RevealStep::Ready(copy_revealed(a)));
            },
            None => {},
        }
        let card = match self.catalog.get(p.key.card_id.as_str(), p.key.content_version.as_str()) {
            None => {
                return Err("review card is no longer active".to_string());
            },
            Some(c) => c,
        };
        let ghost k = find_card(self@.catalog.cards, p.key.card_id@, p.key.content_version@, 0)->0;
        let feedback: CardFeedback;
        let response_uci: Option<String>;
        let hint_used: bool;
        if request.gave_up {
            if request.move_uci.is_some() {
                return Err("give-up reveal must not include a move".to_string());
            }
            feedback = card.give_up_feedback();
            response_uci = None;
            hint_used = true;
        } else {
            if !request.reason_present {
                return Err("commit a reason before revealing".to_string());
            }
            let response = match &request.move_uci {
                None => {
                    return Err("commit a legal move before revealing".to_string());
                },
                Some(m) => m,
            };
            match card.feedback(response.as_str()) {
                Err(e) => {
                    return Err(e.message());
                },
                Ok(f) => {
                    feedback = f;
                    response_uci = Some(response.clone());
                    hint_used = false;
                },
            }
        }
        let elapsed_ms: u64 = if mono_ms >= p.shown_at_mono_ms {
            mono_ms - p.shown_at_mono_ms
        } else {
            0
        };
        let latency_ms: u64 = if elapsed_ms < 86_400_000 {
            elapsed_ms
        } else {
            86_400_000
        };
        let lat_i: i64 = latency_ms as i64;
        let revealed_at: i64 = if p.shown_at_unix_ms > i64::MAX - lat_i {
            i64::MAX
        } else {
            p.shown_at_unix_ms + lat_i
        };
        let expected = p.expected_last_event_sequence;
        let shown_at_unix_ms = p.shown_at_unix_ms;
        if expected.is_none() {
            let active = self.active_review_keys();
            if self.new_revealed_24h(&active, revealed_at) >= self.catalog.new_per_day() {
                return Err("the new-card limit was reached; load a fresh queue".to_string());
            }
        }
        let evidence_version = feedback.evidence_version.clone();
        let reference_match = feedback.reference_match;
        let input = RevealInput {
            event_id: request.attempt_id,
            key: rk,
            evidence_version,
            shown_at_unix_ms,
            revealed_at_unix_ms: revealed_at,
            hint_used,
            response_uci,
            reference_match,
            latency_ms,
            feedback,
            assurance: self.catalog.assurance().to_string(),
            confirmation_nodes_per_position: self.catalog.confirmation_nodes_per_position(),
            analysis_config_version: self.catalog.analysis_config_version().to_string(),
        };
        proof {
            assert(self@.catalog.cards[k] == card@);
            assert(release_input_of(input, old(self)@, request, j as int, k, latency_ms as int, revealed_at as int));
        }
        match self.log.prepare_reveal(input) {
            Err(f) => Err(self.fault_message(&f)),
            Ok(crate::review_log::RevealPlan::Existing(i)) => {
                let stored = &self.log.reveals()[i];
                if stored.prior_review_sequence != expected {
                    return Err("answer release was recorded from a stale card state".to_string());
                }
                let a = revealed_of(stored);
                let out = copy_revealed(&a);
                proof {
                    lemma_same_release(*stored, input, old(self)@, request, j as int, k, latency_ms as int, revealed_at as int);
                }
                self.set_answer(j, a);
                Ok(RevealStep::Ready(out))
            },
            Ok(crate::review_log::RevealPlan::Append(e)) => {
                proof {
                    assert(reveal_input_of(e) == input);
                }
                self.staged = Staged::Reveal(e);
                Ok(RevealStep::Write)
            },
        }
    }
}

/// What a grade request comes to before anything is recorded.
pub enum GradePrep {
    /// The attempt is gone but its review is stored at this index.
    Stored(int),
    /// Record the grade of attempt `.0`.
    Record(int),
}

/// The checks a grade request passes through, in order: an attempt no
/// longer held is answered from its stored review when the grade agrees;
/// a held attempt must have its answer out, agree with a grade already
/// given, and, when first graded, its card must be unchanged since shown.
pub open spec fn grade_prep(v: ApiView, req: GradeRequest) -> Result<GradePrep, Seq<char>> {
    let id = req.attempt_id@;
    match attempt_pos(v.pending, id, 0) {
        None => match find_event(v.log.events, id, 0) {
            None => Err("unknown or expired review attempt"@),
            Some(i) => if v.log.events[i].submitted_grade != req.outcome {
                Err("review attempt was already graded differently"@)
            } else {
                Ok(GradePrep::Stored(i))
            },
        },
        Some(j) => {
            let p = v.pending[j].1;
            if p.revealed is None {
                Err("reveal the card before grading it"@)
            } else if p.recorded_grade matches Some(g) && g != req.outcome {
                Err("review attempt was already graded differently"@)
            } else if p.recorded_grade is None && last_sequence(
                v.log.states,
                p.key.card_id@,
                p.key.content_version@,
            ) != p.expected_last_event_sequence {
                Err("review card changed after this attempt was issued; load a fresh card"@)
            } else {
                Ok(GradePrep::Record(j))
            }
        },
    }
}

/// `max(a, b)`.
pub open spec fn max_int(a: int, b: int) -> int {
    if a >= b {
        a
    } else {
        b
    }
}

/// When a grade of attempt `p` counts as made: when it was first recorded,
/// else the latest of now, the shown time plus the monotonic time since,
/// and the time its answer was released.
pub open spec fn record_time(p: PendingAttempt, now: i64, mono_ms: u64) -> int {
    match p.recorded_at_unix_ms {
        Some(t) => t as int,
        None => max_int(
            max_int(
                now as int,
                crate::review::sat_add_i64(
                    p.shown_at_unix_ms as int,
                    if elapsed(mono_ms, p.shown_at_mono_ms) <= i64::MAX {
                        elapsed(mono_ms, p.shown_at_mono_ms)
                    } else {
                        i64::MAX as int
                    },
                ),
            ),
            p.revealed->0.revealed_at_unix_ms as int,
        ),
    }
}

/// The review input of grading attempt `j` at time `at`.
pub open spec fn grade_input(v: ApiView, req: GradeRequest, j: int, at: int) -> ReviewInput {
    let p = v.pending[j].1;
    let a = p.revealed->0;
    ReviewInput {
        event_id: req.attempt_id,
        key: ReviewKey { card_id: p.key.card_id, content_version: p.key.content_version },
        evidence_version: a.feedback.evidence_version,
        shown_at_unix_ms: p.shown_at_unix_ms,
        reviewed_at_unix_ms: at as i64,
        grade: req.outcome,
        hint_used: a.hint_used,
        response_uci: a.response_uci,
        reference_match: a.feedback.reference_match,
        latency_ms: a.latency_ms,
    }
}

/// The attempts after attempt `j` is graded `g` at `at` by the review with
/// sequence `seq`.
pub open spec fn with_grade(
    pending: Seq<(String, PendingAttempt)>,
    j: int,
    at: i64,
    g: ReviewGrade,
    seq: u64,
) -> Seq<(String, PendingAttempt)> {
    pending.update(
        j,
        (
            pending[j].0,
            PendingAttempt {
                recorded_at_unix_ms: Some(at),
                recorded_grade: Some(g),
                expected_last_event_sequence: Some(seq),
                ..pending[j].1
            },
        ),
    )
}

/// The answer to a grade: when the card is next due, its interval, the
/// grade applied, whether the review is new, and the progress after it.
#[derive(Clone, Debug)]
pub struct GradeReceipt {
    pub due_at_ms: i64,
    pub interval_ms: i64,
    pub applied_outcome: ReviewGrade,
    pub inserted: bool,
    pub progress: ProgressReport,
}

/// The receipt reports review `e` and the progress of `w` at `at`.
pub open spec fn receipt_of(r: GradeReceipt, e: ReviewEvent, inserted: bool, w: ApiView, at: i64) -> bool {
    &&& r.due_at_ms == e.next_due_at_unix_ms
    &&& r.interval_ms == e.next_interval_ms
    &&& r.applied_outcome == e.applied_grade
    &&& r.inserted == inserted
    &&& report_of(r.progress, w, at)
}

/// What a grade request has ready, or that a review is to be written.
pub enum GradeStep {
    Ready(GradeReceipt),
    Write,
}

impl ReviewApi {
    /// Write down that the staged record could not be made durable: the log
    /// refuses further records until it is reopened.
    pub fn abandon_write(&mut self)
        requires
            old(self).wf(),
        ensures
            final(self).wf(),
            final(self)@.catalog == old(self)@.catalog,
            final(self)@.pending == old(self)@.pending,
            final(self)@.log_path == old(self)@.log_path,
            final(self)@.staged is Nothing,
            final(self)@.log.poisoned,
            final(self)@.log.events == old(self)@.log.events,
            final(self)@.log.reveals == old(self)@.log.reveals,
            final(self)@.log.states == old(self)@.log.states,
            final(self)@.log.next_sequence == old(self)@.log.next_sequence,
    {
        self.log.poison();
        self.staged = Staged::Nothing;
    }

    /// The staged record, if any, for the caller to write.
    pub fn staged(&self) -> (r: &Staged)
        ensures
            *r == self@.staged,
    {
        &self.staged
    }

    /// After the staged answer release was written: add it to the log, and
    /// remember the answer in its attempt unless a review made it stale.
    pub fn finish_reveal(&mut self) -> (r: Result<RevealedAttempt, String>)
        requires
            old(self).wf(),
            old(self)@.staged is Reveal,
            old(self)@.log.next_sequence < u64::MAX,
        ensures
            final(self).wf(),
            final(self)@.catalog == old(self)@.catalog,
            final(self)@.log_path == old(self)@.log_path,
            final(self)@.staged is Nothing,
            ({
                let e = old(self)@.staged->Reveal_0;
                &&& final(self)@.log.reveals == old(self)@.log.reveals.push(e)
                &&& final(self)@.log.events == old(self)@.log.events
                &&& final(self)@.log.states == old(self)@.log.states
                &&& final(self)@.log.next_sequence == old(self)@.log.next_sequence + 1
                &&& final(self)@.log.poisoned == old(self)@.log.poisoned
                &&& match attempt_pos(old(self)@.pending, e.event_id@, 0) {
                    None => r matches Err(m) && m@ == "unknown or expired review attempt"@
                        && final(self)@.pending == old(self)@.pending,
                    Some(j) => if e.prior_review_sequence
                        != old(self)@.pending[j].1.expected_last_event_sequence {
                        r matches Err(m) && m@ == "answer release was recorded from a stale card state"@
                            && final(self)@.pending == old(self)@.pending
                    } else {
                        r matches Ok(a) && revealed_from(a, e) && exists|b: RevealedAttempt|
                            revealed_from(b, e) && final(self)@.pending == with_answer(
                                old(self)@.pending,
                                j,
                                b,
                            )
                    },
                }
            }),
    {
        let mut st = Staged::Nothing;
        std::mem::swap(&mut st, &mut self.staged);
        let e = match st {
            Staged::Reveal(e) => e,
            _ => {
                proof {
                    assert(false);
                }
                return Err("unknown or expired review attempt".to_string());
            },
        };
        let a = revealed_of(&e);
        let out = revealed_of(&e);
        let prior = e.prior_review_sequence;
        let j = self.find_attempt(e.event_id.as_str());
        proof {
            lemma_attempt_pos(self@.pending, e.event_id@, 0);
        }
        self.log.commit_reveal(e);
        match j {
            None => Err("unknown or expired review attempt".to_string()),
            Some(j) => {
                if prior != self.pending[j].1.expected_last_event_sequence {
                    return Err("answer release was recorded from a stale card state".to_string());
                }
                self.set_answer(j, a);
                Ok(out)
            },
        }
    }
}

/// The result of a grade request that passed its checks as a grade of
/// attempt `j` (from the service `v` to `w`): a refusal of the log; an
/// identical review already in the log, answered and remembered; or the
/// review staged for writing.
pub open spec fn grade_result(
    v: ApiView,
    w: ApiView,
    req: GradeRequest,
    j: int,
    now: i64,
    mono_ms: u64,
    r: Result<GradeStep, String>,
) -> bool {
    let at = record_time(v.pending[j].1, now, mono_ms);
    let input = grade_input(v, req, j, at);
    match review_outcome(v.log, input) {
        Err(f) => r matches Err(e) && e@ == log_fault_text(f, v.log_path) && w.pending == v.pending
            && w.staged == v.staged,
        Ok(Some(i)) => w.staged == v.staged && w.pending == with_grade(
            v.pending,
            j,
            at as i64,
            req.outcome,
            v.log.events[i].sequence,
        ) && match r {
            Ok(GradeStep::Ready(rc)) => receipt_of(rc, v.log.events[i], false, w, at as i64),
            Ok(GradeStep::Write) => false,
            Err(e) => !deck_fits(w.log, w.catalog.cards, at as i64),
        },
        Ok(None) => r matches Ok(GradeStep::Write) && w.pending == v.pending && (w.staged matches Staged::Review(e)
            && derived_from(
            e,
            v.log.next_sequence,
            prior_state(v.log.states, input.key.card_id@, input.key.content_version@),
            input,
        )),
    }
}

fn copy_text(o: &Option<String>) -> (r: Option<String>)
    ensures
        r == *o,
{
    match o {
        Some(t) => Some(t.clone()),
        None => None,
    }
}

impl ReviewApi {
    /// Attempt `j` is graded `g` at `at` by the review with sequence `seq`.
    fn set_grade(&mut self, j: usize, at: i64, g: ReviewGrade, seq: u64)
        requires
            old(self).wf(),
            j < old(self)@.pending.len(),
        ensures
            final(self).wf(),
            final(self)@.catalog == old(self)@.catalog,
            final(self)@.log == old(self)@.log,
            final(self)@.log_path == old(self)@.log_path,
            final(self)@.staged == old(self)@.staged,
            final(self)@.pending == with_grade(old(self)@.pending, j as int, at, g, seq),
    {
        let (id, mut p) = self.pending.remove(j);
        p.recorded_at_unix_ms = Some(at);
        p.recorded_grade = Some(g);
        p.expected_last_event_sequence = Some(seq);
        self.pending.insert(j, (id, p));
        proof {
            assert(self@.pending =~= with_grade(old(self)@.pending, j as int, at, g, seq));
        }
    }

    /// The receipt of review `i` of the log, with the progress at `at`.
    fn receipt(&self, i: usize, inserted: bool, at: i64) -> (r: Result<GradeReceipt, String>)
        requires
            i < self@.log.events.len(),
        ensures
            match r {
                Ok(rc) => receipt_of(rc, self@.log.events[i as int], inserted, self@, at),
                Err(_) => !deck_fits(self@.log, self@.catalog.cards, at),
            },
    {
        let e = &self.log.events()[i];
        let due_at_ms = e.next_due_at_unix_ms;
        let interval_ms = e.next_interval_ms;
        let applied_outcome = e.applied_grade;
        match self.progress_report(at) {
            Err(m) => Err(m),
            Ok(progress) => Ok(GradeReceipt { due_at_ms, interval_ms, applied_outcome, inserted, progress }),
        }
    }

    /// Record a self-grade (after expired attempts were swept): the checks
    /// of `grade_prep`, then the log's decision; a new review is staged for
    /// the caller to write, after which it calls `finish_grade`.
    pub fn grade(&mut self, request: GradeRequest, now: i64, mono_ms: u64) -> (r: Result<GradeStep, String>)
        requires
            old(self).wf(),
        ensures
            final(self).wf(),
            final(self)@.catalog == old(self)@.catalog,
            final(self)@.log == old(self)@.log,
            final(self)@.log_path == old(self)@.log_path,
            match grade_prep(old(self)@, request) {
                Err(m) => r matches Err(e) && e@ == m && final(self)@.pending == old(self)@.pending
                    && final(self)@.staged == old(self)@.staged,
                Ok(GradePrep::Stored(i)) => final(self)@.pending == old(self)@.pending
                    && final(self)@.staged == old(self)@.staged && match r {
                    Ok(GradeStep::Ready(rc)) => receipt_of(rc, old(self)@.log.events[i], false, old(self)@, now),
                    Ok(GradeStep::Write) => false,
                    Err(e) => !deck_fits(old(self)@.log, old(self)@.catalog.cards, now),
                },
                Ok(GradePrep::Record(j)) => grade_result(
                    old(self)@,
                    final(self)@,
                    request,
                    j,
                    now,
                    mono_ms,
                    r,
                ),
            },
    {
        let j = match self.find_attempt(request.attempt_id.as_str()) {
            None => {
                let i = self.log.event_index_of(request.attempt_id.as_str());
                match i {
                    None => {
                        return Err("unknown or expired review attempt".to_string());
                    },
                    Some(i) => {
                        if self.log.events()[i].submitted_grade != request.outcome {
                            return Err("review attempt was already graded differently".to_string());
                        }
                        match self.receipt(i, false, now) {
                            Err(m) => {
                                return Err(m);
                            },
                            Ok(rc) => {
                                return Ok(GradeStep::Ready(rc));
                            },
                        }
                    },
                }
            },
            Some(j) => j,
        };
        proof {
            lemma_attempt_pos(self@.pending, request.attempt_id@, 0);
        }
        let p = &self.pending[j].1;
        let a = match &p.revealed {
            None => {
                return Err("reveal the card before grading it".to_string());
            },
            Some(a) => a,
        };
        match p.recorded_grade {
            Some(g) => {
                if g != request.outcome {
                    return Err("review attempt was already graded differently".to_string());
                }
            },
            None => {
                let rk = review_key(&p.key);
                let current: Option<u64> = match self.log.state(&rk) {
                    Some(st) => Some(st.last_event_sequence),
                    None => None,
                };
                if current != p.expected_last_event_sequence {
                    return Err(
                        "review card changed after this attempt was issued; load a fresh card".to_string(),
                    );
                }
            },
        }
        let at: i64 = match p.recorded_at_unix_ms {
            Some(t) => t,
            None => {
                let el: u64 = if mono_ms >= p.shown_at_mono_ms {
                    mono_ms - p.shown_at_mono_ms
                } else {
                    0
                };
                let el_i: i64 = if el <= 9_223_372_036_854_775_807u64 {
                    el as i64
                } else {
                    i64::MAX
                };
                let mono_now: i64 = if p.shown_at_unix_ms > i64::MAX - el_i {
                    i64::MAX
                } else {
                    p.shown_at_unix_ms + el_i
                };
                let m1 = if now >= mono_now {
                    now
                } else {
                    mono_now
                };
                if m1 >= a.revealed_at_unix_ms {
                    m1
                } else {
                    a.revealed_at_unix_ms
                }
            },
        };
        let input = ReviewInput {
            event_id: request.attempt_id.clone(),
            key: review_key(&p.key),
            evidence_version: a.feedback.evidence_version.clone(),
            shown_at_unix_ms: p.shown_at_unix_ms,
            reviewed_at_unix_ms: at,
            grade: request.outcome,
            hint_used: a.hint_used,
            response_uci: copy_text(&a.response_uci),
            reference_match: a.feedback.reference_match,
            latency_ms: a.latency_ms,
        };
        proof {
            assert(input == grade_input(old(self)@, request, j as int, at as int));
        }
        match self.log.prepare_review(input) {
            Err(f) => Err(self.fault_message(&f)),
            Ok(crate::review_log::ReviewPlan::Existing(i)) => {
                let seq = self.log.events()[i].sequence;
                self.set_grade(j, at, request.outcome, seq);
                match self.receipt(i, false, at) {
                    Err(m) => Err(m),
                    Ok(rc) => Ok(GradeStep::Ready(rc)),
                }
            },
            Ok(crate::review_log::ReviewPlan::Append(e)) => {
                proof {
                    assert(input_of(e) == grade_input(old(self)@, request, j as int, at as int));
                }
                self.staged = Staged::Review(e);
                Ok(GradeStep::Write)
            },
        }
    }

    /// After the staged review was written: fold it into the log, remember
    /// the grade in its attempt, and answer with the receipt.
    pub fn finish_grade(&mut self) -> (r: Result<GradeReceipt, String>)
        requires
            old(self).wf(),
            old(self)@.staged is Review,
            old(self)@.log.next_sequence < u64::MAX,
        ensures
            final(self).wf(),
            final(self)@.catalog == old(self)@.catalog,
            final(self)@.log_path == old(self)@.log_path,
            final(self)@.staged is Nothing,
            ({
                let e = old(self)@.staged->Review_0;
                &&& final(self)@.log.events == old(self)@.log.events.push(e)
                &&& final(self)@.log.reveals == old(self)@.log.reveals
                &&& crate::review_log::states_after(old(self)@.log.states, final(self)@.log.states, e)
                &&& final(self)@.log.next_sequence == old(self)@.log.next_sequence + 1
                &&& final(self)@.log.poisoned == old(self)@.log.poisoned
                &&& match attempt_pos(old(self)@.pending, e.event_id@, 0) {
                    None => r matches Err(m) && m@ == "unknown or expired review attempt"@
                        && final(self)@.pending == old(self)@.pending,
                    Some(j) => final(self)@.pending == with_grade(
                        old(self)@.pending,
                        j,
                        e.reviewed_at_unix_ms,
                        e.submitted_grade,
                        e.sequence,
                    ) && match r {
                        Ok(rc) => receipt_of(rc, e, true, final(self)@, e.reviewed_at_unix_ms),
                        Err(_) => !deck_fits(final(self)@.log, final(self)@.catalog.cards, e.reviewed_at_unix_ms),
                    },
                }
            }),
    {
        let mut st = Staged::Nothing;
        std::mem::swap(&mut st, &mut self.staged);
        let e = match st {
            Staged::Review(e) => e,
            _ => {
                proof {
                    assert(false);
                }
                return Err("unknown or expired review attempt".to_string());
            },
        };
        let at = e.reviewed_at_unix_ms;
        let g = e.submitted_grade;
        let seq = e.sequence;
        let j = self.find_attempt(e.event_id.as_str());
        proof {
            lemma_attempt_pos(self@.pending, e.event_id@, 0);
        }
        let ghost e0 = e;
        self.log.commit_review(e);
        let i = self.log.events().len() - 1;
        proof {
            assert(self@.log.events[i as int] == e0);
        }
        match j {
            None => Err("unknown or expired review attempt".to_string()),
            Some(j) => {
                self.set_grade(j, at, g, seq);
                self.receipt(i, true, at)
            },
        }
    }
}

#[verifier::external_type_specification]
#[verifier::external_body]
pub struct ExSystemTime(std::time::SystemTime);

/// `SystemTime::now`. Nothing is claimed of the time it reads.
#[verifier::external_body]
fn system_now() -> std::time::SystemTime {
    std::time::SystemTime::now()
}

/// `SystemTime::duration_since(UNIX_EPOCH)`, with its error (a clock
/// before the epoch) as `None`. Nothing is claimed of the duration.
#[verifier::external_body]
fn since_epoch(t: &std::time::SystemTime) -> Option<std::time::Duration> {
    t.duration_since(std::time::UNIX_EPOCH).ok()
}

/// `Duration::as_millis`. Nothing is claimed of the count, since nothing
/// is known of a `Duration` here.
#[verifier::external_body]
pub(crate) fn whole_millis(d: &std::time::Duration) -> u128 {
    d.as_millis()
}

/// The wall-clock time in milliseconds, given the milliseconds since the
/// Unix epoch (`None` when the clock reads before it).
pub fn unix_ms_from(ms: Option<u128>) -> (r: Result<i64, String>)
    ensures
        match ms {
            None => r matches Err(e) && e@ == "system clock precedes the Unix epoch"@,
            Some(m) => if m <= i64::MAX {
                r == Ok::<i64, String>(m as i64)
            } else {
                r matches Err(e) && e@ == "system clock is out of range"@
            },
        },
{
    match ms {
        None => Err("system clock precedes the Unix epoch".to_string()),
        Some(m) => if m <= 9_223_372_036_854_775_807u128 {
            Ok(m as i64)
        } else {
            Err("system clock is out of range".to_string())
        },
    }
}

/// The wall-clock time in milliseconds since the Unix epoch. Whatever the
/// clock reads, a time returned is not negative, and a refusal says that the
/// clock reads before the epoch or past what an `i64` holds; which of these
/// comes depends on the clock alone.
pub fn now_unix_ms() -> (r: Result<i64, String>)
    ensures
        match r {
            Ok(t) => t >= 0,
            Err(e) => e@ == "system clock precedes the Unix epoch"@ || e@
                == "system clock is out of range"@,
        },
{
    let now = system_now();
    let ms = match since_epoch(&now) {
        Some(d) => Some(whole_millis(&d)),
        None => None,
    };
    unix_ms_from(ms)
}

/// Retrying a reveal: while attempt `j` is ungraded and its card unchanged,
/// once its answer `a` is out a request that commits to the same thing is
/// answered by showing `a` again, and any other request is refused as a
/// conflict (a refusal that, by `reveal_answer`, changes nothing).
pub proof fn lemma_reveal_retry(v: ApiView, req: RevealRequest, j: int, a: RevealedAttempt)
    requires
        attempt_pos(v.pending, req.attempt_id@, 0) == Some(j),
        v.pending[j].1.revealed == Some(a),
        v.pending[j].1.recorded_grade is None,
        last_sequence(v.log.states, v.pending[j].1.key.card_id@, v.pending[j].1.key.content_version@)
            == v.pending[j].1.expected_last_event_sequence,
    ensures
        same_commitment(a, req) ==> reveal_prep(v, req) == Ok::<RevealPrep, Seq<char>>(
            RevealPrep::Recover(j),
        ),
        !same_commitment(a, req) ==> reveal_prep(v, req) == Err::<RevealPrep, Seq<char>>(
            "reveal request conflicts with the move already committed for this attempt"@,
        ),
{
}

/// Grading after a give-up: when attempt `j`'s answer was released by
/// giving up, the review a grade request stages keeps the submitted grade
/// but applies a miss; and when the log already holds this attempt's review
/// for the same input (a retried grade), nothing new is staged.
pub proof fn lemma_grade_after_give_up(
    v: ApiView,
    w: ApiView,
    req: GradeRequest,
    j: int,
    now: i64,
    mono_ms: u64,
    r: Result<GradeStep, String>,
)
    requires
        grade_prep(v, req) == Ok::<GradePrep, Seq<char>>(GradePrep::Record(j)),
        v.pending[j].1.revealed matches Some(a) && a.hint_used,
        grade_result(v, w, req, j, now, mono_ms, r),
    ensures
        r matches Ok(GradeStep::Write) ==> (w.staged matches Staged::Review(e)
            && e.applied_grade == ReviewGrade::Miss && e.submitted_grade == req.outcome),
        review_outcome(v.log, grade_input(v, req, j, record_time(v.pending[j].1, now, mono_ms)))
            matches Ok(Some(i)) ==> w.staged == v.staged && !(r matches Ok(GradeStep::Write)),
{
}

} // verus!
