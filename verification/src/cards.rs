//! The curated diagnostic cards of the trainer: the content and evidence
//! digests that pin them, the replay that checks each card against its
//! source game, and the deck overlay that turns them into training cards.
//! Reading the JSON files is the program's business; this module works on
//! their decoded contents.
use crate::book::texts;
use crate::board::{Board, BoardState};
use crate::fen::{decimal, fen_spec, fen_text};
use crate::game::{Game, clocks_ok, keeps_kings};
use crate::http::{int_text, push_i64, push_str, push_u64};
use crate::movegen::legal;
use crate::moves::Move;
use crate::repetition::{id_text, key_of};
use crate::board::in_check_spec;
use crate::fen::FenFault;
use crate::san::san_text;
use crate::state::{
    lemma_king_unclocked, lemma_play_len, lemma_replay_len, lemma_uci_move, names_move, play,
    play_tokens, replay, replay_safe, sans_of, uci_move, ucis_of,
};
use crate::text::{chars_of, is_ws};
use crate::types::Color;
use crate::uci::{uci_slices_ok, uci_text};
use vstd::prelude::*;
use vstd::utf8::encode_utf8;

verus! {

pub const BUNDLE_SCHEMA: &'static str = "chess-diagnostic-cards";

pub const DECK_SCHEMA: &'static str = "chess-training-deck";

pub const SCHEMA_VERSION: u32 = 1;

/// Largest accepted input file.
pub const MAX_INPUT_BYTES: u64 = 67_108_864;

// --- digests ---

/// A lowercase hexadecimal digit.
pub open spec fn hex_digit(n: int) -> char {
    if n < 10 {
        (48 + n) as char
    } else {
        (87 + n) as char
    }
}

/// The escape serde_json writes for one character of a string.
pub open spec fn json_escape(c: char) -> Seq<char> {
    let u = c as u32;
    if u == 8 {
        seq!['\\', 'b']
    } else if u == 9 {
        seq!['\\', 't']
    } else if u == 10 {
        seq!['\\', 'n']
    } else if u == 12 {
        seq!['\\', 'f']
    } else if u == 13 {
        seq!['\\', 'r']
    } else if c == '"' {
        seq!['\\', '"']
    } else if c == '\\' {
        seq!['\\', '\\']
    } else if u < 0x20 {
        seq!['\\', 'u', '0', '0', hex_digit(u as int / 16), hex_digit(u as int % 16)]
    } else {
        seq![c]
    }
}

/// The escapes of all characters of `cs`.
pub open spec fn json_escapes(cs: Seq<char>) -> Seq<char>
    decreases cs.len(),
{
    if cs.len() == 0 {
        Seq::empty()
    } else {
        json_escapes(cs.drop_last()) + json_escape(cs.last())
    }
}

/// The JSON string serde_json writes for a text: quoted, with `"`, `\` and
/// the control characters escaped (`\b \t \n \f \r`, else `\u00xx`).
pub open spec fn json_string(cs: Seq<char>) -> Seq<char> {
    seq!['"'] + json_escapes(cs) + seq!['"']
}

/// `serde_json::to_string` of a string: the JSON string of the text.
/// Writing a string to memory cannot fail, so the error arm is never taken.
#[verifier::external_body]
fn json_string_of(s: &str) -> (r: String)
    ensures
        r@ == json_string(s@),
{
    match serde_json::to_string(s) {
        Ok(t) => t,
        Err(_) => String::new(),
    }
}

/// The SHA-256 digest of a byte string.
pub uninterp spec fn sha256_of(bytes: Seq<u8>) -> Seq<u8>;

/// `Sha256::digest`: the 32-byte SHA-256 digest of `bytes`.
#[verifier::external_body]
fn sha256(bytes: &[u8]) -> (r: Vec<u8>)
    ensures
        r@ == sha256_of(bytes@),
        r@.len() == 32,
{
    <sha2::Sha256 as sha2::Digest>::digest(bytes).to_vec()
}

/// Two lowercase hexadecimal digits per byte.
pub open spec fn hex_text(b: Seq<u8>) -> Seq<char>
    decreases b.len(),
{
    if b.len() == 0 {
        Seq::empty()
    } else {
        hex_text(b.drop_last()) + seq![hex_digit(b.last() as int / 16), hex_digit(b.last() as int % 16)]
    }
}

/// The digest text of a canonical JSON text: `sha256:` and the lowercase
/// hexadecimal SHA-256 of its UTF-8 bytes.
pub open spec fn digest_text(canonical: Seq<char>) -> Seq<char> {
    "sha256:"@ + hex_text(sha256_of(encode_utf8(canonical)))
}

/// The digest text of a canonical JSON text.
fn digest_of(canonical: &String) -> (r: String)
    ensures
        r@ == digest_text(canonical@),
{
    let d = sha256(canonical.as_str().as_bytes());
    let mut out = String::new();
    push_str(&mut out, "sha256:");
    let ghost head = out@;
    let mut i: usize = 0;
    while i < d.len()
        invariant
            i <= d@.len(),
            out@ == head + hex_text(d@.take(i as int)),
        decreases d@.len() - i,
    {
        let b = d[i];
        let h = b / 16;
        let l = b % 16;
        out.push(
            if h < 10 {
                ((48 + h) as u8) as char
            } else {
                ((87 + h) as u8) as char
            },
        );
        out.push(
            if l < 10 {
                ((48 + l) as u8) as char
            } else {
                ((87 + l) as u8) as char
            },
        );
        proof {
            assert(d@.take(i + 1).drop_last() =~= d@.take(i as int));
        }
        i += 1;
        assert(out@ =~= head + hex_text(d@.take(i as int)));
    }
    assert(d@.take(d@.len() as int) =~= d@);
    out
}

/// A JSON array of JSON strings.
pub open spec fn json_strings(items: Seq<Seq<char>>) -> Seq<char>
    decreases items.len(),
{
    if items.len() == 0 {
        Seq::empty()
    } else if items.len() == 1 {
        json_string(items[0])
    } else {
        json_strings(items.drop_last()) + seq![','] + json_string(items.last())
    }
}

/// A JSON array of strings, compact.
pub open spec fn json_array(items: Seq<Seq<char>>) -> Seq<char> {
    seq!['['] + json_strings(items) + seq![']']
}

/// Append the JSON array of some strings.
fn push_json_array(out: &mut String, items: &Vec<String>)
    ensures
        final(out)@ == old(out)@ + json_array(texts(items@)),
{
    let ghost all = texts(items@);
    let ghost head = out@;
    out.push('[');
    let mut i: usize = 0;
    while i < items.len()
        invariant
            i <= items@.len(),
            all == texts(items@),
            out@ == head + seq!['['] + json_strings(all.take(i as int)),
        decreases items@.len() - i,
    {
        proof {
            assert(all.take(i + 1).drop_last() =~= all.take(i as int));
            assert(all.take(i + 1).last() == items@[i as int]@);
        }
        if i > 0 {
            out.push(',');
        }
        push_str(out, json_string_of(items[i].as_str()).as_str());
        i += 1;
        proof {
            if i == 1 {
                assert(all.take(1) =~= seq![all[0]]);
            }
            assert(out@ =~= head + seq!['['] + json_strings(all.take(i as int)));
        }
    }
    assert(all.take(items@.len() as int) =~= all);
    out.push(']');
}

/// A JSON member: the key's JSON string, a colon, the value.
pub open spec fn member(k: Seq<char>, v: Seq<char>) -> Seq<char> {
    json_string(k) + seq![':'] + v
}

/// Members joined by commas.
pub open spec fn join_members(items: Seq<Seq<char>>) -> Seq<char>
    decreases items.len(),
{
    if items.len() == 0 {
        Seq::empty()
    } else if items.len() == 1 {
        items[0]
    } else {
        join_members(items.drop_last()) + seq![','] + items.last()
    }
}

/// A compact JSON object of members.
pub open spec fn json_object(items: Seq<Seq<char>>) -> Seq<char> {
    seq!['{'] + join_members(items) + seq!['}']
}

/// The member `k: v`.
fn member_of(k: &str, v: String) -> (r: String)
    ensures
        r@ == member(k@, v@),
{
    let mut out = json_string_of(k);
    out.push(':');
    push_str(&mut out, v.as_str());
    out
}

/// The object of some members.
fn object_of(items: &Vec<String>) -> (r: String)
    ensures
        r@ == json_object(texts(items@)),
{
    let ghost all = texts(items@);
    let mut out = String::new();
    out.push('{');
    let mut i: usize = 0;
    while i < items.len()
        invariant
            i <= items@.len(),
            all == texts(items@),
            out@ == seq!['{'] + join_members(all.take(i as int)),
        decreases items@.len() - i,
    {
        proof {
            assert(all.take(i + 1).drop_last() =~= all.take(i as int));
            assert(all.take(i + 1).last() == items@[i as int]@);
        }
        if i > 0 {
            out.push(',');
        }
        push_str(&mut out, items[i].as_str());
        i += 1;
        proof {
            if i == 1 {
                assert(all.take(1) =~= seq![all[0]]);
            }
            assert(out@ =~= seq!['{'] + join_members(all.take(i as int)));
        }
    }
    assert(all.take(items@.len() as int) =~= all);
    out.push('}');
    out
}

/// The JSON array of some strings.
fn array_of(items: &Vec<String>) -> (r: String)
    ensures
        r@ == json_array(texts(items@)),
{
    let mut out = String::new();
    push_json_array(&mut out, items);
    out
}

/// The decimal text of a count.
fn decimal_of(n: usize) -> (r: String)
    ensures
        r@ == decimal(n as nat),
{
    let mut out = String::new();
    push_u64(&mut out, n as u64);
    out
}

/// The decimal text of a signed number.
fn int_of(n: i64) -> (r: String)
    ensures
        r@ == int_text(n as int),
{
    let mut out = String::new();
    push_i64(&mut out, n);
    out
}

/// The text `null`.
pub open spec fn null_text() -> Seq<char> {
    seq!['n', 'u', 'l', 'l']
}

/// The occurrence of a card: the game, the decision ply, the start and the
/// moves before the decision.
#[derive(Clone, Debug)]
pub struct Occurrence {
    pub game_id: String,
    pub decision_ply: usize,
    pub initial_fen: String,
    pub history_uci: Vec<String>,
}

/// The raw position of a card.
#[derive(Clone, Debug)]
pub struct Position {
    pub current_fen: String,
    pub position_id: String,
}

/// The prompt of a card.
#[derive(Clone, Debug)]
pub struct DiagnosticPrompt {
    pub orientation: String,
    pub task: String,
    pub text: String,
}

/// The engine's answer for a card.
#[derive(Clone, Debug)]
pub struct DiagnosticAnswer {
    pub reference_move_uci: String,
    pub played_move_uci: String,
    pub reference_line_uci: Vec<String>,
    pub played_line_uci: Vec<String>,
    pub reference_score_cp_equivalent: i64,
    pub played_score_cp_equivalent: i64,
    pub loss_cp_equivalent: i64,
    pub loss_bucket: String,
    pub mate_event: Option<String>,
}

/// One card of a diagnostic bundle.
#[derive(Clone, Debug)]
pub struct DiagnosticCard {
    pub card_id: String,
    pub content_version: String,
    pub evidence_version: String,
    pub kind: String,
    pub occurrence: Occurrence,
    pub position: Position,
    pub prompt: DiagnosticPrompt,
    pub answer: DiagnosticAnswer,
    pub tags: Vec<String>,
}

/// The canonical JSON of an occurrence (keys sorted, compact).
pub open spec fn occurrence_json(o: Occurrence) -> Seq<char> {
    json_object(
        seq![
            member("decision_ply"@, decimal(o.decision_ply as nat)),
            member("game_id"@, json_string(o.game_id@)),
            member("history_uci"@, json_array(texts(o.history_uci@))),
            member("initial_fen"@, json_string(o.initial_fen@)),
        ],
    )
}

/// The canonical JSON of a position.
pub open spec fn position_json(p: Position) -> Seq<char> {
    json_object(
        seq![
            member("current_fen"@, json_string(p.current_fen@)),
            member("position_id"@, json_string(p.position_id@)),
        ],
    )
}

/// The JSON of an optional mate event.
pub open spec fn mate_json(m: Option<String>) -> Seq<char> {
    match m {
        Some(t) => json_string(t@),
        None => null_text(),
    }
}

/// The canonical JSON of an answer.
pub open spec fn answer_json(a: DiagnosticAnswer) -> Seq<char> {
    json_object(
        seq![
            member("loss_bucket"@, json_string(a.loss_bucket@)),
            member("loss_cp_equivalent"@, int_text(a.loss_cp_equivalent as int)),
            member("mate_event"@, mate_json(a.mate_event)),
            member("played_line_uci"@, json_array(texts(a.played_line_uci@))),
            member("played_move_uci"@, json_string(a.played_move_uci@)),
            member("played_score_cp_equivalent"@, int_text(a.played_score_cp_equivalent as int)),
            member("reference_line_uci"@, json_array(texts(a.reference_line_uci@))),
            member("reference_move_uci"@, json_string(a.reference_move_uci@)),
            member(
                "reference_score_cp_equivalent"@,
                int_text(a.reference_score_cp_equivalent as int),
            ),
        ],
    )
}

/// The canonical JSON of a card's semantic content: its kind, occurrence,
/// orientation, position, reference move and task.
pub open spec fn semantic_json(card: DiagnosticCard) -> Seq<char> {
    json_object(
        seq![
            member("kind"@, json_string(card.kind@)),
            member("occurrence"@, occurrence_json(card.occurrence)),
            member("orientation"@, json_string(card.prompt.orientation@)),
            member("position"@, position_json(card.position)),
            member("reference_move_uci"@, json_string(card.answer.reference_move_uci@)),
            member("task"@, json_string(card.prompt.task@)),
        ],
    )
}

/// The canonical JSON the evidence digest binds: the analysis configuration
/// and the answer.
pub open spec fn evidence_json(acv: Seq<char>, a: DiagnosticAnswer) -> Seq<char> {
    json_object(
        seq![
            member("analysis_config_version"@, json_string(acv)),
            member("answer"@, answer_json(a)),
        ],
    )
}

/// The canonical JSON of an occurrence.
fn occurrence_text(o: &Occurrence) -> (r: String)
    ensures
        r@ == occurrence_json(*o),
{
    let items = vec![
        member_of("decision_ply", decimal_of(o.decision_ply)),
        member_of("game_id", json_string_of(o.game_id.as_str())),
        member_of("history_uci", array_of(&o.history_uci)),
        member_of("initial_fen", json_string_of(o.initial_fen.as_str())),
    ];
    let r = object_of(&items);
    assert(texts(items@) =~= seq![
        member("decision_ply"@, decimal(o.decision_ply as nat)),
        member("game_id"@, json_string(o.game_id@)),
        member("history_uci"@, json_array(texts(o.history_uci@))),
        member("initial_fen"@, json_string(o.initial_fen@)),
    ]);
    r
}

/// The canonical JSON of a position.
fn position_text(p: &Position) -> (r: String)
    ensures
        r@ == position_json(*p),
{
    let items = vec![
        member_of("current_fen", json_string_of(p.current_fen.as_str())),
        member_of("position_id", json_string_of(p.position_id.as_str())),
    ];
    let r = object_of(&items);
    assert(texts(items@) =~= seq![
        member("current_fen"@, json_string(p.current_fen@)),
        member("position_id"@, json_string(p.position_id@)),
    ]);
    r
}

/// The canonical JSON of an answer.
fn answer_text(a: &DiagnosticAnswer) -> (r: String)
    ensures
        r@ == answer_json(*a),
{
    let mate = match &a.mate_event {
        Some(m) => json_string_of(m.as_str()),
        None => {
            let mut n = String::new();
            n.push('n');
            n.push('u');
            n.push('l');
            n.push('l');
            n
        },
    };
    let items = vec![
        member_of("loss_bucket", json_string_of(a.loss_bucket.as_str())),
        member_of("loss_cp_equivalent", int_of(a.loss_cp_equivalent)),
        member_of("mate_event", mate),
        member_of("played_line_uci", array_of(&a.played_line_uci)),
        member_of("played_move_uci", json_string_of(a.played_move_uci.as_str())),
        member_of("played_score_cp_equivalent", int_of(a.played_score_cp_equivalent)),
        member_of("reference_line_uci", array_of(&a.reference_line_uci)),
        member_of("reference_move_uci", json_string_of(a.reference_move_uci.as_str())),
        member_of("reference_score_cp_equivalent", int_of(a.reference_score_cp_equivalent)),
    ];
    let r = object_of(&items);
    proof {
        let m = mate_json(a.mate_event);
        assert(mate@ =~= m);
        assert(texts(items@) =~= seq![
            member("loss_bucket"@, json_string(a.loss_bucket@)),
            member("loss_cp_equivalent"@, int_text(a.loss_cp_equivalent as int)),
            member("mate_event"@, m),
            member("played_line_uci"@, json_array(texts(a.played_line_uci@))),
            member("played_move_uci"@, json_string(a.played_move_uci@)),
            member("played_score_cp_equivalent"@, int_text(a.played_score_cp_equivalent as int)),
            member("reference_line_uci"@, json_array(texts(a.reference_line_uci@))),
            member("reference_move_uci"@, json_string(a.reference_move_uci@)),
            member(
                "reference_score_cp_equivalent"@,
                int_text(a.reference_score_cp_equivalent as int),
            ),
        ]);
    }
    r
}

/// The semantic content digest of a card: the digest of the canonical JSON
/// of its kind, occurrence, orientation, position, reference move and task.
pub fn semantic_content_version(card: &DiagnosticCard) -> (r: Result<String, CardsError>)
    ensures
        r matches Ok(s) && s@ == digest_text(semantic_json(*card)),
{
    let items = vec![
        member_of("kind", json_string_of(card.kind.as_str())),
        member_of("occurrence", occurrence_text(&card.occurrence)),
        member_of("orientation", json_string_of(card.prompt.orientation.as_str())),
        member_of("position", position_text(&card.position)),
        member_of("reference_move_uci", json_string_of(card.answer.reference_move_uci.as_str())),
        member_of("task", json_string_of(card.prompt.task.as_str())),
    ];
    let c = object_of(&items);
    assert(texts(items@) =~= seq![
        member("kind"@, json_string(card.kind@)),
        member("occurrence"@, occurrence_json(card.occurrence)),
        member("orientation"@, json_string(card.prompt.orientation@)),
        member("position"@, position_json(card.position)),
        member("reference_move_uci"@, json_string(card.answer.reference_move_uci@)),
        member("task"@, json_string(card.prompt.task@)),
    ]);
    Ok(digest_of(&c))
}

/// The evidence digest of an answer under an analysis configuration.
pub fn evidence_content_version(analysis_config_version: &str, answer: &DiagnosticAnswer) -> (r:
    String)
    ensures
        r@ == digest_text(evidence_json(analysis_config_version@, *answer)),
{
    let items = vec![
        member_of("analysis_config_version", json_string_of(analysis_config_version)),
        member_of("answer", answer_text(answer)),
    ];
    let c = object_of(&items);
    assert(texts(items@) =~= seq![
        member("analysis_config_version"@, json_string(analysis_config_version@)),
        member("answer"@, answer_json(*answer)),
    ]);
    digest_of(&c)
}

// --- errors ---

/// Why a card, a deck or a response is refused.
#[derive(Debug)]
pub enum CardsError {
    Schema(String),
    Duplicate(String),
    DeckReference(String),
    InvalidCard { card_id: String, message: String },
    InvalidResponse { card_id: String, message: String },
}

/// The content of a [`CardsError`].
pub enum CardsFault {
    Schema(Seq<char>),
    Duplicate(Seq<char>),
    DeckReference(Seq<char>),
    InvalidCard(Seq<char>, Seq<char>),
    InvalidResponse(Seq<char>, Seq<char>),
}

impl View for CardsError {
    type V = CardsFault;

    open spec fn view(&self) -> CardsFault {
        match self {
            CardsError::Schema(m) => CardsFault::Schema(m@),
            CardsError::Duplicate(m) => CardsFault::Duplicate(m@),
            CardsError::DeckReference(m) => CardsFault::DeckReference(m@),
            CardsError::InvalidCard { card_id, message } => CardsFault::InvalidCard(
                card_id@,
                message@,
            ),
            CardsError::InvalidResponse { card_id, message } => CardsFault::InvalidResponse(
                card_id@,
                message@,
            ),
        }
    }
}

/// How a refusal reads: its message, after `card '<id>': ` when it is
/// about one card.
pub open spec fn fault_text(f: CardsFault) -> Seq<char> {
    match f {
        CardsFault::Schema(m) => m,
        CardsFault::Duplicate(m) => m,
        CardsFault::DeckReference(m) => m,
        CardsFault::InvalidCard(id, m) => "card '"@ + id + "': "@ + m,
        CardsFault::InvalidResponse(id, m) => "card '"@ + id + "': "@ + m,
    }
}

impl CardsError {
    /// The refusal as text.
    pub fn message(&self) -> (r: String)
        ensures
            r@ == fault_text(self@),
    {
        match self {
            CardsError::Schema(m) => m.clone(),
            CardsError::Duplicate(m) => m.clone(),
            CardsError::DeckReference(m) => m.clone(),
            CardsError::InvalidCard { card_id, message } | CardsError::InvalidResponse {
                card_id,
                message,
            } => {
                let mut s = String::new();
                crate::http::push_str(&mut s, "card '");
                crate::http::push_str(&mut s, card_id.as_str());
                crate::http::push_str(&mut s, "': ");
                crate::http::push_str(&mut s, message.as_str());
                s
            },
        }
    }
}

/// A text holding only whitespace (empty once trimmed).
pub open spec fn blank(cs: Seq<char>) -> bool {
    forall|i: int| 0 <= i < cs.len() ==> is_ws(#[trigger] cs[i])
}

/// Whether a text is empty once trimmed.
fn is_blank(s: &str) -> (r: bool)
    ensures
        r == blank(s@),
{
    let cs = chars_of(s);
    let mut i: usize = 0;
    while i < cs.len()
        invariant
            i <= cs@.len(),
            cs@ == s@,
            forall|j: int| 0 <= j < i ==> is_ws(#[trigger] cs@[j]),
        decreases cs.len() - i,
    {
        if !crate::text::is_whitespace(cs[i]) {
            return false;
        }
        i += 1;
    }
    true
}

/// The complaint about an empty field.
pub open spec fn empty_fault(field: Seq<char>) -> CardsFault {
    CardsFault::Schema(field + " must not be empty"@)
}

/// A field must not be blank.
pub fn validate_nonempty(field: &str, value: &str) -> (r: Result<(), CardsError>)
    ensures
        blank(value@) ==> (r matches Err(e) && e@ == empty_fault(field@)),
        !blank(value@) ==> r is Ok,
{
    if is_blank(value) {
        let mut m = String::new();
        push_str(&mut m, field);
        push_str(&mut m, " must not be empty");
        Err(CardsError::Schema(m))
    } else {
        Ok(())
    }
}

/// A lowercase hexadecimal digit character.
pub open spec fn is_lower_hex(c: char) -> bool {
    (48 <= (c as u32) <= 57) || (97 <= (c as u32) <= 102)
}

/// A digest text: `sha256:` and 64 lowercase hexadecimal digits.
pub open spec fn digest_ok(cs: Seq<char>) -> bool {
    &&& cs.len() == 71
    &&& cs.take(7) == "sha256:"@
    &&& forall|i: int| 7 <= i < 71 ==> is_lower_hex(#[trigger] cs[i])
}

/// The complaint about a malformed digest.
pub open spec fn digest_fault(field: Seq<char>) -> CardsFault {
    CardsFault::Schema(field + " must be a lowercase sha256 digest"@)
}

/// A field must hold a lowercase sha256 digest.
pub fn validate_digest(field: &str, value: &str) -> (r: Result<(), CardsError>)
    ensures
        !digest_ok(value@) ==> (r matches Err(e) && e@ == digest_fault(field@)),
        digest_ok(value@) ==> r is Ok,
{
    let cs = chars_of(value);
    proof {
        reveal_strlit("sha256:");
    }
    let mut valid = cs.len() == 71 && cs[0] == 's' && cs[1] == 'h' && cs[2] == 'a' && cs[3] == '2'
        && cs[4] == '5' && cs[5] == '6' && cs[6] == ':';
    proof {
        if cs@.len() == 71 {
            assert(valid == (cs@.take(7) == "sha256:"@)) by {
                if valid {
                    assert(cs@.take(7) =~= "sha256:"@);
                }
                if cs@.take(7) == "sha256:"@ {
                    assert(cs@[0] == cs@.take(7)[0]);
                    assert(cs@[1] == cs@.take(7)[1]);
                    assert(cs@[2] == cs@.take(7)[2]);
                    assert(cs@[3] == cs@.take(7)[3]);
                    assert(cs@[4] == cs@.take(7)[4]);
                    assert(cs@[5] == cs@.take(7)[5]);
                    assert(cs@[6] == cs@.take(7)[6]);
                }
            }
        }
    }
    if valid {
        let mut i: usize = 7;
        while i < 71 && valid
            invariant
                7 <= i <= 71,
                cs@.len() == 71,
                valid ==> forall|j: int| 7 <= j < i ==> is_lower_hex(#[trigger] cs@[j]),
                !valid ==> !is_lower_hex(cs@[i as int]) && i < 71,
            decreases 71 - i + (if valid {
                1int
            } else {
                0int
            }),
        {
            let c = cs[i];
            if !((48 <= c as u32 && c as u32 <= 57) || (97 <= c as u32 && c as u32 <= 102)) {
                valid = false;
            } else {
                i += 1;
            }
        }
    }
    if valid {
        Ok(())
    } else {
        let mut m = String::new();
        push_str(&mut m, field);
        push_str(&mut m, " must be a lowercase sha256 digest");
        Err(CardsError::Schema(m))
    }
}

// --- legal choices and revealed lines ---

/// Stable identity for mutable review state.
#[derive(Clone, Debug, PartialEq, Eq, PartialOrd, Ord, Hash)]
pub struct CardKey {
    pub card_id: String,
    pub content_version: String,
}

/// One legal choice rendered without any answer fields.
#[derive(Clone, Debug, PartialEq, Eq)]
pub struct LegalChoice {
    pub uci: String,
    pub san: String,
}

impl View for LegalChoice {
    type V = (Seq<char>, Seq<char>);

    open spec fn view(&self) -> (Seq<char>, Seq<char>) {
        (self.uci@, self.san@)
    }
}

/// One move in a revealed, legality-checked engine line.
#[derive(Clone, Debug, PartialEq, Eq)]
pub struct RevealedLineMove {
    pub uci: String,
    pub san: String,
}

impl View for RevealedLineMove {
    type V = (Seq<char>, Seq<char>);

    open spec fn view(&self) -> (Seq<char>, Seq<char>) {
        (self.uci@, self.san@)
    }
}

/// The UCI and SAN texts of a legal move of `v`.
pub open spec fn move_pair(v: BoardState, m: Move) -> (Seq<char>, Seq<char>) {
    (uci_text(m), san_text(v, m))
}

/// The legal choice a UCI text names in `v`, if any.
pub open spec fn choice_spec(v: BoardState, t: Seq<char>) -> Option<(Seq<char>, Seq<char>)> {
    match uci_move(v, t) {
        Some(m) => Some(move_pair(v, m)),
        None => None,
    }
}

/// The texts of a choice can be made: the UCI text can be cut where its
/// squares end, and the move it names keeps the opponent's king.
pub open spec fn choice_safe(v: BoardState, t: Seq<char>) -> bool {
    &&& uci_slices_ok(t)
    &&& (uci_move(v, t) matches Some(m) ==> crate::board::has_king(
        crate::board::make_view(v, m),
        crate::types::opposite(v.side),
    ))
}

/// The legal choice a UCI text names.
pub fn choice(board: &Board, uci: &str) -> (r: Option<LegalChoice>)
    requires
        board.valid(),
        choice_safe(board@, uci@),
    ensures
        match r {
            Some(c) => choice_spec(board@, uci@) == Some(c@),
            None => choice_spec(board@, uci@) is None,
        },
{
    match board.parse_uci(uci) {
        Some(mv) => {
            proof {
                lemma_uci_move(board@, uci@, mv);
                lemma_king_unclocked(board@, mv);
            }
            Some(LegalChoice { uci: mv.to_uci(), san: board.san(mv) })
        },
        None => {
            proof {
                if uci_move(board@, uci@) is Some {
                    let m = choose|m: Move| legal(board@, m) && names_move(uci@, m);
                    assert(legal(board@, m) && names_move(uci@, m));
                }
            }
            None
        },
    }
}

/// The views of some line moves.
pub open spec fn pairs_of(v: Seq<RevealedLineMove>) -> Seq<(Seq<char>, Seq<char>)> {
    v.map_values(|m: RevealedLineMove| m@)
}

/// The UCI and SAN texts of the moves `ms` played from `v`.
pub open spec fn line_pairs(v: BoardState, ms: Seq<Move>) -> Seq<(Seq<char>, Seq<char>)> {
    Seq::new(ms.len(), |i: int| (ucis_of(ms)[i], sans_of(v, ms)[i]))
}

/// The complaint about a card.
pub open spec fn card_fault(card_id: Seq<char>, message: Seq<char>) -> CardsFault {
    CardsFault::InvalidCard(card_id, message)
}

/// Checking a declared engine line from `v`: it must begin with its root
/// and every move must be legal; it then reads as the moves' texts.
pub open spec fn line_check(
    v: BoardState,
    ucis: Seq<Seq<char>>,
    root: Seq<char>,
    label: Seq<char>,
    card_id: Seq<char>,
) -> Result<Seq<(Seq<char>, Seq<char>)>, CardsFault> {
    if ucis.len() == 0 || ucis[0] != root {
        Err(card_fault(card_id, label + " line does not begin with its declared root"@))
    } else {
        let (ms, ok) = replay(v, ucis);
        if !ok {
            Err(card_fault(card_id, label + " line contains an illegal move"@))
        } else {
            Ok(line_pairs(v, ms))
        }
    }
}

/// Check a declared engine line and render its moves.
pub fn validate_line(
    board: &Board,
    ucis: &Vec<String>,
    expected_root: &str,
    label: &str,
    card_id: &str,
) -> (r: Result<Vec<RevealedLineMove>, CardsError>)
    requires
        board.valid(),
        replay_safe(board@, texts(ucis@)),
    ensures
        match line_check(board@, texts(ucis@), expected_root@, label@, card_id@) {
            Ok(l) => r matches Ok(v) && pairs_of(v@) == l,
            Err(f) => r matches Err(e) && e@ == f,
        },
{
    let root_ok = ucis.len() > 0 && crate::http::same_text(ucis[0].as_str(), expected_root);
    proof {
        if ucis@.len() > 0 {
            assert(texts(ucis@)[0] == ucis@[0]@);
        }
    }
    if !root_ok {
        let mut m = String::new();
        push_str(&mut m, label);
        push_str(&mut m, " line does not begin with its declared root");
        return Err(CardsError::InvalidCard { card_id: card_id.to_string(), message: m });
    }
    let mut game = Game::from_board(*board);
    let (us, ss, ok) = play_tokens(&mut game, ucis);
    if !ok {
        let mut m = String::new();
        push_str(&mut m, label);
        push_str(&mut m, " line contains an illegal move");
        return Err(CardsError::InvalidCard { card_id: card_id.to_string(), message: m });
    }
    let ghost ms = game@.moves;
    proof {
        assert(texts(us@).len() == us@.len());
        assert(texts(ss@).len() == ss@.len());
        assert(ucis_of(ms).len() == ms.len());
    }
    let mut out: Vec<RevealedLineMove> = Vec::new();
    let mut i: usize = 0;
    while i < us.len()
        invariant
            i <= us@.len(),
            us@.len() == ss@.len(),
            us@.len() == ms.len(),
            texts(us@) == ucis_of(ms),
            texts(ss@) == sans_of(board@, ms),
            pairs_of(out@) == line_pairs(board@, ms).take(i as int),
        decreases us@.len() - i,
    {
        let ghost before = out@;
        let item = RevealedLineMove { uci: us[i].clone(), san: ss[i].clone() };
        let ghost iv = item@;
        proof {
            assert(texts(us@)[i as int] == us@[i as int]@);
            assert(texts(ss@)[i as int] == ss@[i as int]@);
            assert(iv == line_pairs(board@, ms)[i as int]);
        }
        out.push(item);
        i += 1;
        proof {
            assert(pairs_of(out@) =~= pairs_of(before).push(iv));
            assert(line_pairs(board@, ms).take(i as int) =~= line_pairs(board@, ms).take(i - 1).push(
                iv,
            ));
        }
    }
    assert(line_pairs(board@, ms).take(ms.len() as int) =~= line_pairs(board@, ms));
    Ok(out)
}

// --- source cards ---

/// The engine's answer of a validated card, kept from the browser until a
/// response is committed.
#[derive(Clone, Debug)]
pub struct HiddenAnswer {
    pub reference_move: LegalChoice,
    pub source_game_move: LegalChoice,
    pub reference_line: Vec<RevealedLineMove>,
    pub source_game_line: Vec<RevealedLineMove>,
    pub loss_cp_equivalent: i64,
    pub loss_bucket: String,
    pub mate_event: Option<String>,
}

/// The content of a [`HiddenAnswer`].
pub struct AnswerView {
    pub reference_move: (Seq<char>, Seq<char>),
    pub source_game_move: (Seq<char>, Seq<char>),
    pub reference_line: Seq<(Seq<char>, Seq<char>)>,
    pub source_game_line: Seq<(Seq<char>, Seq<char>)>,
    pub loss_cp_equivalent: i64,
    pub loss_bucket: Seq<char>,
    pub mate_event: Option<Seq<char>>,
}

/// The text of an optional string.
pub open spec fn opt_text(o: Option<String>) -> Option<Seq<char>> {
    match o {
        Some(s) => Some(s@),
        None => None,
    }
}

impl View for HiddenAnswer {
    type V = AnswerView;

    open spec fn view(&self) -> AnswerView {
        AnswerView {
            reference_move: self.reference_move@,
            source_game_move: self.source_game_move@,
            reference_line: pairs_of(self.reference_line@),
            source_game_line: pairs_of(self.source_game_line@),
            loss_cp_equivalent: self.loss_cp_equivalent,
            loss_bucket: self.loss_bucket@,
            mate_event: opt_text(self.mate_event),
        }
    }
}

/// A diagnostic card that replayed and matched its digests.
#[derive(Clone, Debug)]
pub struct ValidatedSourceCard {
    pub evidence_version: String,
    pub current_fen: String,
    pub position_id: String,
    pub orientation: String,
    pub check: bool,
    pub legal_moves: Vec<LegalChoice>,
    pub tags: Vec<String>,
    pub answer: HiddenAnswer,
}

/// The views of some choices.
pub open spec fn choices_of(v: Seq<LegalChoice>) -> Seq<(Seq<char>, Seq<char>)> {
    v.map_values(|c: LegalChoice| c@)
}

/// `c` holds the texts of a legal move of `v`.
pub open spec fn is_legal_choice(v: BoardState, c: (Seq<char>, Seq<char>)) -> bool {
    exists|m: Move| legal(v, m) && c == move_pair(v, m)
}

/// `cs` lists the legal moves of `v`, each by its texts.
pub open spec fn lists_choices(v: BoardState, cs: Seq<(Seq<char>, Seq<char>)>) -> bool {
    &&& forall|m: Move| legal(v, m) ==> #[trigger] cs.contains(move_pair(v, m))
    &&& forall|i: int| 0 <= i < cs.len() ==> #[trigger] is_legal_choice(v, cs[i])
}

/// The position a card's occurrence reaches from its start `v0`.
pub open spec fn card_position(v0: BoardState, card: DiagnosticCard) -> BoardState {
    play(v0, replay(v0, texts(card.occurrence.history_uci@)).0).last()
}

/// The orientation of the side to move.
pub open spec fn orientation_text(c: Color) -> Seq<char> {
    if c == Color::White {
        "white"@
    } else {
        "black"@
    }
}

/// Why a source card is refused, if it is, by the first check it fails.
pub open spec fn source_fault(card: DiagnosticCard, acv: Seq<char>) -> Option<CardsFault> {
    let id = card.card_id@;
    let hist = texts(card.occurrence.history_uci@);
    let ans = card.answer;
    if card.kind@ != "engine-diagnostic-move"@ {
        Some(card_fault(id, "unsupported diagnostic card kind"@))
    } else if card.prompt.task@ != "select-move"@ {
        Some(card_fault(id, "unsupported prompt task"@))
    } else if card.occurrence.decision_ply == 0 || hist.len() != card.occurrence.decision_ply - 1 {
        Some(card_fault(id, "decision ply does not match occurrence history"@))
    } else if digest_text(semantic_json(card)) != card.content_version@ {
        Some(card_fault(id, "semantic content digest does not match content_version"@))
    } else if digest_text(evidence_json(acv, ans)) != card.evidence_version@ {
        Some(card_fault(id, "answer evidence digest does not match evidence_version"@))
    } else {
        match fen_spec(card.occurrence.initial_fen@) {
            Err(_) => Some(card_fault(id, "initial FEN is invalid"@)),
            Ok(v0) => if !replay(v0, hist).1 {
                Some(card_fault(id, "occurrence history contains an illegal move"@))
            } else {
                let v = card_position(v0, card);
                if fen_text(v) != card.position.current_fen@ {
                    Some(card_fault(id, "occurrence history does not reproduce the raw FEN"@))
                } else if id_text(key_of(v)) != card.position.position_id@ {
                    Some(card_fault(id, "occurrence history does not reproduce the PositionId"@))
                } else if card.prompt.orientation@ != orientation_text(v.side) {
                    Some(card_fault(id, "prompt orientation does not match the side to move"@))
                } else if choice_spec(v, ans.reference_move_uci@) is None {
                    Some(card_fault(id, "reference root is not legal"@))
                } else if choice_spec(v, ans.played_move_uci@) is None {
                    Some(card_fault(id, "source-game root is not legal"@))
                } else {
                    match line_check(
                        v,
                        texts(ans.reference_line_uci@),
                        ans.reference_move_uci@,
                        "reference"@,
                        id,
                    ) {
                        Err(f) => Some(f),
                        Ok(_) => match line_check(
                            v,
                            texts(ans.played_line_uci@),
                            ans.played_move_uci@,
                            "source-game"@,
                            id,
                        ) {
                            Err(f) => Some(f),
                            Ok(_) => None,
                        },
                    }
                }
            },
        }
    }
}

/// Validating a card cannot fail on the way: its replays and renderings
/// stay within what the board can play.
pub open spec fn card_safe(card: DiagnosticCard) -> bool {
    let hist = texts(card.occurrence.history_uci@);
    let ans = card.answer;
    &&& (fen_spec(card.occurrence.initial_fen@) matches Ok(v0) ==> {
        &&& replay_safe(v0, hist)
        &&& (replay(v0, hist).1 ==> {
            let v = card_position(v0, card);
            &&& keeps_kings(v)
            &&& choice_safe(v, ans.reference_move_uci@)
            &&& choice_safe(v, ans.played_move_uci@)
            &&& replay_safe(v, texts(ans.reference_line_uci@))
            &&& replay_safe(v, texts(ans.played_line_uci@))
        })
    })
}

/// What a validated card holds: the card's evidence version, position,
/// orientation and tags, the check flag and legal choices of the reached
/// position, and the answer rendered there.
pub open spec fn validated_ok(r: ValidatedSourceCard, card: DiagnosticCard) -> bool {
    let ans = card.answer;
    fen_spec(card.occurrence.initial_fen@) matches Ok(v0) && {
        let v = card_position(v0, card);
        &&& r.evidence_version@ == card.evidence_version@
        &&& r.current_fen@ == card.position.current_fen@
        &&& r.position_id@ == card.position.position_id@
        &&& r.orientation@ == card.prompt.orientation@
        &&& r.check == in_check_spec(v)
        &&& lists_choices(v, choices_of(r.legal_moves@))
        &&& texts(r.tags@) == texts(card.tags@)
        &&& Some(r.answer.reference_move@) == choice_spec(v, ans.reference_move_uci@)
        &&& Some(r.answer.source_game_move@) == choice_spec(v, ans.played_move_uci@)
        &&& Ok::<Seq<(Seq<char>, Seq<char>)>, CardsFault>(pairs_of(r.answer.reference_line@)) == line_check(
            v,
            texts(ans.reference_line_uci@),
            ans.reference_move_uci@,
            "reference"@,
            card.card_id@,
        )
        &&& Ok::<Seq<(Seq<char>, Seq<char>)>, CardsFault>(pairs_of(r.answer.source_game_line@)) == line_check(
            v,
            texts(ans.played_line_uci@),
            ans.played_move_uci@,
            "source-game"@,
            card.card_id@,
        )
        &&& r.answer.loss_cp_equivalent == ans.loss_cp_equivalent
        &&& r.answer.loss_bucket@ == ans.loss_bucket@
        &&& opt_text(r.answer.mate_event) == opt_text(ans.mate_event)
    }
}

/// The complaint about a card, as an error.
fn invalid(card_id: &String, message: &str) -> (r: CardsError)
    ensures
        r@ == card_fault(card_id@, message@),
{
    CardsError::InvalidCard { card_id: card_id.clone(), message: message.to_string() }
}

/// The legal choices of a position, in generation order.
fn legal_choices(board: &Board) -> (r: Vec<LegalChoice>)
    requires
        board.valid(),
        keeps_kings(board@),
    ensures
        lists_choices(board@, choices_of(r@)),
{
    let list = board.legal_moves();
    let mut out: Vec<LegalChoice> = Vec::new();
    let mut i: usize = 0;
    while i < list.len()
        invariant
            i <= list@.len(),
            board.valid(),
            keeps_kings(board@),
            forall|m: Move| #[trigger] list@.contains(m) == legal(board@, m),
            choices_of(out@) == list@.take(i as int).map_values(|m: Move| move_pair(board@, m)),
        decreases list@.len() - i,
    {
        let mv = list.get(i);
        assert(list@.contains(mv));
        proof {
            lemma_king_unclocked(board@, mv);
        }
        let c = LegalChoice { uci: mv.to_uci(), san: board.san(mv) };
        let ghost before = out@;
        let ghost cv = c@;
        out.push(c);
        i += 1;
        proof {
            assert(list@.take(i as int) =~= list@.take(i - 1).push(mv));
            assert(choices_of(out@) =~= choices_of(before).push(cv));
            assert(choices_of(out@) =~= list@.take(i as int).map_values(
                |m: Move| move_pair(board@, m),
            ));
        }
    }
    proof {
        assert(list@.take(list@.len() as int) =~= list@);
        let cs = choices_of(out@);
        assert forall|m: Move| legal(board@, m) implies #[trigger] cs.contains(move_pair(board@, m)) by {
            assert(list@.contains(m));
            let j = choose|j: int| 0 <= j < list@.len() && list@[j] == m;
            assert(cs[j] == move_pair(board@, m));
        }
        assert forall|j: int| 0 <= j < cs.len() implies #[trigger] is_legal_choice(
            board@,
            cs[j],
        ) by {
            assert(list@.contains(list@[j]));
            assert(cs[j] == move_pair(board@, list@[j]));
        }
    }
    out
}

/// A copy of a list of strings.
fn copy_strings(v: &Vec<String>) -> (r: Vec<String>)
    ensures
        texts(r@) == texts(v@),
{
    let mut out: Vec<String> = Vec::new();
    let mut i: usize = 0;
    while i < v.len()
        invariant
            i <= v@.len(),
            texts(out@) == texts(v@).take(i as int),
        decreases v@.len() - i,
    {
        let ghost before = out@;
        let s = v[i].clone();
        out.push(s);
        i += 1;
        proof {
            assert(texts(out@) =~= texts(before).push(v@[i - 1]@));
            assert(texts(v@).take(i as int) =~= texts(v@).take(i - 1).push(v@[i - 1]@));
        }
    }
    assert(texts(v@).take(v@.len() as int) =~= texts(v@));
    out
}

/// A copy of an optional string.
fn copy_opt(o: &Option<String>) -> (r: Option<String>)
    ensures
        opt_text(r) == opt_text(*o),
{
    match o {
        Some(s) => Some(s.clone()),
        None => None,
    }
}

/// Check a diagnostic card against its digests and its source game, and
/// render what the trainer shows of it.
pub fn validate_source_card(card: &DiagnosticCard, analysis_config_version: &str) -> (r: Result<
    ValidatedSourceCard,
    CardsError,
>)
    requires
        card_safe(*card),
    ensures
        match source_fault(*card, analysis_config_version@) {
            Some(f) => r matches Err(e) && e@ == f,
            None => r matches Ok(v) && validated_ok(v, *card),
        },
{
    let id = &card.card_id;
    if !crate::http::same_text(card.kind.as_str(), "engine-diagnostic-move") {
        return Err(invalid(id, "unsupported diagnostic card kind"));
    }
    if !crate::http::same_text(card.prompt.task.as_str(), "select-move") {
        return Err(invalid(id, "unsupported prompt task"));
    }
    proof {
        assert(texts(card.occurrence.history_uci@).len() == card.occurrence.history_uci@.len());
    }
    if card.occurrence.decision_ply == 0 || card.occurrence.history_uci.len()
        != card.occurrence.decision_ply - 1 {
        return Err(invalid(id, "decision ply does not match occurrence history"));
    }
    let computed_version = match semantic_content_version(card) {
        Ok(s) => s,
        Err(e) => {
            return Err(e);
        },
    };
    if !crate::http::same_text(computed_version.as_str(), card.content_version.as_str()) {
        return Err(invalid(id, "semantic content digest does not match content_version"));
    }
    let computed_evidence = evidence_content_version(analysis_config_version, &card.answer);
    if !crate::http::same_text(computed_evidence.as_str(), card.evidence_version.as_str()) {
        return Err(invalid(id, "answer evidence digest does not match evidence_version"));
    }
    let mut game = match Game::from_fen(card.occurrence.initial_fen.as_str()) {
        Ok(g) => g,
        Err(_) => {
            return Err(invalid(id, "initial FEN is invalid"));
        },
    };
    let ghost v0 = game.current();
    let ghost hist = texts(card.occurrence.history_uci@);
    proof {
        game.lemma_view();
    }
    let (_u, _s, ok) = play_tokens(&mut game, &card.occurrence.history_uci);
    if !ok {
        return Err(invalid(id, "occurrence history contains an illegal move"));
    }
    let board = game.board();
    let ghost v = board@;
    proof {
        game.lemma_view();
        assert(v == card_position(v0, *card));
    }
    let fen = board.to_fen();
    if !crate::http::same_text(fen.as_str(), card.position.current_fen.as_str()) {
        return Err(invalid(id, "occurrence history does not reproduce the raw FEN"));
    }
    let pid = board.position_id();
    if !crate::http::same_text(pid.as_str(), card.position.position_id.as_str()) {
        return Err(invalid(id, "occurrence history does not reproduce the PositionId"));
    }
    let expected_orientation = match board.side_to_move() {
        Color::White => "white",
        Color::Black => "black",
    };
    if !crate::http::same_text(card.prompt.orientation.as_str(), expected_orientation) {
        return Err(invalid(id, "prompt orientation does not match the side to move"));
    }
    let reference_move = match choice(board, card.answer.reference_move_uci.as_str()) {
        Some(c) => c,
        None => {
            return Err(invalid(id, "reference root is not legal"));
        },
    };
    let source_game_move = match choice(board, card.answer.played_move_uci.as_str()) {
        Some(c) => c,
        None => {
            return Err(invalid(id, "source-game root is not legal"));
        },
    };
    let reference_line = match validate_line(
        board,
        &card.answer.reference_line_uci,
        card.answer.reference_move_uci.as_str(),
        "reference",
        card.card_id.as_str(),
    ) {
        Ok(l) => l,
        Err(e) => {
            return Err(e);
        },
    };
    let source_game_line = match validate_line(
        board,
        &card.answer.played_line_uci,
        card.answer.played_move_uci.as_str(),
        "source-game",
        card.card_id.as_str(),
    ) {
        Ok(l) => l,
        Err(e) => {
            return Err(e);
        },
    };
    let legal_moves = legal_choices(board);
    let check = board.in_check();
    Ok(
        ValidatedSourceCard {
            evidence_version: card.evidence_version.clone(),
            current_fen: card.position.current_fen.clone(),
            position_id: card.position.position_id.clone(),
            orientation: card.prompt.orientation.clone(),
            check,
            legal_moves,
            tags: copy_strings(&card.tags),
            answer: HiddenAnswer {
                reference_move,
                source_game_move,
                reference_line,
                source_game_line,
                loss_cp_equivalent: card.answer.loss_cp_equivalent,
                loss_bucket: card.answer.loss_bucket.clone(),
                mate_event: copy_opt(&card.answer.mate_event),
            },
        },
    )
}

// --- training cards ---

/// The answer-free record that may be serialized to the browser.
#[derive(Clone, Debug, PartialEq, Eq)]
pub struct TrainingPrompt {
    pub prompt: String,
    pub fen: String,
    pub position_id: String,
    pub orientation: String,
    pub check: bool,
    pub legal_moves: Vec<LegalChoice>,
    pub tags: Vec<String>,
}

/// Feedback available only after the server has accepted a legal response.
#[derive(Clone, Debug, PartialEq, Eq)]
pub struct CardFeedback {
    pub played_move: Option<LegalChoice>,
    pub reference_match: Option<bool>,
    pub reference_move: LegalChoice,
    pub source_game_move: LegalChoice,
    pub reference_line: Vec<RevealedLineMove>,
    pub source_game_line: Vec<RevealedLineMove>,
    pub explanation: String,
    pub success_criterion: String,
    pub loss_cp_equivalent: i64,
    pub loss_bucket: String,
    pub mate_event: Option<String>,
    pub evidence_version: String,
}

/// A curated card. Its answer and explanation are private so the prompt
/// view cannot accidentally carry them before retrieval.
#[derive(Clone, Debug)]
pub struct TrainingCard {
    pub card_id: String,
    pub content_version: String,
    pub evidence_version: String,
    pub prompt: String,
    pub success_criterion: String,
    pub fen: String,
    pub position_id: String,
    pub orientation: String,
    pub check: bool,
    pub legal_moves: Vec<LegalChoice>,
    pub tags: Vec<String>,
    explanation: String,
    answer: HiddenAnswer,
}

/// A copy of a choice.
fn copy_choice(c: &LegalChoice) -> (r: LegalChoice)
    ensures
        r@ == c@,
{
    LegalChoice { uci: c.uci.clone(), san: c.san.clone() }
}

/// A copy of a list of choices.
fn copy_choices(v: &Vec<LegalChoice>) -> (r: Vec<LegalChoice>)
    ensures
        choices_of(r@) == choices_of(v@),
{
    let mut out: Vec<LegalChoice> = Vec::new();
    let mut i: usize = 0;
    while i < v.len()
        invariant
            i <= v@.len(),
            choices_of(out@) == choices_of(v@).take(i as int),
        decreases v@.len() - i,
    {
        let ghost before = out@;
        let c = copy_choice(&v[i]);
        out.push(c);
        i += 1;
        proof {
            assert(choices_of(out@) =~= choices_of(before).push(v@[i - 1]@));
            assert(choices_of(v@).take(i as int) =~= choices_of(v@).take(i - 1).push(v@[i - 1]@));
        }
    }
    assert(choices_of(v@).take(v@.len() as int) =~= choices_of(v@));
    out
}

/// A copy of a revealed line.
fn copy_line(v: &Vec<RevealedLineMove>) -> (r: Vec<RevealedLineMove>)
    ensures
        pairs_of(r@) == pairs_of(v@),
{
    let mut out: Vec<RevealedLineMove> = Vec::new();
    let mut i: usize = 0;
    while i < v.len()
        invariant
            i <= v@.len(),
            pairs_of(out@) == pairs_of(v@).take(i as int),
        decreases v@.len() - i,
    {
        let ghost before = out@;
        let c = RevealedLineMove { uci: v[i].uci.clone(), san: v[i].san.clone() };
        out.push(c);
        i += 1;
        proof {
            assert(pairs_of(out@) =~= pairs_of(before).push(v@[i - 1]@));
            assert(pairs_of(v@).take(i as int) =~= pairs_of(v@).take(i - 1).push(v@[i - 1]@));
        }
    }
    assert(pairs_of(v@).take(v@.len() as int) =~= pairs_of(v@));
    out
}

/// The first choice of `cs` whose UCI text is `t`.
pub open spec fn find_choice(cs: Seq<(Seq<char>, Seq<char>)>, t: Seq<char>, k: int) -> Option<int>
    decreases cs.len() - k,
{
    if k < 0 || k >= cs.len() {
        None
    } else if cs[k].0 == t {
        Some(k)
    } else {
        find_choice(cs, t, k + 1)
    }
}

/// The content of a [`TrainingCard`].
pub struct CardView {
    pub card_id: Seq<char>,
    pub content_version: Seq<char>,
    pub evidence_version: Seq<char>,
    pub prompt: Seq<char>,
    pub success_criterion: Seq<char>,
    pub fen: Seq<char>,
    pub position_id: Seq<char>,
    pub orientation: Seq<char>,
    pub check: bool,
    pub legal_moves: Seq<(Seq<char>, Seq<char>)>,
    pub tags: Seq<Seq<char>>,
    pub explanation: Seq<char>,
    pub answer: AnswerView,
}

impl View for TrainingCard {
    type V = CardView;

    open spec fn view(&self) -> CardView {
        self.card_view()
    }
}

impl TrainingCard {
    /// The content of the card.
    pub closed spec fn card_view(&self) -> CardView {
        CardView {
            card_id: self.card_id@,
            content_version: self.content_version@,
            evidence_version: self.evidence_version@,
            prompt: self.prompt@,
            success_criterion: self.success_criterion@,
            fen: self.fen@,
            position_id: self.position_id@,
            orientation: self.orientation@,
            check: self.check,
            legal_moves: choices_of(self.legal_moves@),
            tags: texts(self.tags@),
            explanation: self.explanation@,
            answer: self.answer@,
        }
    }

    /// The identity of the card's review state.
    pub fn key(&self) -> (r: CardKey)
        ensures
            r.card_id@ == self@.card_id,
            r.content_version@ == self@.content_version,
    {
        CardKey { card_id: self.card_id.clone(), content_version: self.content_version.clone() }
    }

    /// An owned browser-safe view. Neither the explanation nor the engine
    /// answer appears in it.
    pub fn prompt_view(&self) -> (r: TrainingPrompt)
        ensures
            r.prompt@ == self@.prompt,
            r.fen@ == self@.fen,
            r.position_id@ == self@.position_id,
            r.orientation@ == self@.orientation,
            r.check == self@.check,
            choices_of(r.legal_moves@) == self@.legal_moves,
            texts(r.tags@) == self@.tags,
    {
        TrainingPrompt {
            prompt: self.prompt.clone(),
            fen: self.fen.clone(),
            position_id: self.position_id.clone(),
            orientation: self.orientation.clone(),
            check: self.check,
            legal_moves: copy_choices(&self.legal_moves),
            tags: copy_strings(&self.tags),
        }
    }

    /// Validate a submitted move and reveal the bounded-engine evidence.
    pub fn feedback(&self, move_uci: &str) -> (r: Result<CardFeedback, CardsError>)
        ensures
            match find_choice(self@.legal_moves, move_uci@, 0) {
                None => r matches Err(e) && e@ == CardsFault::InvalidResponse(
                    self@.card_id,
                    "submitted move is not legal in the card position"@,
                ),
                Some(k) => r matches Ok(f) && f.played_move matches Some(p) && p@
                    == self@.legal_moves[k] && f.reference_match == Some(self@.legal_moves[k].0
                    == self@.answer.reference_move.0) && self.revealed(f),
            },
    {
        let mut k: usize = 0;
        while k < self.legal_moves.len()
            invariant
                k <= self.legal_moves@.len(),
                find_choice(choices_of(self.legal_moves@), move_uci@, 0) == find_choice(
                    choices_of(self.legal_moves@),
                    move_uci@,
                    k as int,
                ),
            decreases self.legal_moves@.len() - k,
        {
            proof {
                assert(choices_of(self.legal_moves@)[k as int] == self.legal_moves@[k as int]@);
            }
            if crate::http::same_text(self.legal_moves[k].uci.as_str(), move_uci) {
                let played = copy_choice(&self.legal_moves[k]);
                let matched = crate::http::same_text(
                    played.uci.as_str(),
                    self.answer.reference_move.uci.as_str(),
                );
                return Ok(
                    CardFeedback {
                        reference_match: Some(matched),
                        played_move: Some(played),
                        reference_move: copy_choice(&self.answer.reference_move),
                        source_game_move: copy_choice(&self.answer.source_game_move),
                        reference_line: copy_line(&self.answer.reference_line),
                        source_game_line: copy_line(&self.answer.source_game_line),
                        explanation: self.explanation.clone(),
                        success_criterion: self.success_criterion.clone(),
                        loss_cp_equivalent: self.answer.loss_cp_equivalent,
                        loss_bucket: self.answer.loss_bucket.clone(),
                        mate_event: copy_opt(&self.answer.mate_event),
                        evidence_version: self.evidence_version.clone(),
                    },
                );
            }
            k += 1;
        }
        let mut m = String::new();
        push_str(&mut m, "submitted move is not legal in the card position");
        Err(CardsError::InvalidResponse { card_id: self.card_id.clone(), message: m })
    }

    /// The feedback reveals this card's answer, explanation, success
    /// criterion and evidence version.
    pub open spec fn revealed(&self, f: CardFeedback) -> bool {
        let a = self@.answer;
        &&& f.reference_move@ == a.reference_move
        &&& f.source_game_move@ == a.source_game_move
        &&& pairs_of(f.reference_line@) == a.reference_line
        &&& pairs_of(f.source_game_line@) == a.source_game_line
        &&& f.explanation@ == self@.explanation
        &&& f.success_criterion@ == self@.success_criterion
        &&& f.loss_cp_equivalent == a.loss_cp_equivalent
        &&& f.loss_bucket@ == a.loss_bucket
        &&& opt_text(f.mate_event) == a.mate_event
        &&& f.evidence_version@ == self@.evidence_version
    }

    /// Reveal the answer after an explicit give-up without inventing either
    /// a played move or a reference-match observation.
    pub fn give_up_feedback(&self) -> (r: CardFeedback)
        ensures
            r.played_move is None,
            r.reference_match is None,
            self.revealed(r),
    {
        CardFeedback {
            played_move: None,
            reference_match: None,
            reference_move: copy_choice(&self.answer.reference_move),
            source_game_move: copy_choice(&self.answer.source_game_move),
            reference_line: copy_line(&self.answer.reference_line),
            source_game_line: copy_line(&self.answer.source_game_line),
            explanation: self.explanation.clone(),
            success_criterion: self.success_criterion.clone(),
            loss_cp_equivalent: self.answer.loss_cp_equivalent,
            loss_bucket: self.answer.loss_bucket.clone(),
            mate_event: copy_opt(&self.answer.mate_event),
            evidence_version: self.evidence_version.clone(),
        }
    }
}

// --- the catalog ---

/// The analysis settings of a bundle.
#[derive(Clone, Debug)]
pub struct BundleAnalysis {
    pub assurance: String,
    pub confirmation_nodes_per_position: u64,
}

/// A bundle of diagnostic cards.
#[derive(Clone, Debug)]
pub struct DiagnosticBundle {
    pub schema: String,
    pub schema_version: u32,
    pub analysis_config_version: String,
    pub analysis: BundleAnalysis,
    pub cards: Vec<DiagnosticCard>,
}

/// One card of a training deck.
#[derive(Clone, Debug)]
pub struct DeckCard {
    pub card_id: String,
    pub content_version: String,
    pub prompt: String,
    pub explanation: String,
    pub success_criterion: String,
    pub tags: Vec<String>,
}

/// A training deck over a bundle.
#[derive(Clone, Debug)]
pub struct DeckOverlay {
    pub schema: String,
    pub schema_version: u32,
    pub deck_id: String,
    pub title: String,
    pub new_per_day: usize,
    pub cards: Vec<DeckCard>,
}

/// Immutable curated deck in declared order.
#[derive(Clone, Debug)]
pub struct Catalog {
    pub deck_id: String,
    pub title: String,
    pub new_per_day: usize,
    pub analysis_config_version: String,
    pub assurance: String,
    pub confirmation_nodes_per_position: u64,
    cards: Vec<TrainingCard>,
}

/// The content of a [`Catalog`].
pub struct CatalogView {
    pub deck_id: Seq<char>,
    pub title: Seq<char>,
    pub new_per_day: usize,
    pub analysis_config_version: Seq<char>,
    pub assurance: Seq<char>,
    pub confirmation_nodes_per_position: u64,
    pub cards: Seq<CardView>,
}

impl View for Catalog {
    type V = CatalogView;

    open spec fn view(&self) -> CatalogView {
        self.catalog_view()
    }
}

/// Why the bundle's or the deck's header is refused, if it is.
pub open spec fn header_fault(b: DiagnosticBundle, d: DeckOverlay) -> Option<CardsFault> {
    if b.schema@ != BUNDLE_SCHEMA@ || b.schema_version != SCHEMA_VERSION {
        Some(CardsFault::Schema("expected chess-diagnostic-cards schema version 1"@))
    } else if d.schema@ != DECK_SCHEMA@ || d.schema_version != SCHEMA_VERSION {
        Some(CardsFault::Schema("expected chess-training-deck schema version 1"@))
    } else if blank(d.deck_id@) {
        Some(empty_fault("deck_id"@))
    } else if blank(d.title@) {
        Some(empty_fault("deck title"@))
    } else if d.new_per_day == 0 || d.new_per_day > 100 {
        Some(CardsFault::Schema("new_per_day must be between 1 and 100"@))
    } else if d.cards@.len() == 0 {
        Some(CardsFault::Schema("training deck has no cards"@))
    } else if !digest_ok(b.analysis_config_version@) {
        Some(digest_fault("analysis_config_version"@))
    } else if blank(b.analysis.assurance@) {
        Some(empty_fault("analysis assurance"@))
    } else if b.analysis.confirmation_nodes_per_position == 0 {
        Some(CardsFault::Schema("confirmation_nodes_per_position must be positive"@))
    } else {
        None
    }
}

/// Some card before index `k` has the id `id`.
pub open spec fn id_seen(cards: Seq<DiagnosticCard>, id: Seq<char>, k: int) -> bool {
    exists|j: int| 0 <= j < k && #[trigger] cards[j].card_id@ == id
}

/// Why a bundle's cards are refused, if they are, by the first card that
/// fails: a malformed digest, a repeated id, or a failed validation.
pub open spec fn bundle_fault(cards: Seq<DiagnosticCard>, acv: Seq<char>) -> Option<CardsFault>
    decreases cards.len(),
{
    if cards.len() == 0 {
        None
    } else {
        match bundle_fault(cards.drop_last(), acv) {
            Some(f) => Some(f),
            None => {
                let c = cards.last();
                if !digest_ok(c.content_version@) {
                    Some(digest_fault("content_version"@))
                } else if !digest_ok(c.evidence_version@) {
                    Some(digest_fault("evidence_version"@))
                } else if id_seen(cards, c.card_id@, cards.len() - 1) {
                    Some(CardsFault::Duplicate("bundle repeats card id '"@ + c.card_id@ + "'"@))
                } else {
                    source_fault(c, acv)
                }
            },
        }
    }
}

/// The quoted key of a card: `'id@version'`.
pub open spec fn key_text(id: Seq<char>, cv: Seq<char>) -> Seq<char> {
    "'"@ + id + "@"@ + cv + "'"@
}

/// The first bundle card with the given key.
pub open spec fn find_source(cards: Seq<DiagnosticCard>, id: Seq<char>, cv: Seq<char>, k: int) -> Option<int>
    decreases cards.len() - k,
{
    if k < 0 || k >= cards.len() {
        None
    } else if cards[k].card_id@ == id && cards[k].content_version@ == cv {
        Some(k)
    } else {
        find_source(cards, id, cv, k + 1)
    }
}

/// Some deck card before index `k` has the key of `dc`.
pub open spec fn key_seen(dcs: Seq<DeckCard>, dc: DeckCard, k: int) -> bool {
    exists|j: int|
        0 <= j < k && #[trigger] dcs[j].card_id@ == dc.card_id@ && dcs[j].content_version@
            == dc.content_version@
}

/// Why the deck's cards are refused, if they are, by the first card that
/// fails: a repeated key, a blank text, or a card absent from the bundle.
pub open spec fn deck_fault(dcs: Seq<DeckCard>, cards: Seq<DiagnosticCard>) -> Option<CardsFault>
    decreases dcs.len(),
{
    if dcs.len() == 0 {
        None
    } else {
        match deck_fault(dcs.drop_last(), cards) {
            Some(f) => Some(f),
            None => {
                let d = dcs.last();
                let kt = key_text(d.card_id@, d.content_version@);
                if key_seen(dcs, d, dcs.len() - 1) {
                    Some(CardsFault::Duplicate("deck repeats card key "@ + kt))
                } else if blank(d.prompt@) {
                    Some(empty_fault("deck prompt"@))
                } else if blank(d.explanation@) {
                    Some(empty_fault("deck explanation"@))
                } else if blank(d.success_criterion@) {
                    Some(empty_fault("success criterion"@))
                } else if find_source(cards, d.card_id@, d.content_version@, 0) is None {
                    Some(CardsFault::DeckReference(
                        "deck card "@ + kt + " is absent from the diagnostic bundle"@,
                    ))
                } else {
                    None
                }
            },
        }
    }
}

/// Why a bundle and deck are refused, if they are.
pub open spec fn catalog_fault(b: DiagnosticBundle, d: DeckOverlay) -> Option<CardsFault> {
    match header_fault(b, d) {
        Some(f) => Some(f),
        None => match bundle_fault(b.cards@, b.analysis_config_version@) {
            Some(f) => Some(f),
            None => deck_fault(d.cards@, b.cards@),
        },
    }
}

/// The bundle's tags followed by the deck's new ones, in order.
pub open spec fn merge_tags(a: Seq<Seq<char>>, b: Seq<Seq<char>>) -> Seq<Seq<char>>
    decreases b.len(),
{
    if b.len() == 0 {
        a
    } else {
        let m = merge_tags(a, b.drop_last());
        if m.contains(b.last()) {
            m
        } else {
            m.push(b.last())
        }
    }
}

/// A training card made of a deck card and its validated source card.
pub open spec fn card_ok(t: CardView, d: DeckCard, card: DiagnosticCard) -> bool {
    let ans = card.answer;
    fen_spec(card.occurrence.initial_fen@) matches Ok(v0) && {
        let v = card_position(v0, card);
        &&& t.card_id == d.card_id@
        &&& t.content_version == d.content_version@
        &&& t.evidence_version == card.evidence_version@
        &&& t.prompt == d.prompt@
        &&& t.success_criterion == d.success_criterion@
        &&& t.explanation == d.explanation@
        &&& t.fen == card.position.current_fen@
        &&& t.position_id == card.position.position_id@
        &&& t.orientation == card.prompt.orientation@
        &&& t.check == in_check_spec(v)
        &&& lists_choices(v, t.legal_moves)
        &&& t.tags == merge_tags(texts(card.tags@), texts(d.tags@))
        &&& Some(t.answer.reference_move) == choice_spec(v, ans.reference_move_uci@)
        &&& Some(t.answer.source_game_move) == choice_spec(v, ans.played_move_uci@)
        &&& Ok::<Seq<(Seq<char>, Seq<char>)>, CardsFault>(t.answer.reference_line) == line_check(
            v,
            texts(ans.reference_line_uci@),
            ans.reference_move_uci@,
            "reference"@,
            card.card_id@,
        )
        &&& Ok::<Seq<(Seq<char>, Seq<char>)>, CardsFault>(t.answer.source_game_line) == line_check(
            v,
            texts(ans.played_line_uci@),
            ans.played_move_uci@,
            "source-game"@,
            card.card_id@,
        )
        &&& t.answer.loss_cp_equivalent == ans.loss_cp_equivalent
        &&& t.answer.loss_bucket == ans.loss_bucket@
        &&& t.answer.mate_event == opt_text(ans.mate_event)
    }
}

/// The first card of `cs` with the given key.
pub open spec fn find_card(cs: Seq<CardView>, id: Seq<char>, cv: Seq<char>, k: int) -> Option<int>
    decreases cs.len() - k,
{
    if k < 0 || k >= cs.len() {
        None
    } else if cs[k].card_id == id && cs[k].content_version == cv {
        Some(k)
    } else {
        find_card(cs, id, cv, k + 1)
    }
}

/// Whether a text list holds a text.
fn holds_text(v: &Vec<String>, t: &String) -> (r: bool)
    ensures
        r == texts(v@).contains(t@),
{
    let mut i: usize = 0;
    while i < v.len()
        invariant
            i <= v@.len(),
            forall|j: int| 0 <= j < i ==> texts(v@)[j] != t@,
        decreases v@.len() - i,
    {
        if crate::http::same_text(v[i].as_str(), t.as_str()) {
            assert(texts(v@)[i as int] == t@);
            return true;
        }
        i += 1;
    }
    false
}

/// The bundle's tags followed by the deck's new ones.
fn merged_tags(a: &Vec<String>, b: &Vec<String>) -> (r: Vec<String>)
    ensures
        texts(r@) == merge_tags(texts(a@), texts(b@)),
{
    let mut tags = copy_strings(a);
    let mut i: usize = 0;
    while i < b.len()
        invariant
            i <= b@.len(),
            texts(tags@) == merge_tags(texts(a@), texts(b@).take(i as int)),
        decreases b@.len() - i,
    {
        proof {
            assert(texts(b@).take(i + 1).drop_last() =~= texts(b@).take(i as int));
            assert(texts(b@).take(i + 1).last() == b@[i as int]@);
        }
        if !holds_text(&tags, &b[i]) {
            let ghost before = tags@;
            tags.push(b[i].clone());
            assert(texts(tags@) =~= texts(before).push(b@[i as int]@));
        }
        i += 1;
    }
    assert(texts(b@).take(b@.len() as int) =~= texts(b@));
    tags
}

/// A training card from a deck card and its validated source.
fn training_card(d: &DeckCard, raw: &ValidatedSourceCard, card: &DiagnosticCard) -> (r: TrainingCard)
    requires
        validated_ok(*raw, *card),
        d.card_id@ == card.card_id@,
        d.content_version@ == card.content_version@,
    ensures
        card_ok(r@, *d, *card),
{
    TrainingCard {
        card_id: d.card_id.clone(),
        content_version: d.content_version.clone(),
        evidence_version: raw.evidence_version.clone(),
        prompt: d.prompt.clone(),
        success_criterion: d.success_criterion.clone(),
        fen: raw.current_fen.clone(),
        position_id: raw.position_id.clone(),
        orientation: raw.orientation.clone(),
        check: raw.check,
        legal_moves: copy_choices(&raw.legal_moves),
        tags: merged_tags(&raw.tags, &d.tags),
        explanation: d.explanation.clone(),
        answer: HiddenAnswer {
            reference_move: copy_choice(&raw.answer.reference_move),
            source_game_move: copy_choice(&raw.answer.source_game_move),
            reference_line: copy_line(&raw.answer.reference_line),
            source_game_line: copy_line(&raw.answer.source_game_line),
            loss_cp_equivalent: raw.answer.loss_cp_equivalent,
            loss_bucket: raw.answer.loss_bucket.clone(),
            mate_event: copy_opt(&raw.answer.mate_event),
        },
    }
}

/// Every card of a bundle can be validated without failing on the way.
pub open spec fn bundle_safe(cards: Seq<DiagnosticCard>) -> bool {
    forall|i: int| 0 <= i < cards.len() ==> #[trigger] card_safe(cards[i])
}

/// Whether a bundle card before index `k` has the id of card `k`.
fn id_taken(cards: &Vec<DiagnosticCard>, k: usize) -> (r: bool)
    requires
        k < cards@.len(),
    ensures
        r == id_seen(cards@, cards@[k as int].card_id@, k as int),
{
    let mut j: usize = 0;
    while j < k
        invariant
            j <= k < cards@.len(),
            forall|i: int| 0 <= i < j ==> cards@[i].card_id@ != cards@[k as int].card_id@,
        decreases k - j,
    {
        if crate::http::same_text(cards[j].card_id.as_str(), cards[k].card_id.as_str()) {
            assert(cards@[j as int].card_id@ == cards@[k as int].card_id@);
            return true;
        }
        j += 1;
    }
    false
}

/// Whether a deck card before index `n` has the key of card `n`.
fn key_taken(dcs: &Vec<DeckCard>, n: usize) -> (r: bool)
    requires
        n < dcs@.len(),
    ensures
        r == key_seen(dcs@, dcs@[n as int], n as int),
{
    let mut j: usize = 0;
    while j < n
        invariant
            j <= n < dcs@.len(),
            forall|i: int|
                0 <= i < j ==> !(dcs@[i].card_id@ == dcs@[n as int].card_id@ && dcs@[i].content_version@
                    == dcs@[n as int].content_version@),
        decreases n - j,
    {
        if crate::http::same_text(dcs[j].card_id.as_str(), dcs[n].card_id.as_str())
            && crate::http::same_text(dcs[j].content_version.as_str(), dcs[n].content_version.as_str()) {
            assert(dcs@[j as int].card_id@ == dcs@[n as int].card_id@);
            return true;
        }
        j += 1;
    }
    false
}

/// The index of the first bundle card with a key.
fn source_index(cards: &Vec<DiagnosticCard>, id: &String, cv: &String) -> (r: Option<usize>)
    ensures
        match r {
            Some(i) => find_source(cards@, id@, cv@, 0) == Some(i as int),
            None => find_source(cards@, id@, cv@, 0) is None,
        },
{
    let mut s: usize = 0;
    while s < cards.len()
        invariant
            s <= cards@.len(),
            find_source(cards@, id@, cv@, 0) == find_source(cards@, id@, cv@, s as int),
        decreases cards@.len() - s,
    {
        if crate::http::same_text(cards[s].card_id.as_str(), id.as_str()) && crate::http::same_text(
            cards[s].content_version.as_str(),
            cv.as_str(),
        ) {
            return Some(s);
        }
        s += 1;
    }
    None
}

/// Check the bundle's and the deck's headers.
fn check_header(bundle: &DiagnosticBundle, deck: &DeckOverlay) -> (r: Result<(), CardsError>)
    ensures
        match header_fault(*bundle, *deck) {
            Some(f) => r matches Err(e) && e@ == f,
            None => r is Ok,
        },
{
    proof {
        reveal_strlit("chess-diagnostic-cards");
        reveal_strlit("chess-training-deck");
    }
    if !crate::http::same_text(bundle.schema.as_str(), BUNDLE_SCHEMA) || bundle.schema_version
        != SCHEMA_VERSION {
        return Err(
            CardsError::Schema("expected chess-diagnostic-cards schema version 1".to_string()),
        );
    }
    if !crate::http::same_text(deck.schema.as_str(), DECK_SCHEMA) || deck.schema_version
        != SCHEMA_VERSION {
        return Err(CardsError::Schema("expected chess-training-deck schema version 1".to_string()));
    }
    match validate_nonempty("deck_id", deck.deck_id.as_str()) {
        Ok(()) => {},
        Err(e) => {
            return Err(e);
        },
    }
    match validate_nonempty("deck title", deck.title.as_str()) {
        Ok(()) => {},
        Err(e) => {
            return Err(e);
        },
    }
    if deck.new_per_day == 0 || deck.new_per_day > 100 {
        return Err(CardsError::Schema("new_per_day must be between 1 and 100".to_string()));
    }
    if deck.cards.len() == 0 {
        return Err(CardsError::Schema("training deck has no cards".to_string()));
    }
    match validate_digest("analysis_config_version", bundle.analysis_config_version.as_str()) {
        Ok(()) => {},
        Err(e) => {
            return Err(e);
        },
    }
    match validate_nonempty("analysis assurance", bundle.analysis.assurance.as_str()) {
        Ok(()) => {},
        Err(e) => {
            return Err(e);
        },
    }
    if bundle.analysis.confirmation_nodes_per_position == 0 {
        return Err(
            CardsError::Schema("confirmation_nodes_per_position must be positive".to_string()),
        );
    }
    Ok(())
}

/// Validate every card of a bundle, in order.
fn validate_bundle(cards: &Vec<DiagnosticCard>, acv: &String) -> (r: Result<
    Vec<ValidatedSourceCard>,
    CardsError,
>)
    requires
        bundle_safe(cards@),
    ensures
        match bundle_fault(cards@, acv@) {
            Some(f) => r matches Err(e) && e@ == f,
            None => r matches Ok(src) && src@.len() == cards@.len() && forall|i: int|
                0 <= i < cards@.len() ==> #[trigger] validated_ok(src@[i], cards@[i]),
        },
{
    let ghost bc = cards@;
    let mut source: Vec<ValidatedSourceCard> = Vec::new();
    let mut k: usize = 0;
    proof {
        assert(bc.take(0) =~= Seq::<DiagnosticCard>::empty());
    }
    while k < cards.len()
        invariant
            k <= bc.len(),
            bc == cards@,
            bundle_safe(bc),
            bundle_fault(bc.take(k as int), acv@) is None,
            source@.len() == k,
            forall|i: int| 0 <= i < k ==> #[trigger] validated_ok(source@[i], bc[i]),
        decreases bc.len() - k,
    {
        proof {
            assert(bc.take(k + 1).drop_last() =~= bc.take(k as int));
            assert(bc.take(k + 1).last() == bc[k as int]);
            assert(forall|w: int| 0 <= w < k ==> bc.take(k + 1)[w] == bc[w]);
        }
        match validate_digest("content_version", cards[k].content_version.as_str()) {
            Ok(()) => {},
            Err(e) => {
                proof {
                    lemma_bundle_stuck(bc, acv@, k as int + 1);
                }
                return Err(e);
            },
        }
        match validate_digest("evidence_version", cards[k].evidence_version.as_str()) {
            Ok(()) => {},
            Err(e) => {
                proof {
                    lemma_bundle_stuck(bc, acv@, k as int + 1);
                }
                return Err(e);
            },
        }
        let taken = id_taken(cards, k);
        proof {
            assert(id_seen(bc.take(k + 1), bc[k as int].card_id@, k as int) == id_seen(
                bc,
                bc[k as int].card_id@,
                k as int,
            )) by {
                if id_seen(bc, bc[k as int].card_id@, k as int) {
                    let w = choose|w: int| 0 <= w < k && #[trigger] bc[w].card_id@ == bc[k as int].card_id@;
                    assert(bc.take(k + 1)[w] == bc[w]);
                }
                if id_seen(bc.take(k + 1), bc[k as int].card_id@, k as int) {
                    let w = choose|w: int|
                        0 <= w < k && #[trigger] bc.take(k + 1)[w].card_id@ == bc[k as int].card_id@;
                    assert(bc.take(k + 1)[w] == bc[w]);
                }
            }
        }
        if taken {
            let mut m = String::new();
            push_str(&mut m, "bundle repeats card id '");
            push_str(&mut m, cards[k].card_id.as_str());
            push_str(&mut m, "'");
            proof {
                lemma_bundle_stuck(bc, acv@, k as int + 1);
            }
            return Err(CardsError::Duplicate(m));
        }
        proof {
            assert(card_safe(bc[k as int]));
        }
        let raw = match validate_source_card(&cards[k], acv.as_str()) {
            Ok(v) => v,
            Err(e) => {
                proof {
                    lemma_bundle_stuck(bc, acv@, k as int + 1);
                }
                return Err(e);
            },
        };
        source.push(raw);
        k += 1;
    }
    proof {
        assert(bc.take(bc.len() as int) =~= bc);
    }
    Ok(source)
}

/// Build the deck's training cards from the validated bundle.
fn build_cards(
    dcs: &Vec<DeckCard>,
    cards: &Vec<DiagnosticCard>,
    source: &Vec<ValidatedSourceCard>,
) -> (r: Result<Vec<TrainingCard>, CardsError>)
    requires
        source@.len() == cards@.len(),
        forall|i: int| 0 <= i < cards@.len() ==> #[trigger] validated_ok(source@[i], cards@[i]),
    ensures
        match deck_fault(dcs@, cards@) {
            Some(f) => r matches Err(e) && e@ == f,
            None => r matches Ok(out) && out@.len() == dcs@.len() && forall|i: int|
                0 <= i < dcs@.len() ==> #[trigger] card_ok(
                    out@[i]@,
                    dcs@[i],
                    cards@[find_source(cards@, dcs@[i].card_id@, dcs@[i].content_version@, 0)->Some_0],
                ),
        },
{
    let ghost dc = dcs@;
    let ghost bc = cards@;
    let mut out: Vec<TrainingCard> = Vec::new();
    let mut n: usize = 0;
    proof {
        assert(dc.take(0) =~= Seq::<DeckCard>::empty());
    }
    while n < dcs.len()
        invariant
            n <= dc.len(),
            dc == dcs@,
            bc == cards@,
            source@.len() == bc.len(),
            forall|i: int| 0 <= i < bc.len() ==> #[trigger] validated_ok(source@[i], bc[i]),
            deck_fault(dc.take(n as int), bc) is None,
            out@.len() == n,
            forall|i: int|
                0 <= i < n ==> #[trigger] card_ok(
                    out@[i]@,
                    dc[i],
                    bc[find_source(bc, dc[i].card_id@, dc[i].content_version@, 0)->Some_0],
                ),
        decreases dc.len() - n,
    {
        let d = &dcs[n];
        proof {
            assert(dc.take(n + 1).drop_last() =~= dc.take(n as int));
            assert(dc.take(n + 1).last() == dc[n as int]);
        }
        let taken = key_taken(dcs, n);
        proof {
            assert(key_seen(dc.take(n + 1), dc[n as int], n as int) == key_seen(
                dc,
                dc[n as int],
                n as int,
            )) by {
                if key_seen(dc, dc[n as int], n as int) {
                    let w = choose|w: int|
                        0 <= w < n && #[trigger] dc[w].card_id@ == dc[n as int].card_id@
                            && dc[w].content_version@ == dc[n as int].content_version@;
                    assert(dc.take(n + 1)[w] == dc[w]);
                }
                if key_seen(dc.take(n + 1), dc[n as int], n as int) {
                    let w = choose|w: int|
                        0 <= w < n && #[trigger] dc.take(n + 1)[w].card_id@ == dc[n as int].card_id@
                            && dc.take(n + 1)[w].content_version@ == dc[n as int].content_version@;
                    assert(dc.take(n + 1)[w] == dc[w]);
                }
            }
        }
        if taken {
            let mut m = String::new();
            push_str(&mut m, "deck repeats card key ");
            push_str(&mut m, "'");
            push_str(&mut m, d.card_id.as_str());
            push_str(&mut m, "@");
            push_str(&mut m, d.content_version.as_str());
            push_str(&mut m, "'");
            proof {
                let kt = key_text(d.card_id@, d.content_version@);
                assert(m@ =~= "deck repeats card key "@ + kt);
                assert(deck_fault(dc.take(n + 1), bc) == Some(
                    CardsFault::Duplicate("deck repeats card key "@ + kt),
                ));
                lemma_deck_stuck(dc, bc, n as int + 1);
            }
            return Err(CardsError::Duplicate(m));
        }
        match validate_nonempty("deck prompt", d.prompt.as_str()) {
            Ok(()) => {},
            Err(e) => {
                proof {
                    lemma_deck_stuck(dc, bc, n as int + 1);
                }
                return Err(e);
            },
        }
        match validate_nonempty("deck explanation", d.explanation.as_str()) {
            Ok(()) => {},
            Err(e) => {
                proof {
                    lemma_deck_stuck(dc, bc, n as int + 1);
                }
                return Err(e);
            },
        }
        match validate_nonempty("success criterion", d.success_criterion.as_str()) {
            Ok(()) => {},
            Err(e) => {
                proof {
                    lemma_deck_stuck(dc, bc, n as int + 1);
                }
                return Err(e);
            },
        }
        let s = match source_index(cards, &d.card_id, &d.content_version) {
            Some(s) => s,
            None => {
                let mut m = String::new();
                push_str(&mut m, "deck card ");
                push_str(&mut m, "'");
                push_str(&mut m, d.card_id.as_str());
                push_str(&mut m, "@");
                push_str(&mut m, d.content_version.as_str());
                push_str(&mut m, "'");
                push_str(&mut m, " is absent from the diagnostic bundle");
                proof {
                    let kt = key_text(d.card_id@, d.content_version@);
                    assert(m@ =~= "deck card "@ + kt + " is absent from the diagnostic bundle"@);
                    assert(deck_fault(dc.take(n + 1), bc) == Some(
                        CardsFault::DeckReference(
                            "deck card "@ + kt + " is absent from the diagnostic bundle"@,
                        ),
                    ));
                    lemma_deck_stuck(dc, bc, n as int + 1);
                }
                return Err(CardsError::DeckReference(m));
            },
        };
        proof {
            lemma_find_source(bc, d.card_id@, d.content_version@, 0);
        }
        let t = training_card(d, &source[s], &cards[s]);
        out.push(t);
        n += 1;
    }
    proof {
        assert(dc.take(dc.len() as int) =~= dc);
    }
    Ok(out)
}

/// The card `find_source` finds has the key it was asked for.
proof fn lemma_find_source(cards: Seq<DiagnosticCard>, id: Seq<char>, cv: Seq<char>, k: int)
    requires
        0 <= k,
    ensures
        find_source(cards, id, cv, k) matches Some(i) ==> k <= i < cards.len()
            && cards[i].card_id@ == id && cards[i].content_version@ == cv,
    decreases cards.len() - k,
{
    if k < cards.len() && !(cards[k].card_id@ == id && cards[k].content_version@ == cv) {
        lemma_find_source(cards, id, cv, k + 1);
    }
}

impl Catalog {
    /// Check a bundle and a deck and build the deck's training cards in
    /// declared order: each deck card takes its position, legal choices and
    /// answer from the bundle card with its key, and adds its prompt,
    /// explanation, success criterion and new tags.
    pub fn from_inputs(bundle: &DiagnosticBundle, deck: &DeckOverlay) -> (r: Result<Catalog, CardsError>)
        requires
            bundle_safe(bundle.cards@),
        ensures
            match catalog_fault(*bundle, *deck) {
                Some(f) => r matches Err(e) && e@ == f,
                None => r matches Ok(c) && {
                    &&& c@.deck_id == deck.deck_id@
                    &&& c@.title == deck.title@
                    &&& c@.new_per_day == deck.new_per_day
                    &&& c@.analysis_config_version == bundle.analysis_config_version@
                    &&& c@.assurance == bundle.analysis.assurance@
                    &&& c@.confirmation_nodes_per_position
                        == bundle.analysis.confirmation_nodes_per_position
                    &&& c@.cards.len() == deck.cards@.len()
                    &&& forall|i: int|
                        0 <= i < c@.cards.len() ==> #[trigger] card_ok(
                            c@.cards[i],
                            deck.cards@[i],
                            bundle.cards@[find_source(
                                bundle.cards@,
                                deck.cards@[i].card_id@,
                                deck.cards@[i].content_version@,
                                0,
                            )->Some_0],
                        )
                },
            },
    {
        match check_header(bundle, deck) {
            Ok(()) => {},
            Err(e) => {
                return Err(e);
            },
        }
        let source = match validate_bundle(&bundle.cards, &bundle.analysis_config_version) {
            Ok(s) => s,
            Err(e) => {
                return Err(e);
            },
        };
        let cards = match build_cards(&deck.cards, &bundle.cards, &source) {
            Ok(c) => c,
            Err(e) => {
                return Err(e);
            },
        };
        let c = Catalog {
            deck_id: deck.deck_id.clone(),
            title: deck.title.clone(),
            new_per_day: deck.new_per_day,
            analysis_config_version: bundle.analysis_config_version.clone(),
            assurance: bundle.analysis.assurance.clone(),
            confirmation_nodes_per_position: bundle.analysis.confirmation_nodes_per_position,
            cards,
        };
        proof {
            assert(forall|i: int| 0 <= i < c@.cards.len() ==> #[trigger] c@.cards[i] == c.cards@[i]@);
        }
        Ok(c)
    }

    /// The content of the catalog.
    pub closed spec fn catalog_view(&self) -> CatalogView {
        CatalogView {
            deck_id: self.deck_id@,
            title: self.title@,
            new_per_day: self.new_per_day,
            analysis_config_version: self.analysis_config_version@,
            assurance: self.assurance@,
            confirmation_nodes_per_position: self.confirmation_nodes_per_position,
            cards: self.cards@.map_values(|c: TrainingCard| c@),
        }
    }

    /// The deck's title.
    pub fn title(&self) -> (r: &str)
        ensures
            r@ == self@.title,
    {
        self.title.as_str()
    }

    /// The deck's id.
    pub fn deck_id(&self) -> (r: &str)
        ensures
            r@ == self@.deck_id,
    {
        self.deck_id.as_str()
    }

    /// How many new cards a day the deck allows.
    pub fn new_per_day(&self) -> (r: usize)
        ensures
            r == self@.new_per_day,
    {
        self.new_per_day
    }

    /// The assurance of the deck's analysis.
    pub fn assurance(&self) -> (r: &str)
        ensures
            r@ == self@.assurance,
    {
        self.assurance.as_str()
    }

    /// The nodes each position was confirmed with.
    pub fn confirmation_nodes_per_position(&self) -> (r: u64)
        ensures
            r == self@.confirmation_nodes_per_position,
    {
        self.confirmation_nodes_per_position
    }

    /// The analysis configuration's version.
    pub fn analysis_config_version(&self) -> (r: &str)
        ensures
            r@ == self@.analysis_config_version,
    {
        self.analysis_config_version.as_str()
    }

    /// The cards, in deck order.
    pub fn cards(&self) -> (r: &[TrainingCard])
        ensures
            r@.map_values(|c: TrainingCard| c@) == self@.cards,
    {
        self.cards.as_slice()
    }

    /// The card with a given identity, if the deck holds it.
    pub fn get(&self, card_id: &str, content_version: &str) -> (r: Option<&TrainingCard>)
        ensures
            match find_card(self@.cards, card_id@, content_version@, 0) {
                Some(k) => r matches Some(c) && c@ == self@.cards[k],
                None => r is None,
            },
    {
        let mut i: usize = 0;
        while i < self.cards.len()
            invariant
                i <= self.cards@.len(),
                self@.cards == self.cards@.map_values(|c: TrainingCard| c@),
                find_card(self@.cards, card_id@, content_version@, 0) == find_card(
                    self@.cards,
                    card_id@,
                    content_version@,
                    i as int,
                ),
            decreases self.cards@.len() - i,
        {
            let c = &self.cards[i];
            if crate::http::same_text(c.card_id.as_str(), card_id) && crate::http::same_text(
                c.content_version.as_str(),
                content_version,
            ) {
                return Some(c);
            }
            i += 1;
        }
        None
    }
}

/// A bundle fault stays the fault of every longer bundle.
pub proof fn lemma_bundle_stuck(cards: Seq<DiagnosticCard>, acv: Seq<char>, k: int)
    requires
        0 <= k <= cards.len(),
        bundle_fault(cards.take(k), acv) is Some,
    ensures
        bundle_fault(cards, acv) == bundle_fault(cards.take(k), acv),
    decreases cards.len() - k,
{
    if k < cards.len() {
        assert(cards.take(k + 1).drop_last() =~= cards.take(k));
        lemma_bundle_stuck(cards, acv, k + 1);
    } else {
        assert(cards.take(k) =~= cards);
    }
}

/// A deck fault stays the fault of every longer deck.
pub proof fn lemma_deck_stuck(dcs: Seq<DeckCard>, cards: Seq<DiagnosticCard>, k: int)
    requires
        0 <= k <= dcs.len(),
        deck_fault(dcs.take(k), cards) is Some,
    ensures
        deck_fault(dcs, cards) == deck_fault(dcs.take(k), cards),
    decreases dcs.len() - k,
{
    if k < dcs.len() {
        assert(dcs.take(k + 1).drop_last() =~= dcs.take(k));
        lemma_deck_stuck(dcs, cards, k + 1);
    } else {
        assert(dcs.take(k) =~= dcs);
    }
}

/// The texts of an optional choice.
pub open spec fn opt_choice(o: Option<LegalChoice>) -> Option<(Seq<char>, Seq<char>)> {
    match o {
        Some(c) => Some(c@),
        None => None,
    }
}

/// Two feedbacks say the same thing: every field holds the same text,
/// flag or number.
pub open spec fn same_feedback(a: CardFeedback, b: CardFeedback) -> bool {
    &&& opt_choice(a.played_move) == opt_choice(b.played_move)
    &&& a.reference_match == b.reference_match
    &&& a.reference_move@ == b.reference_move@
    &&& a.source_game_move@ == b.source_game_move@
    &&& pairs_of(a.reference_line@) == pairs_of(b.reference_line@)
    &&& pairs_of(a.source_game_line@) == pairs_of(b.source_game_line@)
    &&& a.explanation@ == b.explanation@
    &&& a.success_criterion@ == b.success_criterion@
    &&& a.loss_cp_equivalent == b.loss_cp_equivalent
    &&& a.loss_bucket@ == b.loss_bucket@
    &&& opt_text(a.mate_event) == opt_text(b.mate_event)
    &&& a.evidence_version@ == b.evidence_version@
}

/// Whether two choices hold the same texts.
fn choice_eq(a: &LegalChoice, b: &LegalChoice) -> (r: bool)
    ensures
        r == (a@ == b@),
{
    crate::http::same_text(a.uci.as_str(), b.uci.as_str()) && crate::http::same_text(
        a.san.as_str(),
        b.san.as_str(),
    )
}

/// Whether two optional texts are the same.
pub fn opt_text_eq(a: &Option<String>, b: &Option<String>) -> (r: bool)
    ensures
        r == (opt_text(*a) == opt_text(*b)),
{
    match (a, b) {
        (Some(x), Some(y)) => crate::http::same_text(x.as_str(), y.as_str()),
        (None, None) => true,
        _ => false,
    }
}

/// Whether two revealed lines hold the same moves.
fn line_eq(a: &Vec<RevealedLineMove>, b: &Vec<RevealedLineMove>) -> (r: bool)
    ensures
        r == (pairs_of(a@) == pairs_of(b@)),
{
    if a.len() != b.len() {
        proof {
            assert(pairs_of(a@).len() != pairs_of(b@).len());
        }
        return false;
    }
    let mut i: usize = 0;
    while i < a.len()
        invariant
            i <= a@.len(),
            a@.len() == b@.len(),
            forall|j: int| 0 <= j < i ==> #[trigger] a@[j]@ == b@[j]@,
        decreases a@.len() - i,
    {
        if !crate::http::same_text(a[i].uci.as_str(), b[i].uci.as_str()) || !crate::http::same_text(
            a[i].san.as_str(),
            b[i].san.as_str(),
        ) {
            proof {
                assert(pairs_of(a@)[i as int] != pairs_of(b@)[i as int]);
            }
            return false;
        }
        i += 1;
    }
    assert(pairs_of(a@) =~= pairs_of(b@));
    true
}

/// Whether two feedbacks say the same thing.
pub fn feedback_eq(a: &CardFeedback, b: &CardFeedback) -> (r: bool)
    ensures
        r == same_feedback(*a, *b),
{
    let played = match (&a.played_move, &b.played_move) {
        (Some(x), Some(y)) => choice_eq(x, y),
        (None, None) => true,
        _ => false,
    };
    played && a.reference_match == b.reference_match && choice_eq(
        &a.reference_move,
        &b.reference_move,
    ) && choice_eq(&a.source_game_move, &b.source_game_move) && line_eq(
        &a.reference_line,
        &b.reference_line,
    ) && line_eq(&a.source_game_line, &b.source_game_line) && crate::http::same_text(
        a.explanation.as_str(),
        b.explanation.as_str(),
    ) && crate::http::same_text(a.success_criterion.as_str(), b.success_criterion.as_str())
        && a.loss_cp_equivalent == b.loss_cp_equivalent && crate::http::same_text(
        a.loss_bucket.as_str(),
        b.loss_bucket.as_str(),
    ) && opt_text_eq(&a.mate_event, &b.mate_event) && crate::http::same_text(
        a.evidence_version.as_str(),
        b.evidence_version.as_str(),
    )
}

/// A copy of a feedback.
pub fn copy_feedback(f: &CardFeedback) -> (r: CardFeedback)
    ensures
        same_feedback(r, *f),
{
    CardFeedback {
        played_move: match &f.played_move {
            Some(c) => Some(copy_choice(c)),
            None => None,
        },
        reference_match: f.reference_match,
        reference_move: copy_choice(&f.reference_move),
        source_game_move: copy_choice(&f.source_game_move),
        reference_line: copy_line(&f.reference_line),
        source_game_line: copy_line(&f.source_game_line),
        explanation: f.explanation.clone(),
        success_criterion: f.success_criterion.clone(),
        loss_cp_equivalent: f.loss_cp_equivalent,
        loss_bucket: f.loss_bucket.clone(),
        mate_event: copy_opt(&f.mate_event),
        evidence_version: f.evidence_version.clone(),
    }
}

} // verus!
