//! The analysis server's text logic: engine selection flags, PGN movetext
//! tokens and score orientation.
use crate::eval::mate_in_moves_spec;
use crate::text::{chars_of, is_whitespace, is_ws, same_chars, split_words, string_of, trim, trim_chars, words};
use crate::book::texts;
use crate::board::{BoardState, has_king, make_view};
use crate::fen::{FenFault, decimal, fault_text, fen_spec, fen_text, start_state};
use crate::game::Game;
use crate::http::{Request, from_utf8_lossy, lossy_text, jarr, jarr_text, jstr, jstr_text, num_spec, param_spec, push_str, push_u64, same_text};
use crate::movegen::{legal, unclocked};
use crate::moves::Move;
use crate::san::san_text;
use crate::board::in_check_spec;
use crate::game::{GameView, Outcome, keeps_kings, outcome_spec, rep_count};
use crate::state::{
    bool_text, illegal_text, jarr_quoted, legal_json, legal_text, lemma_play_len, lemma_replay_len,
    lemma_replay_stuck, lemma_uci_move, lists_legal, move_tokens, names_move, outcome_json,
    outcome_text, play, position_before, push_bool, quoted, replay, replay_safe, side_char,
    lemma_san_replay_len, play_sans, san_replay, san_replay_safe, play_tokens, sans_of, side_text, split_moves, uci_move, ucis_of,
};
use crate::types::{Color, opposite};
use crate::uci::uci_text;
use vstd::prelude::*;

verus! {

/// How an engine is run.
pub enum EngineKind {
    /// Built-in search with the handcrafted evaluator.
    Pesto,
    /// Built-in search with a trained quantized NNUE net (path to the net).
    Nnue(String),
    /// External UCI engine subprocess (command + args).
    Uci(Vec<String>),
}

/// A selectable engine.
pub struct EngineSpec {
    pub id: String,
    pub label: String,
    pub kind: EngineKind,
}

/// An ASCII digit.
pub open spec fn is_digit_char(c: char) -> bool {
    48 <= (c as u32) <= 57
}

/// The number of leading characters of `cs` from `i` on that satisfy
/// `digit`/`dot`.
pub open spec fn run_len(cs: Seq<char>, i: int, dots: bool) -> nat
    decreases cs.len() - i,
{
    if i < 0 || i >= cs.len() {
        0
    } else if (if dots {
        cs[i] == '.'
    } else {
        is_digit_char(cs[i])
    }) {
        1 + run_len(cs, i + 1, dots)
    } else {
        0
    }
}

/// What a movetext token holds as a move: `None` for move numbers, NAGs and
/// results; a leading move number glued to a move is dropped.
pub open spec fn clean_token_spec(tok: Seq<char>) -> Option<Seq<char>> {
    let t = trim(tok);
    if t.len() == 0 || t[0] == '$' || t == "1-0"@ || t == "0-1"@ || t == "1/2-1/2"@ || t == "*"@ {
        None
    } else {
        let i = run_len(t, 0, false);
        let j = i + run_len(t, i as int, true);
        if i > 0 && (j > i || i == t.len()) {
            if j == t.len() {
                None
            } else {
                Some(t.skip(j as int))
            }
        } else {
            Some(t)
        }
    }
}

/// Whether `cs` is the text `w`.
fn is_text(cs: &Vec<char>, w: &str) -> (r: bool)
    ensures
        r == (cs@ == w@),
{
    same_chars(cs, &chars_of(w))
}

/// Whether `c` continues a run of digits (`dots == false`) or dots.
fn run_char(c: char, dots: bool) -> (r: bool)
    ensures
        r == if dots {
            c == '.'
        } else {
            is_digit_char(c)
        },
{
    if dots {
        c == '.'
    } else {
        48 <= c as u32 && c as u32 <= 57
    }
}

/// Length of the run from `i` of digits (`dots == false`) or dots.
fn run_length(cs: &Vec<char>, i: usize, dots: bool) -> (r: usize)
    requires
        i <= cs.len(),
    ensures
        r == run_len(cs@, i as int, dots),
        i + r <= cs.len(),
{
    let mut k: usize = i;
    while k < cs.len() && run_char(cs[k], dots)
        invariant
            i <= k <= cs.len(),
            run_len(cs@, i as int, dots) == (k - i) + run_len(cs@, k as int, dots),
        decreases cs.len() - k,
    {
        k += 1;
    }
    k - i
}

/// Movetext token -> SAN move, or `None` for move numbers / NAGs / results.
pub fn clean_token(tok: &str) -> (r: Option<String>)
    ensures
        match r {
            Some(s) => clean_token_spec(tok@) == Some(s@),
            None => clean_token_spec(tok@) is None,
        },
{
    let t = trim_chars(&chars_of(tok));
    if t.len() == 0 || t[0] == '$' || is_text(&t, "1-0") || is_text(&t, "0-1") || is_text(
        &t,
        "1/2-1/2",
    ) || is_text(&t, "*") {
        return None;
    }
    let i = run_length(&t, 0, false);
    if i > 0 {
        let j = i + run_length(&t, i, true);
        if j > i || i == t.len() {
            if j == t.len() {
                return None;
            }
            let mut rest: Vec<char> = Vec::new();
            let mut k: usize = j;
            while k < t.len()
                invariant
                    j <= k <= t@.len(),
                    rest@ == t@.subrange(j as int, k as int),
                decreases t@.len() - k,
            {
                rest.push(t[k]);
                k += 1;
                assert(rest@ =~= t@.subrange(j as int, k as int));
            }
            assert(rest@ =~= t@.skip(j as int));
            return Some(string_of(&rest));
        }
    }
    Some(string_of(&t))
}

/// Engine score (side-to-move POV) -> White-POV `(cp, mate)` fields.
pub fn white_score(stm: Color, score: i32) -> (r: (Option<i32>, Option<i32>))
    requires
        score > i32::MIN,
    ensures
        ({
            let sign = if stm == Color::White {
                1int
            } else {
                -1int
            };
            match mate_in_moves_spec(score as int) {
                Some(m) => r.0 is None && r.1 == Some((sign * m) as i32),
                None => r.0 == Some((sign * score) as i32) && r.1 is None,
            }
        }),
{
    let sign: i32 = if stm == Color::White {
        1
    } else {
        -1
    };
    match crate::eval::mate_in_moves(score) {
        Some(m) => {
            assert(-1073741825 <= m <= 1073741825) by {
                let a = if score > 0 {
                    crate::eval::MATE - score + 1
                } else {
                    crate::eval::MATE + score
                };
                assert(-2147483647 <= a <= 31001);
            }
            (None, Some(sign * m))
        },
        None => (Some(sign * score), None),
    }
}

/// The text `str::to_lowercase` gives for `s`.
pub uninterp spec fn lowercase(s: Seq<char>) -> Seq<char>;

/// `str::to_lowercase`, whose result is named by [`lowercase`].
#[verifier::external_body]
fn to_lowercase(s: &str) -> (r: String)
    ensures
        r@ == lowercase(s@),
{
    s.to_lowercase()
}

/// The stem that `Path::file_stem` finds in a path text, if any.
pub uninterp spec fn path_stem(p: Seq<char>) -> Option<Seq<char>>;

/// `Path::file_stem` on a path text, whose result is named by [`path_stem`].
#[verifier::external_body]
fn file_stem(p: &str) -> (r: Option<String>)
    ensures
        match r {
            Some(s) => path_stem(p@) == Some(s@),
            None => path_stem(p@) is None,
        },
{
    std::path::Path::new(p).file_stem().map(|s| s.to_string_lossy().into_owned())
}

/// The index of the first `=` in `cs`, if any.
pub open spec fn first_eq(cs: Seq<char>, k: int) -> Option<int>
    decreases cs.len() - k,
{
    if k < 0 || k >= cs.len() {
        None
    } else if cs[k] == '=' {
        Some(k)
    } else {
        first_eq(cs, k + 1)
    }
}

/// A `--uci` argument split into its optional `name=` and its command line.
pub open spec fn flag_parts(arg: Seq<char>) -> (Option<Seq<char>>, Seq<char>) {
    match first_eq(arg, 0) {
        Some(p) => {
            let n = trim(arg.take(p));
            let rest = trim(arg.skip(p + 1));
            if !(exists|i: int| 0 <= i < n.len() && #[trigger] is_ws(n[i])) && rest.len() > 0 {
                (Some(n), rest)
            } else {
                (None, trim(arg))
            }
        },
        None => (None, trim(arg)),
    }
}

/// The label of an engine: its given name, else the stem of its executable,
/// else the executable itself.
pub open spec fn flag_label(name: Option<Seq<char>>, exe: Seq<char>) -> Seq<char> {
    match name {
        Some(n) => n,
        None => match path_stem(exe) {
            Some(s) => s,
            None => exe,
        },
    }
}

/// `uci-` followed by `lower` with spaces made dashes.
pub open spec fn engine_id_text(lower: Seq<char>) -> Seq<char> {
    "uci-"@ + lower.map_values(|c: char| if c == ' ' { '-' } else { c })
}

/// The engine id for a lowercased label: `uci-` and the label with spaces
/// made dashes.
pub fn engine_id(lower: &str) -> (r: String)
    ensures
        r@ == engine_id_text(lower@),
{
    let cs = chars_of(lower);
    let mut out = String::new();
    crate::http::push_str(&mut out, "uci-");
    let ghost p = out@;
    let mut i: usize = 0;
    while i < cs.len()
        invariant
            i <= cs@.len(),
            cs@ == lower@,
            out@ == p + cs@.take(i as int).map_values(|c: char| if c == ' ' { '-' } else { c }),
        decreases cs@.len() - i,
    {
        let c = cs[i];
        out.push(
            if c == ' ' {
                '-'
            } else {
                c
            },
        );
        i += 1;
        assert(out@ =~= p + cs@.take(i as int).map_values(
            |c: char|
                if c == ' ' {
                    '-'
                } else {
                    c
                },
        ));
    }
    assert(cs@.take(cs@.len() as int) =~= cs@);
    out
}

/// The characters of `cs` in `lo..hi`.
fn slice_chars(cs: &Vec<char>, lo: usize, hi: usize) -> (r: Vec<char>)
    requires
        lo <= hi <= cs.len(),
    ensures
        r@ == cs@.subrange(lo as int, hi as int),
{
    let mut out: Vec<char> = Vec::new();
    let mut k: usize = lo;
    while k < hi
        invariant
            lo <= k <= hi <= cs.len(),
            out@ == cs@.subrange(lo as int, k as int),
        decreases hi - k,
    {
        out.push(cs[k]);
        k += 1;
        assert(out@ =~= cs@.subrange(lo as int, k as int));
    }
    out
}

/// `--uci` argument: either a bare command line, or `name=command line`.
/// The `name=` form is only recognized when the name carries no whitespace,
/// so `lc0 --weights=x.pb` parses as a command, not as a name.
pub fn parse_uci_flag(arg: &str) -> (r: Result<EngineSpec, String>)
    ensures
        ({
            let (name, cmd) = flag_parts(arg@);
            let parts = words(cmd);
            match r {
                Err(e) => parts.len() == 0 && e@ == "--uci needs a command"@,
                Ok(spec) => parts.len() > 0 && spec.label@ == flag_label(name, parts[0])
                    && spec.id@ == engine_id_text(lowercase(spec.label@)) && (spec.kind matches EngineKind::Uci(v)
                    && crate::book::texts(v@) == parts),
            }
        }),
{
    let cs = chars_of(arg);
    let mut p: usize = 0;
    while p < cs.len() && cs[p] != '='
        invariant
            p <= cs@.len(),
            cs@ == arg@,
            first_eq(cs@, 0) == first_eq(cs@, p as int),
        decreases cs@.len() - p,
    {
        p += 1;
    }
    let mut name: Option<Vec<char>> = None;
    let mut cmd: Vec<char> = trim_chars(&cs);
    if p < cs.len() {
        let n = trim_chars(&slice_chars(&cs, 0, p));
        let rest = trim_chars(&slice_chars(&cs, p + 1, cs.len()));
        assert(cs@.subrange(0, p as int) =~= cs@.take(p as int));
        assert(cs@.subrange(p + 1, cs@.len() as int) =~= cs@.skip(p + 1));
        let mut k: usize = 0;
        let mut has_ws = false;
        while k < n.len()
            invariant
                k <= n@.len(),
                has_ws == exists|i: int| 0 <= i < k && #[trigger] is_ws(n@[i]),
            decreases n@.len() - k,
        {
            if is_whitespace(n[k]) {
                has_ws = true;
            }
            k += 1;
        }
        if !has_ws && rest.len() > 0 {
            name = Some(n);
            cmd = rest;
        }
    }
    let parts = split_words(&cmd);
    if parts.len() == 0 {
        return Err(string_of(&chars_of("--uci needs a command")));
    }
    let label: Vec<char> = match name {
        Some(n) => n,
        None => {
            let exe = string_of(&parts[0]);
            match file_stem(exe.as_str()) {
                Some(s) => chars_of(s.as_str()),
                None => chars_of(exe.as_str()),
            }
        },
    };
    let label_s = string_of(&label);
    let lower = to_lowercase(label_s.as_str());
    let id = engine_id(lower.as_str());
    let mut v: Vec<String> = Vec::new();
    let mut k: usize = 0;
    while k < parts.len()
        invariant
            k <= parts@.len(),
            v@.len() == k,
            forall|i: int| 0 <= i < k ==> #[trigger] v@[i]@ == parts@[i]@,
        decreases parts@.len() - k,
    {
        v.push(string_of(&parts[k]));
        k += 1;
    }
    assert(crate::book::texts(v@) =~= words(cmd@));
    Ok(EngineSpec { id, label: label_s, kind: EngineKind::Uci(v) })
}

/// A request's game line: the validated move list plus a `Game` rewound to
/// the requested view index `at`.
pub struct Line {
    pub start_fen: String,
    pub ucis: Vec<String>,
    pub sans: Vec<String>,
    pub at: usize,
    pub game: Game,
}

/// The start position named by the query: the `fen` parameter when present
/// and not empty, else `startpos`.
pub open spec fn fen_param(q: Seq<(String, String)>) -> Seq<char> {
    match param_spec(q, "fen"@) {
        Some(t) => if t.len() > 0 {
            t
        } else {
            "startpos"@
        },
        None => "startpos"@,
    }
}

/// The start position of the query's line, or why its FEN is refused.
pub open spec fn start_spec(q: Seq<(String, String)>) -> Result<BoardState, FenFault> {
    if fen_param(q) == "startpos"@ {
        Ok(start_state())
    } else {
        fen_spec(fen_param(q))
    }
}

/// The UCI tokens of the query's `moves` parameter.
pub open spec fn line_tokens(q: Seq<(String, String)>) -> Seq<Seq<char>> {
    move_tokens(
        match param_spec(q, "moves"@) {
            Some(t) => t,
            None => Seq::empty(),
        },
    )
}




/// Building the query's line cannot fail on the way.
pub open spec fn line_safe(q: Seq<(String, String)>) -> bool {
    start_spec(q) matches Ok(v) ==> replay_safe(v, line_tokens(q))
}

/// The error the query's line is refused with, if any.
pub open spec fn line_error(q: Seq<(String, String)>) -> Option<Seq<char>> {
    match start_spec(q) {
        Err(f) => Some("bad FEN: "@ + fault_text(f)),
        Ok(v) => {
            let (ms, ok) = replay(v, line_tokens(q));
            if ok {
                None
            } else {
                Some(illegal_text(line_tokens(q)[ms.len() as int], ms.len()))
            }
        },
    }
}

/// The moves of the query's line (from its start position `v`).
pub open spec fn line_moves(q: Seq<(String, String)>, v: BoardState) -> Seq<Move> {
    replay(v, line_tokens(q)).0
}

/// The view index of the query's line with `n` moves: `at`, clamped to
/// `[0, n]`, defaulting to `n`.
pub open spec fn at_spec(q: Seq<(String, String)>, n: int) -> int {
    num_spec(q, "at"@, n, 0, n)
}

/// `line` is the query's line.
pub open spec fn line_ok(line: Line, q: Seq<(String, String)>) -> bool {
    start_spec(q) matches Ok(v) && {
        let ms = line_moves(q, v);
        let at = at_spec(q, ms.len() as int);
        &&& line.start_fen@ == fen_text(v)
        &&& texts(line.ucis@) == ucis_of(ms)
        &&& texts(line.sans@) == sans_of(v, ms)
        &&& line.at == at
        &&& line.game.wf()
        &&& line.game@.moves == ms.take(at)
        &&& line.game@.positions == play(v, ms).take(at + 1)
    }
}

/// The validated line of a request: its start position, the moves of its
/// `moves` parameter (space or comma separated UCI), and the game rewound
/// to the view index `at`.
pub fn line_from_req(req: &Request) -> (r: Result<Line, String>)
    requires
        line_safe(req.query@),
    ensures
        match line_error(req.query@) {
            Some(m) => r matches Err(e) && e@ == m,
            None => r matches Ok(line) && line_ok(line, req.query@),
        },
{
    let ghost q = req.query@;
    let fen: &str = match req.param("fen") {
        Some(t) => if t.is_empty() {
            "startpos"
        } else {
            t
        },
        None => "startpos",
    };
    assert(fen@ == fen_param(q));
    let mut game = if same_text(fen, "startpos") {
        Game::new()
    } else {
        match Game::from_fen(fen) {
            Ok(g) => g,
            Err(e) => {
                let mut m = String::new();
                push_str(&mut m, "bad FEN: ");
                push_str(&mut m, e.debug_text().as_str());
                return Err(m);
            },
        }
    };
    let ghost v = game.current();
    proof {
        game.lemma_view();
        assert(start_spec(q) == Ok::<BoardState, FenFault>(v));
    }
    let start_fen = game.board().to_fen();
    let moves: &str = match req.param("moves") {
        Some(t) => t,
        None => "",
    };
    proof {
        reveal_strlit("");
    }
    let toks = split_moves(moves);
    let ghost tk = texts(toks@);
    let (ucis, sans, ok) = play_tokens(&mut game, &toks);
    let ghost ms = game@.moves;
    proof {
        lemma_replay_len(v, tk);
        assert(tk.len() == toks@.len());
        assert(texts(ucis@).len() == ucis@.len());
        assert(ucis_of(ms).len() == ms.len());
    }
    if !ok {
        let k = ucis.len();
        let mut m = String::new();
        push_str(&mut m, "illegal move '");
        push_str(&mut m, toks[k].as_str());
        push_str(&mut m, "' at ply ");
        push_u64(&mut m, k as u64);
        proof {
            assert(toks@[k as int]@ == tk[k as int]);
            assert(m@ == illegal_text(tk[ms.len() as int], ms.len()));
        }
        return Err(m);
    }
    let n = ucis.len();
    let at = req.num("at", n, 0, n);
    let mut j = n;
    proof {
        lemma_play_len(v, ms);
        assert(ms.take(n as int) =~= ms);
        assert(play(v, ms).take(n + 1) =~= play(v, ms));
    }
    while j > at
        invariant
            at <= j <= n,
            n == ms.len(),
            play(v, ms).len() == n + 1,
            game.wf(),
            game@.moves == ms.take(j as int),
            game@.positions == play(v, ms).take(j + 1),
        decreases j,
    {
        game.pop();
        j -= 1;
        proof {
            assert(ms.take(j + 1).drop_last() =~= ms.take(j as int));
            assert(play(v, ms).take(j + 2).drop_last() =~= play(v, ms).take(j + 1));
        }
    }
    Ok(Line { start_fen, ucis, sans, at, game })
}

/// The position the query's line is viewed at.
pub open spec fn view_position(q: Seq<(String, String)>, v: BoardState) -> BoardState {
    let ms = line_moves(q, v);
    play(v, ms)[at_spec(q, ms.len() as int)]
}

/// Answering the query cannot fail on the way: its line can be built, and
/// every legal move of the viewed position keeps the opponent's king.
pub open spec fn state_safe(q: Seq<(String, String)>) -> bool {
    &&& line_safe(q)
    &&& (line_error(q) is None ==> (start_spec(q) matches Ok(v) && keeps_kings(
        view_position(q, v),
    )))
}

/// The state JSON of a line from `v` with moves `ms`, viewed at `at`, where
/// the game's outcome is `o` and `lm` lists the legal moves.
pub open spec fn state_text(v: BoardState, ms: Seq<Move>, at: int, o: Outcome, lm: Seq<Move>) -> Seq<
    char,
> {
    let cur = play(v, ms)[at];
    "{\"startFen\":"@ + jstr_text(fen_text(v)) + ",\"moves\":"@ + jarr_text(quoted(ucis_of(ms)))
        + ",\"sans\":"@ + jarr_text(quoted(sans_of(v, ms))) + ",\"at\":"@ + decimal(at as nat)
        + ",\"fen\":"@ + jstr_text(fen_text(cur)) + ",\"side\":"@ + jstr_text(side_text(cur.side))
        + ",\"check\":"@ + bool_text(in_check_spec(cur)) + ",\"lastMove\":"@ + (if at > 0 {
        jstr_text(uci_text(ms[at - 1]))
    } else {
        "null"@
    }) + ",\"outcome\":"@ + outcome_text(o) + ",\"legal\":"@ + legal_text(cur, lm) + "}"@
}

/// The outcome of the game of the query's line, as viewed.
pub open spec fn view_outcome(q: Seq<(String, String)>, v: BoardState) -> Outcome {
    let ms = line_moves(q, v);
    let at = at_spec(q, ms.len() as int);
    outcome_spec(
        play(v, ms)[at],
        rep_count(GameView { positions: play(v, ms).take(at + 1), moves: ms.take(at) }) as int,
    )
}

/// `j` is the state JSON of the query's line.
pub open spec fn state_ok(j: Seq<char>, q: Seq<(String, String)>) -> bool {
    start_spec(q) matches Ok(v) && {
        let ms = line_moves(q, v);
        let at = at_spec(q, ms.len() as int);
        exists|lm: Seq<Move>|
            lists_legal(play(v, ms)[at], lm) && j == state_text(v, ms, at, view_outcome(q, v), lm)
    }
}

/// The state of a request's line: its start, moves (UCI and SAN), the view
/// index, and the viewed position's FEN, side to move, check, last move,
/// outcome and legal moves.
pub fn handle_state(req: &Request) -> (r: Result<String, String>)
    requires
        state_safe(req.query@),
    ensures
        match line_error(req.query@) {
            Some(m) => r matches Err(e) && e@ == m,
            None => r matches Ok(j) && state_ok(j@, req.query@),
        },
{
    let line = match line_from_req(req) {
        Ok(l) => l,
        Err(e) => {
            return Err(e);
        },
    };
    let ghost q = req.query@;
    let ghost v = start_spec(q)->Ok_0;
    let ghost ms = line_moves(q, v);
    let ghost at = at_spec(q, ms.len() as int);
    proof {
        lemma_play_len(v, ms);
        line.game.lemma_view();
        assert(line.game.current() == play(v, ms)[at]);
    }
    let board = line.game.board();
    let legal = legal_json(board);
    let outcome = line.game.outcome();
    let mut out = String::new();
    push_str(&mut out, "{\"startFen\":");
    push_str(&mut out, jstr(line.start_fen.as_str()).as_str());
    push_str(&mut out, ",\"moves\":");
    push_str(&mut out, jarr_quoted(&line.ucis).as_str());
    push_str(&mut out, ",\"sans\":");
    push_str(&mut out, jarr_quoted(&line.sans).as_str());
    push_str(&mut out, ",\"at\":");
    push_u64(&mut out, line.at as u64);
    push_str(&mut out, ",\"fen\":");
    push_str(&mut out, jstr(board.to_fen().as_str()).as_str());
    push_str(&mut out, ",\"side\":");
    push_str(&mut out, jstr(side_char(board.side_to_move())).as_str());
    push_str(&mut out, ",\"check\":");
    push_bool(&mut out, board.in_check());
    push_str(&mut out, ",\"lastMove\":");
    if line.at > 0 {
        push_str(&mut out, jstr(line.ucis[line.at - 1].as_str()).as_str());
    } else {
        push_str(&mut out, "null");
    }
    push_str(&mut out, ",\"outcome\":");
    push_str(&mut out, outcome_json(outcome).as_str());
    push_str(&mut out, ",\"legal\":");
    push_str(&mut out, legal.as_str());
    push_str(&mut out, "}");
    proof {
        let lm = choose|lm: Seq<Move>| lists_legal(board@, lm) && legal@ == legal_text(board@, lm);
        if at > 0 {
            assert(texts(line.ucis@)[at - 1] == ucis_of(ms)[at - 1]);
        }
        assert(out@ == state_text(v, ms, at, view_outcome(q, v), lm));
    }
    Ok(out)
}

// --- PGN import ---

/// The start of a PGN game: its FEN tag's position, or the start position.
pub open spec fn pgn_start(fen: Option<Seq<char>>) -> Result<BoardState, FenFault> {
    match fen {
        Some(f) => fen_spec(f),
        None => Ok(start_state()),
    }
}

/// The complaint about a SAN token that names no legal move after `k` plies.
pub open spec fn unplayable_text(tok: Seq<char>, k: nat) -> Seq<char> {
    "unparseable or illegal move '"@ + tok + "' (after "@ + decimal(k) + " plies)"@
}

/// The error a PGN body is refused with, if any.
pub open spec fn pgn_error(body: Seq<u8>) -> Option<Seq<char>> {
    let (fen, toks) = crate::pgn::pgn_game(lossy_text(body));
    match pgn_start(fen) {
        Err(f) => Some("bad FEN tag: "@ + fault_text(f)),
        Ok(v) => {
            let (ms, ok) = san_replay(v, toks);
            if !ok {
                Some(unplayable_text(toks[ms.len() as int], ms.len()))
            } else if ms.len() == 0 && fen is None {
                Some("no moves found in PGN"@)
            } else {
                None
            }
        },
    }
}

/// Importing the PGN body cannot fail on the way.
pub open spec fn pgn_safe(body: Seq<u8>) -> bool {
    let (fen, toks) = crate::pgn::pgn_game(lossy_text(body));
    pgn_start(fen) matches Ok(v) ==> san_replay_safe(v, toks)
}

/// The JSON a PGN body is answered with: its start, and the UCI and SAN
/// texts of its moves.
pub open spec fn pgn_text(body: Seq<u8>) -> Seq<char> {
    let (fen, toks) = crate::pgn::pgn_game(lossy_text(body));
    let v = pgn_start(fen)->Ok_0;
    let ms = san_replay(v, toks).0;
    "{\"fen\":"@ + jstr_text(
        match fen {
            Some(f) => f,
            None => "startpos"@,
        },
    ) + ",\"moves\":"@ + jarr_text(quoted(ucis_of(ms))) + ",\"sans\":"@ + jarr_text(
        quoted(sans_of(v, ms)),
    ) + "}"@
}

/// Import the first game of a PGN body: its start and its moves in UCI and
/// SAN.
pub fn handle_pgn(req: &Request) -> (r: Result<String, String>)
    requires
        pgn_safe(req.body@),
    ensures
        match pgn_error(req.body@) {
            Some(m) => r matches Err(e) && e@ == m,
            None => r matches Ok(j) && j@ == pgn_text(req.body@),
        },
{
    let text = from_utf8_lossy(req.body.as_slice());
    let (start_fen, tokens) = crate::pgn::parse_pgn_game(text.as_str());
    let ghost tk = texts(tokens@);
    let mut game = match &start_fen {
        Some(f) => match Game::from_fen(f.as_str()) {
            Ok(g) => g,
            Err(e) => {
                let mut m = String::new();
                push_str(&mut m, "bad FEN tag: ");
                push_str(&mut m, e.debug_text().as_str());
                return Err(m);
            },
        },
        None => Game::new(),
    };
    let ghost v = game.current();
    proof {
        game.lemma_view();
    }
    let (ucis, sans, ok) = play_sans(&mut game, &tokens);
    let ghost ms = game@.moves;
    proof {
        lemma_san_replay_len(v, tk);
        assert(tk.len() == tokens@.len());
        assert(texts(ucis@).len() == ucis@.len());
        assert(ucis_of(ms).len() == ms.len());
    }
    if !ok {
        let k = ucis.len();
        let mut m = String::new();
        push_str(&mut m, "unparseable or illegal move '");
        push_str(&mut m, tokens[k].as_str());
        push_str(&mut m, "' (after ");
        push_u64(&mut m, k as u64);
        push_str(&mut m, " plies)");
        proof {
            assert(tokens@[k as int]@ == tk[k as int]);
            assert(m@ == unplayable_text(tk[ms.len() as int], ms.len()));
        }
        return Err(m);
    }
    if ucis.len() == 0 && start_fen.is_none() {
        return Err("no moves found in PGN".to_string());
    }
    let mut out = String::new();
    push_str(&mut out, "{\"fen\":");
    match &start_fen {
        Some(f) => push_str(&mut out, jstr(f.as_str()).as_str()),
        None => push_str(&mut out, jstr("startpos").as_str()),
    }
    push_str(&mut out, ",\"moves\":");
    push_str(&mut out, jarr_quoted(&ucis).as_str());
    push_str(&mut out, ",\"sans\":");
    push_str(&mut out, jarr_quoted(&sans).as_str());
    push_str(&mut out, "}");
    Ok(out)
}

} // verus!
