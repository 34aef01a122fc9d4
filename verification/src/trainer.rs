//! The trainer's position and grading logic: the free-play line from the
//! start position, the state it reports, the POV-symmetric score scale, the
//! "brilliant" test, the human reason a sub-par move is sub-par, and the
//! loopback authority checks of the review mutations.
use crate::board::{Board, BoardState, has_king, has_piece, in_check_spec, make_view};
use crate::book::{book_spec, find_line, opening_name_spec, texts};
use crate::fen::{decimal, fen_text, start_state};
use crate::game::{Game, GameView, Outcome, clocks_ok, keeps_kings, outcome_spec, rep_count};
use crate::http::{
    Request, find_param, jarr_text, jstr, jstr_text, param_spec, push_str, push_u64, same_text,
};
use crate::movegen::{legal, lemma_king_survives, lemma_pseudo_applicable, unclocked};
use crate::moves::{Move, is_capture_flag, mfrom, mflag, mto};
use crate::san::san_text;
use crate::state::{
    lemma_uci_move, names_move, uci_move,
    bool_text, illegal_text, jarr_quoted, legal_json, legal_text, lemma_play_len,
    lemma_replay_len, lists_legal, outcome_json, outcome_text, play, play_tokens, push_bool,
    quoted, replay, replay_safe, side_char, side_text, split_moves, ucis_of,
};
use crate::text::{chars_of, split_char, split_on, string_of, trim, trim_chars};
use crate::types::{Color, PieceType, opposite};
use crate::uci::{square_text, uci_slices_ok, uci_text};
use crate::uci_client::{GoParams, UciInfo};
use crate::web::line_tokens;
use vstd::prelude::*;

verus! {

/// The trainer's settings.
pub struct Config {
    /// External engine command line (default: `stockfish`).
    pub engine_cmd: Vec<String>,
    pub hash_mb: usize,
    pub review_token: String,
    pub port: u16,
}

// --- scoring helpers ---

/// A monotone, POV-symmetric scalar from a (cp, mate) score: a mate in `m`
/// is worth `1_000_000 - m`, being mated in `m` is worth `-1_000_000 - m`,
/// otherwise the centipawns (0 when absent).
pub open spec fn score_spec(cp: Option<i32>, mate: Option<i32>) -> int {
    match mate {
        Some(m) => if m > 0 {
            1_000_000 - m
        } else {
            -1_000_000 - m
        },
        None => match cp {
            Some(c) => c as int,
            None => 0,
        },
    }
}

/// The scalar value of a (cp, mate) score.
pub fn score_value(cp: Option<i32>, mate: Option<i32>) -> (r: i64)
    ensures
        r == score_spec(cp, mate),
{
    match mate {
        Some(m) => if m > 0 {
            1_000_000 - m as i64
        } else {
            -1_000_000 - m as i64
        },
        None => match cp {
            Some(c) => c as i64,
            None => 0,
        },
    }
}

/// A score seen from the other side: both parts negated.
pub open spec fn negated(x: Option<i32>) -> Option<i32> {
    match x {
        Some(v) => Some((-v) as i32),
        None => None,
    }
}

/// Negating the inputs negates the value: a position evaluated from the
/// opponent's side flips with one sign change (a mate count of zero, which
/// has no sign, and `i32::MIN`, which has no negation, aside).
pub proof fn lemma_score_symmetric(cp: Option<i32>, mate: Option<i32>)
    requires
        mate != Some(0i32),
        mate != Some(i32::MIN),
        mate is None ==> cp != Some(i32::MIN),
    ensures
        score_spec(negated(cp), negated(mate)) == -score_spec(cp, mate),
{
}

/// A sooner mate is worth more, and being mated sooner is worth less; a mate
/// outweighs any centipawn score smaller than the mate's margin.
pub proof fn lemma_score_order(m1: i32, m2: i32, cp: i32)
    ensures
        0 < m1 < m2 ==> score_spec(None, Some(m1)) > score_spec(None, Some(m2)),
        m2 < m1 < 0 ==> score_spec(None, Some(m1)) < score_spec(None, Some(m2)),
        0 < m1 && cp + m1 < 1_000_000 ==> score_spec(None, Some(m1)) > score_spec(Some(cp), None),
        m1 < 0 && -m1 - cp < 1_000_000 ==> score_spec(None, Some(m1)) < score_spec(Some(cp), None),
{
}

/// (cp, mate) as seen from White, given the side that just moved was
/// `mover`: unchanged for White, negated for Black.
pub fn to_white(mover: Color, cp: Option<i32>, mate: Option<i32>) -> (r: (Option<i32>, Option<i32>))
    requires
        mover == Color::Black ==> cp != Some(i32::MIN) && mate != Some(i32::MIN),
    ensures
        r == if mover == Color::White {
            (cp, mate)
        } else {
            (negated(cp), negated(mate))
        },
{
    let sign: i32 = if mover == Color::White {
        1
    } else {
        -1
    };
    (
        match cp {
            Some(v) => Some(sign * v),
            None => None,
        },
        match mate {
            Some(v) => Some(sign * v),
            None => None,
        },
    )
}

/// Nominal piece values in centipawns.
pub open spec fn piece_val_spec(pt: PieceType) -> i32 {
    match pt {
        PieceType::Pawn => 100,
        PieceType::Knight => 320,
        PieceType::Bishop => 330,
        PieceType::Rook => 500,
        PieceType::Queen => 900,
        PieceType::King => 20_000,
    }
}

/// The nominal value of a piece type.
pub fn piece_val(pt: PieceType) -> (r: i32)
    ensures
        r == piece_val_spec(pt),
{
    match pt {
        PieceType::Pawn => 100,
        PieceType::Knight => 320,
        PieceType::Bishop => 330,
        PieceType::Rook => 500,
        PieceType::Queen => 900,
        PieceType::King => 20_000,
    }
}

/// The English name of a piece type.
pub open spec fn piece_name_spec(pt: PieceType) -> Seq<char> {
    match pt {
        PieceType::Pawn => "pawn"@,
        PieceType::Knight => "knight"@,
        PieceType::Bishop => "bishop"@,
        PieceType::Rook => "rook"@,
        PieceType::Queen => "queen"@,
        PieceType::King => "king"@,
    }
}

/// The English name of a piece type.
pub fn piece_name(pt: PieceType) -> (r: &'static str)
    ensures
        r@ == piece_name_spec(pt),
{
    match pt {
        PieceType::Pawn => "pawn",
        PieceType::Knight => "knight",
        PieceType::Bishop => "bishop",
        PieceType::Rook => "rook",
        PieceType::Queen => "queen",
        PieceType::King => "king",
    }
}

/// Search limits from the request. A `depth` (fixed-depth, stable cp-loss)
/// takes precedence over `movetime`, under a 4 s wall-clock cap.
pub fn go_limits(multipv: usize, depth: i32, movetime: u64) -> (r: GoParams)
    ensures
        r.multipv == multipv,
        depth > 0 ==> r.depth == depth && r.movetime == 4_000,
        depth <= 0 ==> r.depth == 0 && r.movetime == movetime,
{
    if depth > 0 {
        GoParams { multipv, depth, movetime: 4_000 }
    } else {
        GoParams { multipv, depth: 0, movetime }
    }
}

/// Items joined by single spaces.
pub open spec fn join_spaces(items: Seq<Seq<char>>) -> Seq<char>
    decreases items.len(),
{
    if items.len() == 0 {
        Seq::empty()
    } else if items.len() == 1 {
        items[0]
    } else {
        join_spaces(items.drop_last()) + seq![' '] + items.last()
    }
}

/// The UCI `position` command for a line from the start position.
pub open spec fn uci_position_text(ucis: Seq<Seq<char>>) -> Seq<char> {
    if ucis.len() == 0 {
        "position startpos"@
    } else {
        "position startpos moves "@ + join_spaces(ucis)
    }
}

/// `position startpos moves ...` for a UCI engine.
pub fn uci_position(ucis: &[String]) -> (r: String)
    ensures
        r@ == uci_position_text(texts(ucis@)),
{
    let ghost all = texts(ucis@);
    let mut out = String::new();
    if ucis.len() == 0 {
        push_str(&mut out, "position startpos");
        return out;
    }
    push_str(&mut out, "position startpos moves ");
    let ghost head = out@;
    let mut i: usize = 0;
    while i < ucis.len()
        invariant
            i <= ucis@.len(),
            all == texts(ucis@),
            out@ == head + join_spaces(all.take(i as int)),
        decreases ucis@.len() - i,
    {
        proof {
            assert(all.take(i + 1).drop_last() =~= all.take(i as int));
            assert(all.take(i + 1).last() == ucis@[i as int]@);
        }
        if i > 0 {
            out.push(' ');
        }
        push_str(&mut out, ucis[i].as_str());
        i += 1;
        proof {
            if i == 1 {
                assert(all.take(1) =~= seq![all[0]]);
            }
            assert(out@ =~= head + join_spaces(all.take(i as int)));
        }
    }
    assert(all.take(ucis@.len() as int) =~= all);
    out
}

// --- loopback authority ---

/// ASCII letters lowered, other characters kept.
pub open spec fn ascii_lower(cs: Seq<char>) -> Seq<char> {
    cs.map_values(
        |c: char|
            if 65 <= (c as u32) <= 90 {
                ((c as u32) + 32) as char
            } else {
                c
            },
    )
}

/// `str::to_ascii_lowercase` of a trimmed text.
fn trimmed_lower(cs: &Vec<char>) -> (r: Vec<char>)
    ensures
        r@ == ascii_lower(trim(cs@)),
{
    let t = trim_chars(cs);
    let mut out: Vec<char> = Vec::new();
    let mut i: usize = 0;
    while i < t.len()
        invariant
            i <= t@.len(),
            t@ == trim(cs@),
            out@ == ascii_lower(t@.take(i as int)),
        decreases t@.len() - i,
    {
        let c = t[i];
        let u = c as u32;
        let l = if 65 <= u && u <= 90 {
            ((u + 32) as u8) as char
        } else {
            c
        };
        out.push(l);
        i += 1;
        proof {
            assert(out@ =~= ascii_lower(t@.take(i as int)));
        }
    }
    assert(t@.take(t@.len() as int) =~= t@);
    out
}

/// `prefix` followed by the decimal port number.
pub open spec fn with_port(prefix: Seq<char>, port: u16) -> Seq<char> {
    prefix + decimal(port as nat)
}

/// The text `prefix` followed by the decimal port number.
fn with_port_text(prefix: &str, port: u16) -> (r: Vec<char>)
    ensures
        r@ == with_port(prefix@, port),
{
    let mut s = String::new();
    push_str(&mut s, prefix);
    push_u64(&mut s, port as u64);
    chars_of(s.as_str())
}

/// Whether two character vectors are equal.
fn same(a: &Vec<char>, b: &Vec<char>) -> (r: bool)
    ensures
        r == (a@ == b@),
{
    crate::text::same_chars(a, b)
}

/// The Host header names this loopback server: `127.0.0.1:<port>` or
/// `localhost:<port>` (case and surrounding whitespace aside), or either
/// bare name when the port is 80.
pub open spec fn loopback_host_ok(host: Option<Seq<char>>, port: u16) -> bool {
    match host {
        None => false,
        Some(h) => {
            let l = ascii_lower(trim(h));
            l == with_port("127.0.0.1:"@, port) || l == with_port("localhost:"@, port) || (port == 80
                && (l == "127.0.0.1"@ || l == "localhost"@))
        },
    }
}

/// Whether a Host header names this loopback server.
pub fn allowed_loopback_host(host: Option<&str>, port: u16) -> (r: bool)
    ensures
        r == loopback_host_ok(
            match host {
                Some(h) => Some(h@),
                None => None,
            },
            port,
        ),
{
    let h = match host {
        Some(h) => h,
        None => {
            return false;
        },
    };
    let l = trimmed_lower(&chars_of(h));
    same(&l, &with_port_text("127.0.0.1:", port)) || same(&l, &with_port_text("localhost:", port))
        || port == 80 && (same(&l, &chars_of("127.0.0.1")) || same(&l, &chars_of("localhost")))
}

/// The Origin header is this loopback server's:
/// `http://127.0.0.1:<port>` or `http://localhost:<port>`.
pub open spec fn loopback_origin_ok(origin: Seq<char>, port: u16) -> bool {
    let l = ascii_lower(trim(origin));
    l == with_port("http://127.0.0.1:"@, port) || l == with_port("http://localhost:"@, port)
}

/// Whether an Origin header is this loopback server's.
pub fn allowed_loopback_origin(origin: &str, port: u16) -> (r: bool)
    ensures
        r == loopback_origin_ok(origin@, port),
{
    let l = trimmed_lower(&chars_of(origin));
    same(&l, &with_port_text("http://127.0.0.1:", port)) || same(
        &l,
        &with_port_text("http://localhost:", port),
    )
}

/// The media type of a Content-Type value: the part before any `;`,
/// trimmed and lowered.
pub open spec fn media_type(ct: Seq<char>) -> Seq<char> {
    ascii_lower(trim(split_on(ct, ';')[0]))
}

/// Why a review mutation is refused, if it is: a foreign Origin, a body
/// that is not JSON, or a missing or wrong capability token.
pub open spec fn authority_fault(headers: Seq<(String, String)>, token: Seq<char>, port: u16) -> Option<
    Seq<char>,
> {
    let ct = match param_spec(headers, "content-type"@) {
        Some(t) => t,
        None => Seq::empty(),
    };
    if param_spec(headers, "origin"@) matches Some(o) && !loopback_origin_ok(o, port) {
        Some("invalid Origin for loopback trainer"@)
    } else if media_type(ct) != "application/json"@ {
        Some("review mutations require application/json"@)
    } else if param_spec(headers, "x-chess-review-token"@) != Some(token) {
        Some("invalid review capability"@)
    } else {
        None
    }
}

/// Check that a review mutation comes from this loopback server's page,
/// carries JSON, and holds the capability token.
pub fn authorize_review_post(req: &Request, cfg: &Config) -> (r: Result<(), String>)
    ensures
        match authority_fault(req.headers@, cfg.review_token@, cfg.port) {
            Some(m) => r matches Err(e) && e@ == m,
            None => r is Ok,
        },
{
    match req.header("origin") {
        Some(origin) => {
            if !allowed_loopback_origin(origin, cfg.port) {
                return Err("invalid Origin for loopback trainer".to_string());
            }
        },
        None => {},
    }
    let content_type: &str = match req.header("content-type") {
        Some(t) => t,
        None => "",
    };
    proof {
        reveal_strlit("");
    }
    let pieces = split_char(&chars_of(content_type), ';');
    let media = trimmed_lower(&pieces[0]);
    if !same(&media, &chars_of("application/json")) {
        return Err("review mutations require application/json".to_string());
    }
    let token_ok = match req.header("x-chess-review-token") {
        Some(t) => same_text(t, cfg.review_token.as_str()),
        None => false,
    };
    if !token_ok {
        return Err("invalid review capability".to_string());
    }
    Ok(())
}

// --- position plumbing (always from the start position) ---

/// The moves of the query's line from the start position.
pub open spec fn free_moves(q: Seq<(String, String)>) -> Seq<Move> {
    replay(start_state(), line_tokens(q)).0
}

/// The error the query's line is refused with, if any.
pub open spec fn free_error(q: Seq<(String, String)>) -> Option<Seq<char>> {
    let toks = line_tokens(q);
    let (ms, ok) = replay(start_state(), toks);
    if ok {
        None
    } else {
        Some(illegal_text(toks[ms.len() as int], ms.len()))
    }
}

/// The game of the `moves` query (space or comma separated UCI) played from
/// the start position, with the UCI texts of its moves.
pub fn game_from_moves(req: &Request) -> (r: Result<(Game, Vec<String>), String>)
    requires
        replay_safe(start_state(), line_tokens(req.query@)),
    ensures
        match free_error(req.query@) {
            Some(m) => r matches Err(e) && e@ == m,
            None => r matches Ok(gu) && {
                let ms = free_moves(req.query@);
                &&& gu.0.wf()
                &&& gu.0@.moves == ms
                &&& gu.0@.positions == play(start_state(), ms)
                &&& texts(gu.1@) == ucis_of(ms)
            },
        },
{
    let mut game = Game::new();
    let moves: &str = match req.param("moves") {
        Some(t) => t,
        None => "",
    };
    proof {
        reveal_strlit("");
        game.lemma_view();
    }
    let toks = split_moves(moves);
    let ghost tk = texts(toks@);
    let ghost v = start_state();
    let (ucis, _sans, ok) = play_tokens(&mut game, &toks);
    let ghost ms = game@.moves;
    proof {
        lemma_replay_len(v, tk);
        assert(tk.len() == toks@.len());
        assert(texts(ucis@).len() == ucis@.len());
        assert(ucis_of(ms).len() == ms.len());
    }
    if !ok {
        let k = ucis.len();
        let mut m = String::new();
        push_str(&mut m, "illegal move '");
        push_str(&mut m, toks[k].as_str());
        push_str(&mut m, "' at ply ");
        push_u64(&mut m, k as u64);
        proof {
            assert(toks@[k as int]@ == tk[k as int]);
            assert(m@ == illegal_text(tk[ms.len() as int], ms.len()));
        }
        return Err(m);
    }
    Ok((game, ucis))
}

/// Answering the state query cannot fail on the way: its line can be
/// played, and every legal move of the final position keeps the
/// opponent's king.
pub open spec fn free_state_safe(q: Seq<(String, String)>) -> bool {
    &&& replay_safe(start_state(), line_tokens(q))
    &&& (free_error(q) is None ==> keeps_kings(play(start_state(), free_moves(q)).last()))
}

/// The trainer's state JSON for the moves `ms` from the start position,
/// where `lm` lists the legal moves of the final position.
pub open spec fn free_state_text(ms: Seq<Move>, lm: Seq<Move>) -> Seq<char> {
    let v = start_state();
    let cur = play(v, ms).last();
    let ucis = ucis_of(ms);
    let o = outcome_spec(cur, rep_count(GameView { positions: play(v, ms), moves: ms }) as int);
    "{\"moves\":"@ + jarr_text(quoted(ucis)) + ",\"ply\":"@ + decimal(ms.len()) + ",\"fen\":"@
        + jstr_text(fen_text(cur)) + ",\"side\":"@ + jstr_text(side_text(cur.side)) + ",\"check\":"@
        + bool_text(in_check_spec(cur)) + ",\"lastMove\":"@ + (if ms.len() > 0 {
        jstr_text(ucis.last())
    } else {
        "null"@
    }) + ",\"outcome\":"@ + outcome_text(o) + ",\"legal\":"@ + legal_text(cur, lm)
        + ",\"opening\":"@ + (match opening_name_spec(book_spec(), ucis) {
        Some(n) => jstr_text(n),
        None => "null"@,
    }) + ",\"inBook\":"@ + bool_text(find_line(book_spec(), ucis, 0) is Some) + "}"@
}

/// The state of the trainer's line: moves, ply, FEN, side to move, check,
/// last move, outcome, legal moves, and its place in the opening book.
pub fn handle_state(req: &Request) -> (r: Result<String, String>)
    requires
        free_state_safe(req.query@),
    ensures
        match free_error(req.query@) {
            Some(m) => r matches Err(e) && e@ == m,
            None => r matches Ok(j) && exists|lm: Seq<Move>|
                lists_legal(play(start_state(), free_moves(req.query@)).last(), lm) && j@
                    == free_state_text(free_moves(req.query@), lm),
        },
{
    let (game, ucis) = match game_from_moves(req) {
        Ok(gu) => gu,
        Err(e) => {
            return Err(e);
        },
    };
    let ghost ms = free_moves(req.query@);
    proof {
        game.lemma_view();
        lemma_play_len(start_state(), ms);
        assert(texts(ucis@).len() == ucis@.len());
    }
    let board = game.board();
    let legal = legal_json(board);
    let outcome = game.outcome();
    let opening = crate::book::opening_name(ucis.as_slice());
    let in_book = crate::book::book_reply(ucis.as_slice()).is_some();
    let mut out = String::new();
    push_str(&mut out, "{\"moves\":");
    push_str(&mut out, jarr_quoted(&ucis).as_str());
    push_str(&mut out, ",\"ply\":");
    push_u64(&mut out, ucis.len() as u64);
    push_str(&mut out, ",\"fen\":");
    push_str(&mut out, jstr(board.to_fen().as_str()).as_str());
    push_str(&mut out, ",\"side\":");
    push_str(&mut out, jstr(side_char(board.side_to_move())).as_str());
    push_str(&mut out, ",\"check\":");
    push_bool(&mut out, board.in_check());
    push_str(&mut out, ",\"lastMove\":");
    if ucis.len() > 0 {
        push_str(&mut out, jstr(ucis[ucis.len() - 1].as_str()).as_str());
    } else {
        push_str(&mut out, "null");
    }
    push_str(&mut out, ",\"outcome\":");
    push_str(&mut out, outcome_json(outcome).as_str());
    push_str(&mut out, ",\"legal\":");
    push_str(&mut out, legal.as_str());
    push_str(&mut out, ",\"opening\":");
    match opening {
        Some(n) => push_str(&mut out, jstr(n.as_str()).as_str()),
        None => push_str(&mut out, "null"),
    }
    push_str(&mut out, ",\"inBook\":");
    push_bool(&mut out, in_book);
    push_str(&mut out, "}");
    proof {
        let lm = choose|lm: Seq<Move>| lists_legal(board@, lm) && legal@ == legal_text(board@, lm);
        if ucis@.len() > 0 {
            assert(texts(ucis@)[ucis@.len() - 1] == ucis_of(ms).last());
        }
        assert(out@ == free_state_text(ms, lm));
    }
    Ok(out)
}

// --- grading helpers ---

/// The value of what `m` captures in `v` (0 for a quiet move or an empty
/// target square).
pub open spec fn captured_value(v: BoardState, m: Move) -> int {
    if is_capture_flag(mflag(m)) {
        match v.placement[mto(m)] {
            Some(p) => piece_val_spec(p.piece_type) as int,
            None => 0,
        }
    } else {
        0
    }
}

/// After `m`, the opponent can take back on its destination square.
pub open spec fn recapturable(v: BoardState, m: Move) -> bool {
    let w = make_view(v, m);
    exists|r: Move|
        #![trigger legal(w, r)]
        legal(w, r) && mto(r) == mto(m) && is_capture_flag(mflag(r)) && w.placement[mfrom(r)] is Some
}

/// A best move that invests material the engine still likes: the mover
/// still stands at 50 or better, a minor piece or more moves, the opponent
/// can take it on its destination, and the exchange loses at least two
/// points of material.
pub open spec fn brilliant_spec(v: BoardState, m: Move, value: int) -> bool {
    &&& value >= 50
    &&& v.placement[mfrom(m)] matches Some(p) && {
        let moved = piece_val_spec(p.piece_type) as int;
        moved >= 300 && recapturable(v, m) && captured_value(v, m) - moved <= -200
    }
}

/// A position after a legal move is playable when the move keeps the
/// opponent's king.
proof fn lemma_after_valid(before: Board, after: Board, m: Move)
    requires
        before.valid(),
        legal(before@, m),
        after.inv(),
        after@ == make_view(before@, m),
        has_king(make_view(before@, m), opposite(before@.side)),
    ensures
        after.valid(),
{
    let v = before@;
    before.lemma_state_wf_valid();
    lemma_king_survives(v, m);
    crate::game::lemma_unclocked_same(v, m);
    after.lemma_inv_wf();
    let w = make_view(unclocked(v), m);
    let k = choose|s: int| #[trigger] has_piece(w, s, v.side, PieceType::King);
    assert(has_piece(after@, k, v.side, PieceType::King));
}

/// Whether the played move is brilliant.
pub fn is_brilliant(before: &Board, played: Move, played_value_mover: i64) -> (r: bool)
    requires
        before.valid(),
        legal(before@, played),
        clocks_ok(before@),
        has_king(make_view(before@, played), opposite(before@.side)),
    ensures
        r == brilliant_spec(before@, played, played_value_mover as int),
{
    if played_value_mover < 50 {
        return false;
    }
    let moved = match before.piece_at(played.from()) {
        Some(p) => p,
        None => {
            return false;
        },
    };
    let v_moved = piece_val(moved.piece_type);
    if v_moved < 300 {
        return false;
    }
    let v_cap: i32 = if played.is_capture() {
        match before.piece_at(played.to()) {
            Some(p) => piece_val(p.piece_type),
            None => 0,
        }
    } else {
        0
    };
    let mut after = *before;
    proof {
        before.lemma_state_wf_valid();
        lemma_pseudo_applicable(before@, played);
    }
    after.make_move(played);
    proof {
        lemma_after_valid(*before, after, played);
    }
    let list = after.legal_moves();
    let to = played.to();
    let mut found = false;
    let mut i: usize = 0;
    while i < list.len()
        invariant
            i <= list@.len(),
            after.valid(),
            to.0 == mto(played),
            forall|m: Move| #[trigger] list@.contains(m) == legal(after@, m),
            found == exists|j: int|
                #![trigger list@[j]]
                0 <= j < i && mto(list@[j]) == mto(played) && is_capture_flag(mflag(list@[j]))
                    && after@.placement[mfrom(list@[j])] is Some,
        decreases list@.len() - i,
    {
        let m = list.get(i);
        if !found && m.to().0 == to.0 && m.is_capture() && after.piece_at(m.from()).is_some() {
            found = true;
        }
        i += 1;
    }
    proof {
        let w = make_view(before@, played);
        if found {
            let j = choose|j: int|
                #![trigger list@[j]]
                0 <= j < i && mto(list@[j]) == mto(played) && is_capture_flag(mflag(list@[j]))
                    && after@.placement[mfrom(list@[j])] is Some;
            assert(list@.contains(list@[j]));
            assert(legal(w, list@[j]));
        }
        if recapturable(before@, played) {
            let r = choose|r: Move|
                #![trigger legal(w, r)]
                legal(w, r) && mto(r) == mto(played) && is_capture_flag(mflag(r))
                    && w.placement[mfrom(r)] is Some;
            assert(list@.contains(r));
            let j = choose|j: int| 0 <= j < list@.len() && list@[j] == r;
            assert(0 <= j < i && mto(list@[j]) == mto(played));
        }
    }
    found && (v_cap - v_moved) <= -200
}

/// The grades a reason is given for.
pub open spec fn needs_reason(grade: Seq<char>) -> bool {
    grade == "inaccuracy"@ || grade == "mistake"@ || grade == "blunder"@
}

/// The opponent's punishing reply: the move the first token of the
/// refutation names in `v`, if any.
pub open spec fn punisher(v: BoardState, refute: Seq<Seq<char>>) -> Option<Move> {
    if refute.len() == 0 {
        None
    } else {
        uci_move(v, refute[0])
    }
}

/// A human reason a sub-par move is sub-par, framed as the opponent's
/// punishment `m` (SAN `san`) in the position `v` after the move.
pub open spec fn punishment_text(v: BoardState, m: Move, cp_loss: int) -> Seq<char> {
    let san = san_text(v, m);
    if is_capture_flag(mflag(m)) {
        if v.placement[mto(m)] matches Some(p) && piece_val_spec(p.piece_type) >= 100 {
            "Allows "@ + san + " \u{2014} winning your "@ + piece_name_spec(
                v.placement[mto(m)]->Some_0.piece_type,
            ) + " on "@ + square_text(mto(m)) + "."@
        } else {
            "Allows "@ + san + ", winning material."@
        }
    } else if in_check_spec(make_view(v, m)) {
        "Allows "@ + san + " \u{2014} your king gets exposed."@
    } else if cp_loss > 300 {
        "Lets the opponent in with "@ + san + " \u{2014} a near-winning initiative."@
    } else {
        "Passive \u{2014} "@ + san + " gives the opponent an easy, comfortable game."@
    }
}

/// The reason given for a grade: none for the good grades, a general
/// complaint when the refutation names no move, else the punishment.
pub open spec fn reason_text(v: BoardState, refute: Seq<Seq<char>>, grade: Seq<char>, cp_loss: int) -> Seq<
    char,
> {
    if !needs_reason(grade) {
        Seq::empty()
    } else {
        match punisher(v, refute) {
            None => "It quietly worsens your position."@,
            Some(m) => punishment_text(v, m, cp_loss),
        }
    }
}

/// Explaining the grade cannot fail: the refutation's first token can be
/// cut where its squares end, and a move it names can be played and keeps
/// the opponent's king.
pub open spec fn reason_safe(v: BoardState, refute: Seq<Seq<char>>, grade: Seq<char>) -> bool {
    needs_reason(grade) && refute.len() > 0 ==> {
        &&& uci_slices_ok(refute[0])
        &&& (punisher(v, refute) matches Some(m) ==> clocks_ok(v) && has_king(
            make_view(v, m),
            opposite(v.side),
        ))
    }
}

/// A human reason a sub-par move is sub-par, framed as the opponent's
/// punishment (so it teaches the lesson without revealing the move the
/// trainee should have found). `after` is the position after the played
/// move; `refute` is the engine's best line from there (UCI), opponent to
/// move.
pub fn build_reason(after: &Board, refute: &[String], grade: &str, cp_loss: i64) -> (r: String)
    requires
        after.valid(),
        reason_safe(after@, texts(refute@), grade@),
    ensures
        r@ == reason_text(after@, texts(refute@), grade@, cp_loss as int),
{
    if !(same_text(grade, "inaccuracy") || same_text(grade, "mistake") || same_text(
        grade,
        "blunder",
    )) {
        return String::new();
    }
    let ghost v = after@;
    let ghost rt = texts(refute@);
    let first = if refute.len() > 0 {
        assert(rt[0] == refute@[0]@);
        after.parse_uci(refute[0].as_str())
    } else {
        None
    };
    let first = match first {
        Some(m) => m,
        None => {
            proof {
                if rt.len() > 0 && uci_move(v, rt[0]) is Some {
                    let m = choose|m: Move| legal(v, m) && names_move(rt[0], m);
                    assert(legal(v, m) && names_move(rt[0], m));
                }
            }
            return "It quietly worsens your position.".to_string();
        },
    };
    proof {
        lemma_uci_move(v, rt[0], first);
        crate::state::lemma_king_unclocked(v, first);
    }
    let san = after.san(first);
    let fuci = chars_of(first.to_uci().as_str());
    let dest = string_of(&vec![fuci[2], fuci[3]]);
    proof {
        assert(dest@ == square_text(mto(first)));
    }
    let victim = after.piece_at(first.to());
    let mut nb = *after;
    proof {
        after.lemma_state_wf_valid();
        lemma_pseudo_applicable(v, first);
    }
    nb.make_move(first);
    proof {
        lemma_after_valid(*after, nb, first);
    }
    let gives_check = nb.in_check();
    let mut out = String::new();
    if first.is_capture() {
        match victim {
            Some(p) => {
                if piece_val(p.piece_type) >= 100 {
                    push_str(&mut out, "Allows ");
                    push_str(&mut out, san.as_str());
                    push_str(&mut out, " \u{2014} winning your ");
                    push_str(&mut out, piece_name(p.piece_type));
                    push_str(&mut out, " on ");
                    push_str(&mut out, dest.as_str());
                    push_str(&mut out, ".");
                } else {
                    push_str(&mut out, "Allows ");
                    push_str(&mut out, san.as_str());
                    push_str(&mut out, ", winning material.");
                }
            },
            None => {
                push_str(&mut out, "Allows ");
                push_str(&mut out, san.as_str());
                push_str(&mut out, ", winning material.");
            },
        }
    } else if gives_check {
        push_str(&mut out, "Allows ");
        push_str(&mut out, san.as_str());
        push_str(&mut out, " \u{2014} your king gets exposed.");
    } else if cp_loss > 300 {
        push_str(&mut out, "Lets the opponent in with ");
        push_str(&mut out, san.as_str());
        push_str(&mut out, " \u{2014} a near-winning initiative.");
    } else {
        push_str(&mut out, "Passive \u{2014} ");
        push_str(&mut out, san.as_str());
        push_str(&mut out, " gives the opponent an easy, comfortable game.");
    }
    out
}

// --- grading ---

/// The engine's verdict on a played move.
pub struct Grade {
    pub grade: &'static str,
    pub cp_loss: i64,
    pub matched: bool,
    pub played_cp: Option<i32>,
    pub played_mate: Option<i32>,
    /// The engine's best line from the position after the played move (UCI,
    /// opponent to move): the refutation, used only to explain the mistake.
    pub refute: Vec<String>,
}

/// The grade of a move that lost `cp_loss` centipawns against the best.
pub open spec fn grade_word(matched: bool, cp_loss: int) -> Seq<char> {
    if matched || cp_loss <= 8 {
        "best"@
    } else if cp_loss <= 25 {
        "excellent"@
    } else if cp_loss <= 50 {
        "great"@
    } else if cp_loss <= 90 {
        "good"@
    } else if cp_loss <= 150 {
        "inaccuracy"@
    } else if cp_loss <= 300 {
        "mistake"@
    } else {
        "blunder"@
    }
}

/// The centipawn loss of a move: how far its value falls short of the best,
/// between 0 and 100 000.
pub open spec fn cp_loss_spec(best_value: int, played_value: int) -> int {
    let d = best_value - played_value;
    if d < 0 {
        0
    } else if d > 100_000 {
        100_000
    } else {
        d
    }
}

/// The grade of the played move: brilliant when it is the engine's choice
/// and a sound investment, else by its centipawn loss.
pub open spec fn final_grade(
    v: BoardState,
    played: Move,
    matched: bool,
    best_value: int,
    played_value: int,
) -> Seq<char> {
    if matched && brilliant_spec(v, played, played_value) {
        "brilliant"@
    } else {
        grade_word(matched, cp_loss_spec(best_value, played_value))
    }
}

/// A value on the score scale.
pub open spec fn score_range(x: int) -> bool {
    -0x1_0000_0000 < x < 0x1_0000_0000
}

/// What the grading of a move needs of the position: it is playable, the
/// move is legal, can be played, and keeps the opponent's king.
pub open spec fn grading_ok(v: BoardState, played: Move) -> bool {
    &&& legal(v, played)
    &&& clocks_ok(v)
    &&& has_king(make_view(v, played), opposite(v.side))
}

/// Finish a grade from the best value and the played move's line.
fn finish_grade(
    board: &Board,
    played: Move,
    matched: bool,
    best_value: i64,
    played_cp: Option<i32>,
    played_mate: Option<i32>,
    played_value: i64,
    refute: Vec<String>,
) -> (r: Grade)
    requires
        board.valid(),
        grading_ok(board@, played),
        score_range(best_value as int),
        score_range(played_value as int),
    ensures
        r.grade@ == final_grade(board@, played, matched, best_value as int, played_value as int),
        r.cp_loss == cp_loss_spec(best_value as int, played_value as int),
        r.matched == matched,
        r.played_cp == played_cp,
        r.played_mate == played_mate,
        r.refute@ == refute@,
{
    let d = best_value - played_value;
    let cp_loss = if d < 0 {
        0
    } else if d > 100_000 {
        100_000
    } else {
        d
    };
    let word: &'static str = if matched || cp_loss <= 8 {
        "best"
    } else if cp_loss <= 25 {
        "excellent"
    } else if cp_loss <= 50 {
        "great"
    } else if cp_loss <= 90 {
        "good"
    } else if cp_loss <= 150 {
        "inaccuracy"
    } else if cp_loss <= 300 {
        "mistake"
    } else {
        "blunder"
    };
    let grade: &'static str = if matched && is_brilliant(board, played, played_value) {
        "brilliant"
    } else {
        word
    };
    Grade { grade, cp_loss, matched, played_cp, played_mate, refute }
}

/// The UCI text of the legal move the first token of a principal variation
/// names, or the empty text.
pub open spec fn pv_move_text(v: BoardState, pv: Seq<Seq<char>>) -> Seq<char> {
    if pv.len() > 0 && uci_move(v, pv[0]) is Some {
        uci_text(uci_move(v, pv[0])->Some_0)
    } else {
        Seq::empty()
    }
}

/// The first token of every principal variation can be cut where its
/// squares end.
pub open spec fn pvs_ok(infos: Seq<UciInfo>) -> bool {
    forall|i: int|
        0 <= i < infos.len() && #[trigger] infos[i].pv@.len() > 0 ==> uci_slices_ok(
            infos[i].pv@[0]@,
        )
}

/// The UCI text of the move a principal variation starts with.
fn pv_move(board: &Board, pv: &Vec<String>) -> (r: String)
    requires
        board.valid(),
        pv@.len() > 0 ==> uci_slices_ok(pv@[0]@),
    ensures
        r@ == pv_move_text(board@, texts(pv@)),
{
    if pv.len() == 0 {
        return String::new();
    }
    proof {
        assert(texts(pv@)[0] == pv@[0]@);
    }
    match board.parse_uci(pv[0].as_str()) {
        Some(m) => {
            proof {
                lemma_uci_move(board@, pv@[0]@, m);
            }
            m.to_uci()
        },
        None => {
            proof {
                if uci_move(board@, pv@[0]@) is Some {
                    let m = choose|m: Move| legal(board@, m) && names_move(pv@[0]@, m);
                    assert(legal(board@, m) && names_move(pv@[0]@, m));
                }
            }
            String::new()
        },
    }
}

/// The index of the first info at or after `k` whose line starts with the
/// move `t`.
pub open spec fn line_of(v: BoardState, infos: Seq<UciInfo>, t: Seq<char>, k: int) -> Option<int>
    decreases infos.len() - k,
{
    if k < 0 || k >= infos.len() {
        None
    } else if pv_move_text(v, texts(infos[k].pv@)) == t {
        Some(k)
    } else {
        line_of(v, infos, t, k + 1)
    }
}

/// The index of the first info at or after `k` of the given multipv rank.
pub open spec fn rank_of(infos: Seq<UciInfo>, rank: usize, k: int) -> Option<int>
    decreases infos.len() - k,
{
    if k < 0 || k >= infos.len() {
        None
    } else if infos[k].multipv == rank {
        Some(k)
    } else {
        rank_of(infos, rank, k + 1)
    }
}

/// The next step of grading after the search of the position the move was
/// played from.
pub enum GradeStep {
    /// The move was among the engine's lines: its grade.
    Graded(Grade),
    /// The move must be searched on its own; its value is then compared
    /// with the best value.
    SearchChild { best_value: i64, matched: bool },
}

/// The best value of the first search: the score of its first line.
pub open spec fn best_value_spec(infos: Seq<UciInfo>) -> int {
    let b = infos[rank_of(infos, 1, 0)->Some_0];
    score_spec(b.cp, b.mate)
}

/// Whether the played move is the engine's first choice.
pub open spec fn matched_spec(v: BoardState, played: Move, infos: Seq<UciInfo>) -> bool {
    let b = infos[rank_of(infos, 1, 0)->Some_0];
    uci_text(played) == pv_move_text(v, texts(b.pv@))
}

/// Grade a move from the engine's lines (by multipv rank, in rank order) of
/// the position it was played from: an error when there is no first line;
/// the grade when the move starts one of the lines (its value is that
/// line's, its refutation the rest of the line); else the values the
/// search of the move's own position is compared with.
pub fn grade_first(board: &Board, played: Move, infos: &[UciInfo]) -> (r: Result<GradeStep, String>)
    requires
        board.valid(),
        grading_ok(board@, played),
        pvs_ok(infos@),
    ensures
        rank_of(infos@, 1, 0) is None ==> (r matches Err(e) && e@ == "engine returned no analysis"@),
        rank_of(infos@, 1, 0) is Some ==> {
            let best_value = best_value_spec(infos@);
            let matched = matched_spec(board@, played, infos@);
            match line_of(board@, infos@, uci_text(played), 0) {
                Some(k) => {
                    let info = infos@[k];
                    let pv = value_of(info.cp, info.mate);
                    r matches Ok(GradeStep::Graded(g)) && g.grade@ == final_grade(
                        board@,
                        played,
                        matched,
                        best_value,
                        pv,
                    ) && g.cp_loss == cp_loss_spec(best_value, pv) && g.matched == matched
                        && g.played_cp == info.cp && g.played_mate == info.mate && texts(g.refute@)
                        == texts(info.pv@).drop_first()
                },
                None => r matches Ok(GradeStep::SearchChild { best_value: b, matched: m }) && b
                    == best_value && m == matched,
            }
        },
{
    let mut bi: usize = 0;
    while bi < infos.len() && infos[bi].multipv != 1
        invariant
            bi <= infos@.len(),
            rank_of(infos@, 1, 0) == rank_of(infos@, 1, bi as int),
        decreases infos@.len() - bi,
    {
        bi += 1;
    }
    if bi == infos.len() {
        return Err("engine returned no analysis".to_string());
    }
    let best = &infos[bi];
    proof {
        assert(infos@[bi as int].pv@.len() > 0 ==> uci_slices_ok(infos@[bi as int].pv@[0]@));
    }
    let best_uci = pv_move(board, &best.pv);
    let best_value = score_value(best.cp, best.mate);
    let played_uci = played.to_uci();
    let matched = same_text(played_uci.as_str(), best_uci.as_str());
    proof {
        assert(rank_of(infos@, 1, 0) == Some(bi as int));
    }
    let mut k: usize = 0;
    while k < infos.len()
        invariant
            k <= infos@.len(),
            board.valid(),
            grading_ok(board@, played),
            pvs_ok(infos@),
            rank_of(infos@, 1, 0) is Some,
            best_value == best_value_spec(infos@),
            matched == matched_spec(board@, played, infos@),
            score_range(best_value as int),
            played_uci@ == uci_text(played),
            line_of(board@, infos@, uci_text(played), 0) == line_of(
                board@,
                infos@,
                uci_text(played),
                k as int,
            ),
        decreases infos@.len() - k,
    {
        proof {
            assert(infos@[k as int].pv@.len() > 0 ==> uci_slices_ok(infos@[k as int].pv@[0]@));
        }
        let t = pv_move(board, &infos[k].pv);
        if same_text(t.as_str(), played_uci.as_str()) {
            let info = &infos[k];
            let value = score_value(info.cp, info.mate);
            let mut refute: Vec<String> = Vec::new();
            let mut j: usize = 1;
            while j < info.pv.len()
                invariant
                    1 <= j <= info.pv@.len(),
                    texts(refute@) == texts(info.pv@).subrange(1, j as int),
                decreases info.pv@.len() - j,
            {
                let ghost before = refute@;
                let s = info.pv[j].clone();
                refute.push(s);
                j += 1;
                proof {
                    assert(texts(refute@) =~= texts(before).push(info.pv@[j - 1]@));
                    assert(texts(refute@) =~= texts(info.pv@).subrange(1, j as int));
                }
            }
            proof {
                if info.pv@.len() == 0 {
                    assert(texts(info.pv@).drop_first() =~= Seq::<Seq<char>>::empty());
                }
                assert(texts(info.pv@).subrange(1, info.pv@.len() as int) =~= texts(
                    info.pv@,
                ).drop_first());
            }
            let g = finish_grade(
                board,
                played,
                matched,
                best_value,
                info.cp,
                info.mate,
                value,
                refute,
            );
            return Ok(GradeStep::Graded(g));
        }
        k += 1;
    }
    Ok(GradeStep::SearchChild { best_value, matched })
}

/// A score's value on the scale, from the mover's side.
pub open spec fn value_of(cp: Option<i32>, mate: Option<i32>) -> int {
    score_spec(cp, mate)
}

/// Grade a move from the search of its own position (the opponent's point
/// of view, negated to the mover's): the last first-line info, if any; with
/// none (the move ended the game) its value is the best value and there is
/// no refutation.
pub fn grade_child(board: &Board, played: Move, best_value: i64, matched: bool, last: Option<UciInfo>) -> (r: Grade)
    requires
        board.valid(),
        grading_ok(board@, played),
        score_range(best_value as int),
        last matches Some(i) ==> i.cp != Some(i32::MIN) && i.mate != Some(i32::MIN),
    ensures
        ({
            let pv: int = match last {
                Some(i) => -score_spec(i.cp, i.mate),
                None => best_value as int,
            };
            &&& r.grade@ == final_grade(board@, played, matched, best_value as int, pv)
            &&& r.cp_loss == cp_loss_spec(best_value as int, pv)
            &&& r.matched == matched
            &&& r.played_cp == match last {
                Some(i) => negated(i.cp),
                None => None,
            }
            &&& r.played_mate == match last {
                Some(i) => negated(i.mate),
                None => None,
            }
            &&& texts(r.refute@) == match last {
                Some(i) => texts(i.pv@),
                None => Seq::empty(),
            }
        }),
{
    match last {
        Some(i) => {
            let cp = match i.cp {
                Some(c) => Some(-c),
                None => None,
            };
            let mate = match i.mate {
                Some(m) => Some(-m),
                None => None,
            };
            let value = -score_value(i.cp, i.mate);
            finish_grade(board, played, matched, best_value, cp, mate, value, i.pv)
        },
        None => {
            let g = finish_grade(board, played, matched, best_value, None, None, best_value, Vec::new());
            assert(texts(g.refute@) =~= Seq::<Seq<char>>::empty());
            g
        },
    }
}

} // verus!
