//! Position plumbing shared by the web front ends: the `moves` query as a
//! list of UCI tokens, replaying it from a start position, and the JSON
//! pieces that describe a position (side, outcome, legal moves).
use crate::book::texts;
use crate::board::{Board, BoardState, has_king, has_piece, make_view};
use crate::game::{DrawReason, Game, Outcome, clocks_ok, keeps_kings};
use crate::fen::decimal;
use crate::http::{jarr, jarr_text, jstr, jstr_text, push_str};
use crate::movegen::{legal, lemma_pseudo_unique, unclocked};
use crate::moves::Move;
use crate::san::{normalize, san_base, san_text};
use crate::types::{Color, PieceType, opposite};
use crate::uci::{uci_names, uci_request, uci_slices_ok, uci_text};
use vstd::prelude::*;

verus! {

/// A separator of the `moves` query: a space or a comma.
pub open spec fn is_move_sep(c: char) -> bool {
    c == ' ' || c == ','
}

/// Left-to-right scan behind [`move_tokens`]: the tokens completed so far
/// and the one in progress.
pub open spec fn token_scan(cs: Seq<char>) -> (Seq<Seq<char>>, Seq<char>)
    decreases cs.len(),
{
    if cs.len() == 0 {
        (Seq::empty(), Seq::empty())
    } else {
        let (f, cur) = token_scan(cs.drop_last());
        let c = cs.last();
        if is_move_sep(c) {
            if cur.len() > 0 {
                (f.push(cur), Seq::empty())
            } else {
                (f, cur)
            }
        } else {
            (f, cur.push(c))
        }
    }
}

/// The non-empty pieces of `cs` between spaces and commas, in order.
pub open spec fn move_tokens(cs: Seq<char>) -> Seq<Seq<char>> {
    let (f, cur) = token_scan(cs);
    if cur.len() > 0 {
        f.push(cur)
    } else {
        f
    }
}

/// Split a `moves` query into its tokens.
pub fn split_moves(s: &str) -> (r: Vec<String>)
    ensures
        texts(r@) == move_tokens(s@),
{
    let cs = crate::text::chars_of(s);
    let mut out: Vec<String> = Vec::new();
    let mut cur = String::new();
    let mut i: usize = 0;
    while i < cs.len()
        invariant
            i <= cs@.len(),
            cs@ == s@,
            texts(out@) == token_scan(cs@.take(i as int)).0,
            cur@ == token_scan(cs@.take(i as int)).1,
        decreases cs.len() - i,
    {
        let c = cs[i];
        proof {
            assert(cs@.take(i + 1).drop_last() =~= cs@.take(i as int));
        }
        if c == ' ' || c == ',' {
            if !cur.as_str().is_empty() {
                let ghost before = out@;
                let w = cur;
                out.push(w);
                cur = String::new();
                assert(texts(out@) =~= texts(before).push(w@));
            }
        } else {
            cur.push(c);
        }
        i += 1;
    }
    proof {
        assert(cs@.take(cs@.len() as int) =~= cs@);
    }
    if !cur.as_str().is_empty() {
        let ghost before = out@;
        let w = cur;
        out.push(w);
        assert(texts(out@) =~= texts(before).push(w@));
    }
    out
}

/// `t` is the UCI text of `m`.
pub open spec fn names_move(t: Seq<char>, m: Move) -> bool {
    uci_request(t) matches Some(q) && uci_names(m, q)
}

/// The legal move of `v` that the UCI text `t` names, if any.
pub open spec fn uci_move(v: BoardState, t: Seq<char>) -> Option<Move> {
    if exists|m: Move| legal(v, m) && names_move(t, m) {
        Some(choose|m: Move| legal(v, m) && names_move(t, m))
    } else {
        None
    }
}

/// A legal move named by `t` is the move `uci_move` picks.
pub proof fn lemma_uci_move(v: BoardState, t: Seq<char>, m: Move)
    requires
        legal(v, m),
        names_move(t, m),
    ensures
        uci_move(v, t) == Some(m),
{
    let c = choose|x: Move| legal(v, x) && names_move(t, x);
    lemma_pseudo_unique(v, c, m);
}

/// The positions a game passes through: `v`, then the result of each move.
pub open spec fn play(v: BoardState, ms: Seq<Move>) -> Seq<BoardState>
    decreases ms.len(),
{
    if ms.len() == 0 {
        seq![v]
    } else {
        let p = play(v, ms.drop_last());
        p.push(make_view(p.last(), ms.last()))
    }
}

/// Replaying UCI tokens from `v`: the moves played, and whether every token
/// named a legal move (replay stops at the first that does not).
pub open spec fn replay(v: BoardState, toks: Seq<Seq<char>>) -> (Seq<Move>, bool)
    decreases toks.len(),
{
    if toks.len() == 0 {
        (Seq::empty(), true)
    } else {
        let (ms, ok) = replay(v, toks.drop_last());
        if !ok {
            (ms, false)
        } else {
            match uci_move(play(v, ms).last(), toks.last()) {
                Some(m) => (ms.push(m), true),
                None => (ms, false),
            }
        }
    }
}

/// `play` has one more position than moves.
pub proof fn lemma_play_len(v: BoardState, ms: Seq<Move>)
    ensures
        play(v, ms).len() == ms.len() + 1,
        play(v, ms)[0] == v,
    decreases ms.len(),
{
    if ms.len() > 0 {
        lemma_play_len(v, ms.drop_last());
    }
}

/// The positions of a prefix of the moves are a prefix of the positions.
pub proof fn lemma_play_prefix(v: BoardState, ms: Seq<Move>, k: int)
    requires
        0 <= k <= ms.len(),
    ensures
        play(v, ms.take(k)) == play(v, ms).take(k + 1),
    decreases ms.len(),
{
    lemma_play_len(v, ms);
    if k < ms.len() {
        assert(ms.drop_last().take(k) =~= ms.take(k));
        lemma_play_prefix(v, ms.drop_last(), k);
        lemma_play_len(v, ms.drop_last());
        assert(play(v, ms).take(k + 1) =~= play(v, ms.drop_last()).take(k + 1));
    } else {
        assert(ms.take(k) =~= ms);
        assert(play(v, ms).take(k + 1) =~= play(v, ms));
    }
}

/// Once a token fails, the tokens after it do not change the replay.
pub proof fn lemma_replay_stuck(v: BoardState, toks: Seq<Seq<char>>, j: int)
    requires
        0 <= j <= toks.len(),
        !replay(v, toks.take(j)).1,
    ensures
        replay(v, toks) == replay(v, toks.take(j)),
    decreases toks.len() - j,
{
    if j < toks.len() {
        assert(toks.take(j + 1).drop_last() =~= toks.take(j));
        lemma_replay_stuck(v, toks, j + 1);
    } else {
        assert(toks.take(j) =~= toks);
    }
}

/// A replay that succeeds plays one move per token.
pub proof fn lemma_replay_len(v: BoardState, toks: Seq<Seq<char>>)
    ensures
        replay(v, toks).1 ==> replay(v, toks).0.len() == toks.len(),
        replay(v, toks).0.len() <= toks.len(),
        !replay(v, toks).1 ==> replay(v, toks).0.len() < toks.len(),
    decreases toks.len(),
{
    if toks.len() > 0 {
        lemma_replay_len(v, toks.drop_last());
    }
}

/// The position reached after the moves named by the first `k` tokens.
pub open spec fn position_before(v: BoardState, toks: Seq<Seq<char>>, k: int) -> BoardState {
    play(v, replay(v, toks.take(k)).0).last()
}

/// Replaying `toks` from `v` cannot fail on the way: every token reached can
/// be cut where its squares end, and where it names a legal move, the
/// clocks can advance and the move keeps the opponent's king on the board.
pub open spec fn replay_safe(v: BoardState, toks: Seq<Seq<char>>) -> bool {
    forall|k: int|
        0 <= k < toks.len() && #[trigger] replay(v, toks.take(k)).1 ==> {
            &&& uci_slices_ok(toks[k])
            &&& (uci_move(position_before(v, toks, k), toks[k]) is Some ==> clocks_ok(
                position_before(v, toks, k),
            ) && keeps_kings(position_before(v, toks, k)))
        }
}

/// The side letter of the FEN.
pub open spec fn side_text(c: Color) -> Seq<char> {
    if c == Color::White {
        "w"@
    } else {
        "b"@
    }
}

/// `"w"` for White, `"b"` for Black.
pub fn side_char(c: Color) -> (r: &'static str)
    ensures
        r@ == side_text(c),
{
    match c {
        Color::White => "w",
        Color::Black => "b",
    }
}

/// The words a draw reason is reported with.
pub open spec fn reason_text(r: DrawReason) -> Seq<char> {
    match r {
        DrawReason::FiftyMove => "fifty-move rule"@,
        DrawReason::SeventyFiveMove => "seventy-five-move rule"@,
        DrawReason::ThreefoldRepetition => "threefold repetition"@,
        DrawReason::FivefoldRepetition => "fivefold repetition"@,
        DrawReason::InsufficientMaterial => "insufficient material"@,
    }
}

/// The JSON object describing an outcome: its status, winner and reason.
pub open spec fn outcome_text(o: Outcome) -> Seq<char> {
    let (status, winner, reason): (Seq<char>, Option<Seq<char>>, Option<Seq<char>>) = match o {
        Outcome::Ongoing => ("ongoing"@, None, None),
        Outcome::Checkmate { winner } => ("checkmate"@, Some(side_text(winner)), None),
        Outcome::Stalemate => ("draw"@, None, Some("stalemate"@)),
        Outcome::Draw(r) => ("draw"@, None, Some(reason_text(r))),
    };
    "{\"status\":"@ + jstr_text(status) + ",\"winner\":"@ + match winner {
        Some(w) => jstr_text(w),
        None => "null"@,
    } + ",\"reason\":"@ + match reason {
        Some(t) => jstr_text(t),
        None => "null"@,
    } + "}"@
}

/// The JSON object describing an outcome.
pub fn outcome_json(o: Outcome) -> (r: String)
    ensures
        r@ == outcome_text(o),
{
    let (status, winner, reason): (&str, Option<&str>, Option<&str>) = match o {
        Outcome::Ongoing => ("ongoing", None, None),
        Outcome::Checkmate { winner } => ("checkmate", Some(side_char(winner)), None),
        Outcome::Stalemate => ("draw", None, Some("stalemate")),
        Outcome::Draw(r) => (
            "draw",
            None,
            Some(
                match r {
                    DrawReason::FiftyMove => "fifty-move rule",
                    DrawReason::SeventyFiveMove => "seventy-five-move rule",
                    DrawReason::ThreefoldRepetition => "threefold repetition",
                    DrawReason::FivefoldRepetition => "fivefold repetition",
                    DrawReason::InsufficientMaterial => "insufficient material",
                },
            ),
        ),
    };
    let mut out = String::new();
    push_str(&mut out, "{\"status\":");
    push_str(&mut out, jstr(status).as_str());
    push_str(&mut out, ",\"winner\":");
    match winner {
        Some(w) => push_str(&mut out, jstr(w).as_str()),
        None => push_str(&mut out, "null"),
    }
    push_str(&mut out, ",\"reason\":");
    match reason {
        Some(t) => push_str(&mut out, jstr(t).as_str()),
        None => push_str(&mut out, "null"),
    }
    push_str(&mut out, "}");
    out
}

/// A move that keeps the opponent's king keeps it with the clocks reset.
pub proof fn lemma_king_unclocked(v: BoardState, m: Move)
    requires
        has_king(make_view(v, m), opposite(v.side)),
    ensures
        has_king(make_view(unclocked(v), m), opposite(v.side)),
{
    crate::game::lemma_unclocked_same(v, m);
    let s = choose|s: int| #[trigger] has_piece(make_view(v, m), s, opposite(v.side), PieceType::King);
    assert(has_piece(make_view(unclocked(v), m), s, opposite(v.side), PieceType::King));
}

/// The JSON object of one legal move of `v`: its UCI and SAN texts.
pub open spec fn legal_item(v: BoardState, m: Move) -> Seq<char> {
    "{\"uci\":"@ + jstr_text(uci_text(m)) + ",\"san\":"@ + jstr_text(san_text(v, m)) + "}"@
}

/// The JSON array of the moves `ms` of `v`.
pub open spec fn legal_text(v: BoardState, ms: Seq<Move>) -> Seq<char> {
    jarr_text(ms.map_values(|m: Move| legal_item(v, m)))
}

/// `ms` lists the legal moves of `v`.
pub open spec fn lists_legal(v: BoardState, ms: Seq<Move>) -> bool {
    forall|m: Move| #[trigger] ms.contains(m) == legal(v, m)
}

/// The JSON array of the legal moves of a position, in generation order.
pub fn legal_json(board: &Board) -> (r: String)
    requires
        board.valid(),
        keeps_kings(board@),
    ensures
        exists|ms: Seq<Move>| lists_legal(board@, ms) && r@ == legal_text(board@, ms),
{
    let list = board.legal_moves();
    let mut items: Vec<String> = Vec::new();
    let mut i: usize = 0;
    while i < list.len()
        invariant
            i <= list@.len(),
            board.valid(),
            keeps_kings(board@),
            forall|m: Move| #[trigger] list@.contains(m) == legal(board@, m),
            texts(items@) == list@.take(i as int).map_values(|m: Move| legal_item(board@, m)),
        decreases list@.len() - i,
    {
        let mv = list.get(i);
        assert(list@.contains(mv));
        proof {
            lemma_king_unclocked(board@, mv);
        }
        let mut item = String::new();
        push_str(&mut item, "{\"uci\":");
        push_str(&mut item, jstr(mv.to_uci().as_str()).as_str());
        push_str(&mut item, ",\"san\":");
        push_str(&mut item, jstr(board.san(mv).as_str()).as_str());
        push_str(&mut item, "}");
        let ghost before = items@;
        let ghost it = item@;
        items.push(item);
        i += 1;
        proof {
            assert(list@.take(i as int) =~= list@.take(i - 1).push(mv));
            assert(texts(items@) =~= texts(before).push(it));
            assert(texts(items@) =~= list@.take(i as int).map_values(
                |m: Move| legal_item(board@, m),
            ));
        }
    }
    let r = jarr(items.as_slice());
    proof {
        assert(list@.take(list@.len() as int) =~= list@);
        assert(items@.map_values(|s: String| s@) == texts(items@));
        assert(lists_legal(board@, list@));
        assert(r@ == legal_text(board@, list@));
    }
    r
}

/// JSON string literals of texts.
pub open spec fn quoted(ts: Seq<Seq<char>>) -> Seq<Seq<char>> {
    ts.map_values(|t: Seq<char>| jstr_text(t))
}

/// The JSON string literal of each string.
pub fn quote_all(v: &Vec<String>) -> (r: Vec<String>)
    ensures
        texts(r@) == quoted(texts(v@)),
{
    let mut out: Vec<String> = Vec::new();
    let mut i: usize = 0;
    while i < v.len()
        invariant
            i <= v@.len(),
            texts(out@) == quoted(texts(v@.take(i as int))),
        decreases v@.len() - i,
    {
        let ghost before = out@;
        let q = jstr(v[i].as_str());
        let ghost qt = q@;
        out.push(q);
        i += 1;
        proof {
            assert(v@.take(i as int) =~= v@.take(i - 1).push(v@[i - 1]));
            assert(texts(out@) =~= texts(before).push(qt));
            assert(texts(out@) =~= quoted(texts(v@.take(i as int))));
        }
    }
    assert(v@.take(v@.len() as int) =~= v@);
    out
}

/// The JSON array of the JSON string literals of some strings.
pub fn jarr_quoted(v: &Vec<String>) -> (r: String)
    ensures
        r@ == jarr_text(quoted(texts(v@))),
{
    let items = quote_all(v);
    assert(items@.map_values(|s: String| s@) == texts(items@));
    jarr(items.as_slice())
}

/// JSON's `true` or `false`.
pub open spec fn bool_text(b: bool) -> Seq<char> {
    if b {
        "true"@
    } else {
        "false"@
    }
}

/// Append JSON's `true` or `false`.
pub fn push_bool(s: &mut String, b: bool)
    ensures
        final(s)@ == old(s)@ + bool_text(b),
{
    if b {
        push_str(s, "true");
    } else {
        push_str(s, "false");
    }
}

/// The complaint about a token that names no legal move at ply `k`.
pub open spec fn illegal_text(tok: Seq<char>, k: nat) -> Seq<char> {
    "illegal move '"@ + tok + "' at ply "@ + decimal(k)
}

/// The UCI texts of moves.
pub open spec fn ucis_of(ms: Seq<Move>) -> Seq<Seq<char>> {
    ms.map_values(|m: Move| uci_text(m))
}

/// The SAN texts of the moves played from `v`.
pub open spec fn sans_of(v: BoardState, ms: Seq<Move>) -> Seq<Seq<char>> {
    Seq::new(ms.len(), |i: int| san_text(play(v, ms)[i], ms[i]))
}

/// Play the moves the tokens name on a game that has none yet, stopping at
/// the first token that names no legal move. Gives the UCI and SAN texts of
/// the moves played and whether every token was played.
pub fn play_tokens(game: &mut Game, toks: &Vec<String>) -> (r: (Vec<String>, Vec<String>, bool))
    requires
        old(game).wf(),
        old(game)@.moves.len() == 0,
        replay_safe(old(game).current(), texts(toks@)),
    ensures
        ({
            let v = old(game).current();
            let (ms, ok) = replay(v, texts(toks@));
            &&& final(game).wf()
            &&& final(game)@.moves == ms
            &&& final(game)@.positions == play(v, ms)
            &&& texts(r.0@) == ucis_of(ms)
            &&& texts(r.1@) == sans_of(v, ms)
            &&& r.2 == ok
        }),
{
    let ghost v = game.current();
    let ghost tk = texts(toks@);
    let mut ucis: Vec<String> = Vec::new();
    let mut sans: Vec<String> = Vec::new();
    let mut k: usize = 0;
    proof {
        game.lemma_view();
        assert(tk.take(0) =~= Seq::<Seq<char>>::empty());
        assert(game@.positions =~= play(v, game@.moves));
        assert(texts(ucis@) =~= ucis_of(game@.moves));
        assert(texts(sans@) =~= sans_of(v, game@.moves));
    }
    while k < toks.len()
        invariant
            k <= toks@.len(),
            tk == texts(toks@),
            v == old(game).current(),
            replay_safe(v, tk),
            replay(v, tk.take(k as int)) == (game@.moves, true),
            game.wf(),
            game@.moves.len() == k,
            game@.positions == play(v, game@.moves),
            texts(ucis@) == ucis_of(game@.moves),
            texts(sans@) == sans_of(v, game@.moves),
        decreases toks@.len() - k,
    {
        let ghost ms = game@.moves;
        let ghost cur = game.current();
        proof {
            assert(replay(v, tk.take(k as int)).1);
            assert(position_before(v, tk, k as int) == cur);
            assert(tk[k as int] == toks@[k as int]@);
            assert(tk.take(k + 1).drop_last() =~= tk.take(k as int));
            assert(tk.take(k + 1).last() == tk[k as int]);
        }
        match game.board().parse_uci(toks[k].as_str()) {
            None => {
                proof {
                    if uci_move(cur, tk[k as int]) is Some {
                        let m = choose|m: Move| legal(cur, m) && names_move(tk[k as int], m);
                        assert(legal(cur, m) && names_move(tk[k as int], m));
                    }
                    assert(replay(v, tk.take(k + 1)) == (ms, false));
                    lemma_replay_stuck(v, tk, k + 1);
                }
                return (ucis, sans, false);
            },
            Some(mv) => {
                proof {
                    lemma_uci_move(cur, tk[k as int], mv);
                    assert(replay(v, tk.take(k + 1)) == (ms.push(mv), true));
                    lemma_king_unclocked(cur, mv);
                }
                let san = game.board().san(mv);
                let uci = mv.to_uci();
                let ghost u0 = ucis@;
                let ghost s0 = sans@;
                let ghost ut = uci@;
                let ghost st = san@;
                ucis.push(uci);
                sans.push(san);
                game.push(mv);
                proof {
                    let ms2 = ms.push(mv);
                    assert(ms2.drop_last() =~= ms);
                    assert(game@.positions == play(v, ms2));
                    assert(texts(ucis@) =~= texts(u0).push(ut));
                    assert(texts(ucis@) =~= ucis_of(ms2));
                    assert(texts(sans@) =~= texts(s0).push(st));
                    lemma_play_len(v, ms);
                    assert(texts(sans@) =~= sans_of(v, ms2));
                }
            },
        }
        k += 1;
    }
    proof {
        assert(tk.take(toks@.len() as int) =~= tk);
    }
    (ucis, sans, true)
}

/// The legal move of `v` that the SAN text `t` names, if any.
pub open spec fn san_move(v: BoardState, t: Seq<char>) -> Option<Move> {
    if exists|m: Move| legal(v, m) && normalize(san_base(v, m)) == normalize(t) {
        Some(choose|m: Move| legal(v, m) && normalize(san_base(v, m)) == normalize(t))
    } else {
        None
    }
}

/// A legal move whose SAN the text names is the move `san_move` picks.
pub proof fn lemma_san_move(v: BoardState, t: Seq<char>, m: Move)
    requires
        legal(v, m),
        normalize(san_base(v, m)) == normalize(t),
    ensures
        san_move(v, t) == Some(m),
{
    let c = choose|x: Move| legal(v, x) && normalize(san_base(v, x)) == normalize(t);
    crate::san::lemma_san_round_trip(v, m);
    crate::san::lemma_san_round_trip(v, c);
    crate::san::lemma_san_injective(v, c, m);
}

/// Replaying SAN tokens from `v`: the moves played, and whether every token
/// named a legal move (replay stops at the first that does not).
pub open spec fn san_replay(v: BoardState, toks: Seq<Seq<char>>) -> (Seq<Move>, bool)
    decreases toks.len(),
{
    if toks.len() == 0 {
        (Seq::empty(), true)
    } else {
        let (ms, ok) = san_replay(v, toks.drop_last());
        if !ok {
            (ms, false)
        } else {
            match san_move(play(v, ms).last(), toks.last()) {
                Some(m) => (ms.push(m), true),
                None => (ms, false),
            }
        }
    }
}

/// Once a SAN token fails, the tokens after it do not change the replay.
pub proof fn lemma_san_replay_stuck(v: BoardState, toks: Seq<Seq<char>>, j: int)
    requires
        0 <= j <= toks.len(),
        !san_replay(v, toks.take(j)).1,
    ensures
        san_replay(v, toks) == san_replay(v, toks.take(j)),
    decreases toks.len() - j,
{
    if j < toks.len() {
        assert(toks.take(j + 1).drop_last() =~= toks.take(j));
        lemma_san_replay_stuck(v, toks, j + 1);
    } else {
        assert(toks.take(j) =~= toks);
    }
}

/// A SAN replay plays at most one move per token, one for each when it
/// succeeds.
pub proof fn lemma_san_replay_len(v: BoardState, toks: Seq<Seq<char>>)
    ensures
        san_replay(v, toks).1 ==> san_replay(v, toks).0.len() == toks.len(),
        !san_replay(v, toks).1 ==> san_replay(v, toks).0.len() < toks.len(),
    decreases toks.len(),
{
    if toks.len() > 0 {
        lemma_san_replay_len(v, toks.drop_last());
    }
}

/// Replaying SAN tokens from `v` cannot fail on the way: each move reached
/// can be played (the clocks can advance) and keeps the opponent's king.
pub open spec fn san_replay_safe(v: BoardState, toks: Seq<Seq<char>>) -> bool {
    forall|k: int|
        0 <= k < toks.len() && #[trigger] san_replay(v, toks.take(k)).1 ==> {
            let w = play(v, san_replay(v, toks.take(k)).0).last();
            san_move(w, toks[k]) matches Some(m) ==> clocks_ok(w) && has_king(
                make_view(w, m),
                opposite(w.side),
            )
        }
}

/// Play the moves the SAN tokens name on a game that has none yet, stopping
/// at the first token that names no legal move. Gives the UCI and SAN texts
/// of the moves played and whether every token was played.
pub fn play_sans(game: &mut Game, toks: &Vec<String>) -> (r: (Vec<String>, Vec<String>, bool))
    requires
        old(game).wf(),
        old(game)@.moves.len() == 0,
        san_replay_safe(old(game).current(), texts(toks@)),
    ensures
        ({
            let v = old(game).current();
            let (ms, ok) = san_replay(v, texts(toks@));
            &&& final(game).wf()
            &&& final(game)@.moves == ms
            &&& final(game)@.positions == play(v, ms)
            &&& texts(r.0@) == ucis_of(ms)
            &&& texts(r.1@) == sans_of(v, ms)
            &&& r.2 == ok
        }),
{
    let ghost v = game.current();
    let ghost tk = texts(toks@);
    let mut ucis: Vec<String> = Vec::new();
    let mut sans: Vec<String> = Vec::new();
    let mut k: usize = 0;
    proof {
        game.lemma_view();
        assert(tk.take(0) =~= Seq::<Seq<char>>::empty());
        assert(game@.positions =~= play(v, game@.moves));
        assert(texts(ucis@) =~= ucis_of(game@.moves));
        assert(texts(sans@) =~= sans_of(v, game@.moves));
    }
    while k < toks.len()
        invariant
            k <= toks@.len(),
            tk == texts(toks@),
            v == old(game).current(),
            san_replay_safe(v, tk),
            san_replay(v, tk.take(k as int)) == (game@.moves, true),
            game.wf(),
            game@.moves.len() == k,
            game@.positions == play(v, game@.moves),
            texts(ucis@) == ucis_of(game@.moves),
            texts(sans@) == sans_of(v, game@.moves),
        decreases toks@.len() - k,
    {
        let ghost ms = game@.moves;
        let ghost cur = game.current();
        proof {
            assert(san_replay(v, tk.take(k as int)).1);
            assert(tk[k as int] == toks@[k as int]@);
            assert(tk.take(k + 1).drop_last() =~= tk.take(k as int));
            assert(tk.take(k + 1).last() == tk[k as int]);
        }
        match game.board().parse_san(toks[k].as_str()) {
            None => {
                proof {
                    if san_move(cur, tk[k as int]) is Some {
                        let m = choose|m: Move|
                            legal(cur, m) && normalize(san_base(cur, m)) == normalize(tk[k as int]);
                        assert(legal(cur, m));
                    }
                    assert(san_replay(v, tk.take(k + 1)) == (ms, false));
                    lemma_san_replay_stuck(v, tk, k + 1);
                }
                return (ucis, sans, false);
            },
            Some(mv) => {
                proof {
                    lemma_san_move(cur, tk[k as int], mv);
                    assert(san_replay(v, tk.take(k + 1)) == (ms.push(mv), true));
                    lemma_king_unclocked(cur, mv);
                }
                let san = game.board().san(mv);
                let uci = mv.to_uci();
                let ghost u0 = ucis@;
                let ghost s0 = sans@;
                let ghost ut = uci@;
                let ghost st = san@;
                ucis.push(uci);
                sans.push(san);
                game.push(mv);
                proof {
                    let ms2 = ms.push(mv);
                    assert(ms2.drop_last() =~= ms);
                    assert(game@.positions == play(v, ms2));
                    assert(texts(ucis@) =~= texts(u0).push(ut));
                    assert(texts(ucis@) =~= ucis_of(ms2));
                    assert(texts(sans@) =~= texts(s0).push(st));
                    lemma_play_len(v, ms);
                    assert(texts(sans@) =~= sans_of(v, ms2));
                }
            },
        }
        k += 1;
    }
    proof {
        assert(tk.take(toks@.len() as int) =~= tk);
    }
    (ucis, sans, true)
}

} // verus!
