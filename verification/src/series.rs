//! The evaluation series of a line: one event per position, telling either
//! how the game ended there or what the engine makes of the position (its
//! score from White's side and its best move).
use crate::board::{has_king, make_view, Board};
use crate::eval::{mate_in_moves_spec, Evaluator};
use crate::fen::decimal;
use crate::game::{outcome_spec, rep_count, Game, Outcome};
use crate::http::{jopt, jstr, jstr_text, push_str, push_u64, int_text};
use crate::movegen::{legal, unclocked};
use crate::moves::Move;
use crate::san::san_text;
use crate::search::{clock_room, kings_present, lemma_playable, Engine, Limits, SCORE_LIMIT};
use crate::state::{outcome_json, outcome_text, side_char, side_text};
use crate::types::{opposite, Color};
use crate::uci::uci_text;
use vstd::prelude::*;

verus! {

/// `null` or a JSON number.
pub open spec fn jopt_text(v: Option<i32>) -> Seq<char> {
    match v {
        Some(n) => int_text(n as int),
        None => "null"@,
    }
}

/// The event of position `idx` when the game is over there.
pub open spec fn terminal_event_text(idx: int, side: Color, o: Outcome) -> Seq<char> {
    "{\"idx\":"@ + decimal(idx as nat) + ",\"side\":"@ + jstr_text(side_text(side))
        + ",\"cp\":null,\"mate\":null,\"terminal\":"@ + outcome_text(o) + "}"@
}

/// The event of position `idx` of `v` with the score `cp`/`mate` and the
/// best move `best`.
pub open spec fn eval_event_text(
    idx: int,
    v: crate::board::BoardState,
    cp: Option<i32>,
    mate: Option<i32>,
    best: Option<Move>,
) -> Seq<char> {
    "{\"idx\":"@ + decimal(idx as nat) + ",\"side\":"@ + jstr_text(side_text(v.side)) + ",\"cp\":"@
        + jopt_text(cp) + ",\"mate\":"@ + jopt_text(mate) + ",\"best\":"@ + match best {
        Some(m) => jstr_text(uci_text(m)),
        None => "null"@,
    } + ",\"bestSan\":"@ + match best {
        Some(m) => jstr_text(san_text(v, m)),
        None => "null"@,
    } + "}"@
}

/// A score from the side to move's view as White sees it: centipawns, or
/// moves to mate.
pub open spec fn white_view(stm: Color, score: int) -> (Option<i32>, Option<i32>) {
    let sign = if stm == Color::White {
        1int
    } else {
        -1int
    };
    match mate_in_moves_spec(score) {
        Some(m) => (None, Some((sign * m) as i32)),
        None => (Some((sign * score) as i32), None),
    }
}

/// The event for a game that is over at position `idx`.
pub fn terminal_event_json(idx: usize, game: &Game) -> (r: String)
    requires
        game.wf(),
    ensures
        r@ == terminal_event_text(
            idx as int,
            game.current().side,
            outcome_spec(game.current(), rep_count(game@) as int),
        ),
{
    let mut s = String::new();
    push_str(&mut s, "{\"idx\":");
    push_u64(&mut s, idx as u64);
    push_str(&mut s, ",\"side\":");
    push_str(&mut s, jstr(side_char(game.side_to_move())).as_str());
    push_str(&mut s, ",\"cp\":null,\"mate\":null,\"terminal\":");
    push_str(&mut s, outcome_json(game.outcome()).as_str());
    push_str(&mut s, "}");
    s
}

/// The event for position `idx` with the score `cp`/`mate` and the best
/// move `best`.
pub fn eval_event_json(idx: usize, game: &Game, cp: Option<i32>, mate: Option<i32>, best: Option<Move>) -> (r:
    String)
    requires
        game.wf(),
        best matches Some(m) ==> legal(game.current(), m) && has_king(
            make_view(unclocked(game.current()), m),
            opposite(game.current().side),
        ),
    ensures
        r@ == eval_event_text(idx as int, game.current(), cp, mate, best),
{
    proof {
        reveal_strlit("null");
    }
    let (b, san) = match best {
        Some(mv) => (jstr(mv.to_uci().as_str()), jstr(game.board().san(mv).as_str())),
        None => ("null".to_string(), "null".to_string()),
    };
    assert(b@ == match best {
        Some(m) => jstr_text(uci_text(m)),
        None => "null"@,
    });
    assert(san@ == match best {
        Some(m) => jstr_text(san_text(game.current(), m)),
        None => "null"@,
    });
    let mut s = String::new();
    push_str(&mut s, "{\"idx\":");
    push_u64(&mut s, idx as u64);
    push_str(&mut s, ",\"side\":");
    push_str(&mut s, jstr(side_char(game.side_to_move())).as_str());
    push_str(&mut s, ",\"cp\":");
    push_str(&mut s, jopt(cp).as_str());
    push_str(&mut s, ",\"mate\":");
    push_str(&mut s, jopt(mate).as_str());
    push_str(&mut s, ",\"best\":");
    push_str(&mut s, b.as_str());
    push_str(&mut s, ",\"bestSan\":");
    push_str(&mut s, san.as_str());
    push_str(&mut s, "}");
    assert(s@ =~= eval_event_text(idx as int, game.current(), cp, mate, best));
    s
}

/// Whether `mv` leaves the opponent a king (it can only take one from a
/// position the rules do not allow).
fn keeps_king(board: &Board, mv: Move) -> (r: bool)
    requires
        board.valid(),
        clock_room(board@, 0),
        legal(board@, mv),
    ensures
        r ==> has_king(make_view(board@, mv), opposite(board@.side)),
{
    let mut s: Board = *board;
    proof {
        lemma_playable(*board, mv, 0);
    }
    s.make_move(mv);
    kings_present(&s)
}

/// The event of position `idx` of a series: the result if the game `game`
/// is over there; else the engine's view after searching `per_ms`
/// milliseconds with `history` as the keys of the positions before it. The
/// score goes out from White's side; the best move only if it is legal.
pub fn series_event<E: Evaluator>(engine: &mut Engine<E>, game: &Game, idx: usize, history: &[u64], per_ms: u64) -> (r: String)
    requires
        old(engine).wf(),
        game.wf(),
        clock_room(game.current(), 0),
    ensures
        final(engine).wf(),
        outcome_spec(game.current(), rep_count(game@) as int) != Outcome::Ongoing ==> r@ == terminal_event_text(
            idx as int,
            game.current().side,
            outcome_spec(game.current(), rep_count(game@) as int),
        ),
        outcome_spec(game.current(), rep_count(game@) as int) == Outcome::Ongoing ==> exists|
            s: int,
            b: Option<Move>,
        |
            -SCORE_LIMIT <= s <= SCORE_LIMIT && (b matches Some(m) ==> legal(game.current(), m))
                && r@ == eval_event_text(
                idx as int,
                game.current(),
                white_view(game.current().side, s).0,
                white_view(game.current().side, s).1,
                b,
            ),
{
    if game.outcome().is_over() {
        return terminal_event_json(idx, game);
    }
    engine.set_history(history);
    let board = game.board();
    let a = engine.analyze(board, &Limits::movetime(per_ms));
    let stm = game.side_to_move();
    let (cp, mate) = crate::web::white_score(stm, a.score);
    let best = if board.legal_moves().contains(a.best_move) && keeps_king(board, a.best_move) {
        proof {
            crate::state::lemma_king_unclocked(board@, a.best_move);
        }
        Some(a.best_move)
    } else {
        None
    };
    let r = eval_event_json(idx, game, cp, mate, best);
    assert(-SCORE_LIMIT <= a.score <= SCORE_LIMIT && (best matches Some(m) ==> legal(game.current(), m))
        && r@ == eval_event_text(
        idx as int,
        game.current(),
        white_view(game.current().side, a.score as int).0,
        white_view(game.current().side, a.score as int).1,
        best,
    ));
    r
}

} // verus!
