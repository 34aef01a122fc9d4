//! Self-play training data: games the engine plays against itself at a fixed
//! node budget, after a short random opening, and the quiet positions they
//! pass through, labelled with the search score and the game's result.
//!
//! A record is 37 bytes: the 34-byte packed position, the score as a
//! little-endian `i16` (centipawns, White's point of view, clamped to
//! ±`SCORE_CLAMP`), and the result as an `i8` (+1 White won, 0 draw, -1
//! Black won).
use crate::board::{has_king, make_view, Board};
use crate::eval::Evaluator;
use crate::game::{clocks_ok, Game, Outcome};
use crate::movegen::legal;
use crate::moves::Move;
use crate::packed::Packed;
use crate::search::{clock_room, kings_present, lemma_playable, Engine, Limits, SCORE_LIMIT};
use crate::types::{opposite, Color};
use vstd::prelude::*;

verus! {

/// Bytes in one record.
pub const RECORD_LEN: usize = 37;

/// Scores are clamped to this magnitude.
pub const SCORE_CLAMP: i32 = 10_000;

/// A win is adjudicated once the score stays beyond this...
pub const ADJUDICATE_CP: i32 = 2500;

/// ...for this many consecutive plies.
pub const ADJUDICATE_PLIES: u32 = 4;

/// Games are cut off (as draws) after this many searched plies.
pub const MAX_PLIES: u32 = 320;

/// The `index`-th seed derived from `seed` (SplitMix64).
pub open spec fn splitmix_spec(seed: u64, index: u64) -> u64 {
    let z0 = seed.wrapping_add(0x9E37_79B9_7F4A_7C15).wrapping_mul(index.wrapping_add(1));
    let z1 = (z0 ^ (z0 >> 30)).wrapping_mul(0xBF58_476D_1CE4_E5B9);
    let z2 = (z1 ^ (z1 >> 27)).wrapping_mul(0x94D0_49BB_1331_11EB);
    z2 ^ (z2 >> 31)
}

/// The seed of game `index` of a run seeded with `seed`.
pub fn splitmix(seed: u64, index: u64) -> (r: u64)
    ensures
        r == splitmix_spec(seed, index),
{
    let mut z = seed.wrapping_add(0x9E37_79B9_7F4A_7C15).wrapping_mul(index.wrapping_add(1));
    z = (z ^ (z >> 30)).wrapping_mul(0xBF58_476D_1CE4_E5B9);
    z = (z ^ (z >> 27)).wrapping_mul(0x94D0_49BB_1331_11EB);
    z ^ (z >> 31)
}

/// One xorshift64 step.
pub open spec fn xorshift_spec(x: u64) -> u64 {
    let a = x ^ (x << 13);
    let b = a ^ (a >> 7);
    b ^ (b << 17)
}

/// Advance the generator `state` and return its new value.
pub fn next_rand(state: &mut u64) -> (r: u64)
    ensures
        r == xorshift_spec(*old(state)),
        *final(state) == r,
{
    let mut x = *state;
    x ^= x << 13;
    x ^= x >> 7;
    x ^= x << 17;
    *state = x;
    x
}

/// A record of the right length with a result byte of +1, 0 or -1.
pub open spec fn record_ok(b: Seq<u8>) -> bool {
    &&& b.len() == RECORD_LEN
    &&& (b[36] == 1 || b[36] == 0 || b[36] == 255)
}

/// Whether `mv` can be played in `game` within the range of the move
/// clocks and without taking a king (a king can only be taken from a
/// position the rules do not allow).
fn playable(game: &Game, mv: Move) -> (r: bool)
    requires
        game.wf(),
        legal(game.current(), mv),
    ensures
        r ==> clocks_ok(game.current()) && clock_room(game.current(), 0) && has_king(
            make_view(game.current(), mv),
            opposite(game.current().side),
        ),
{
    let b = game.board();
    if !(b.halfmove_clock() < 65_000 && b.fullmove_number() < 65_000) {
        return false;
    }
    let mut s: Board = *b;
    proof {
        lemma_playable(*b, mv, 0);
    }
    s.make_move(mv);
    kings_present(&s)
}

/// The record of a packed position, its score and the game's result.
fn record(packed: &Packed, score: i16, result: i8) -> (r: Vec<u8>)
    requires
        result == 1 || result == 0 || result == -1,
    ensures
        record_ok(r@),
        r@.subrange(0, 34) == packed.bytes@,
        r@[36] == (if result < 0 { 256 + result } else { result as int }),
{
    let mut rec: Vec<u8> = Vec::new();
    let mut i: usize = 0;
    while i < 34
        invariant
            i <= 34,
            rec@ == packed.bytes@.take(i as int),
        decreases 34 - i,
    {
        rec.push(packed.bytes[i]);
        i += 1;
        proof {
            assert(rec@ =~= packed.bytes@.take(i as int));
        }
    }
    let bits: u16 = score as u16;
    rec.push((bits & 0xff) as u8);
    rec.push((bits >> 8) as u8);
    let rb: u8 = if result < 0 {
        255
    } else {
        result as u8
    };
    rec.push(rb);
    proof {
        assert(rec@.subrange(0, 34) =~= packed.bytes@);
    }
    rec
}

/// The keys of all positions but the last.
fn all_but_last(keys: &Vec<u64>) -> (r: Vec<u64>)
    ensures
        r@ == keys@.take(if keys@.len() > 0 { keys@.len() - 1 } else { 0 }),
{
    let n = if keys.len() > 0 {
        keys.len() - 1
    } else {
        0
    };
    let mut v: Vec<u64> = Vec::new();
    let mut i: usize = 0;
    while i < n
        invariant
            i <= n,
            n <= keys@.len(),
            v@ == keys@.take(i as int),
        decreases n - i,
    {
        v.push(keys[i]);
        i += 1;
        proof {
            assert(v@ =~= keys@.take(i as int));
        }
    }
    v
}

/// Play one self-play game from seed `rng`: `random_plies` random legal
/// moves, then the engine's best move at `nodes` nodes per move until the
/// game ends, a score beyond `ADJUDICATE_CP` holds for `ADJUDICATE_PLIES`
/// plies (a win for that side), or `MAX_PLIES` plies pass (a draw). The
/// quiet positions (not in check, best move neither a capture nor a
/// promotion) are appended to `out` as records, all with the game's result;
/// the number appended is returned. A game over during the opening
/// records nothing.
pub fn play_game<E: Evaluator>(
    engine: &mut Engine<E>,
    rng: u64,
    random_plies: u32,
    nodes: u64,
    out: &mut Vec<Vec<u8>>,
) -> (r: usize)
    requires
        old(engine).wf(),
    ensures
        final(engine).wf(),
        final(out)@.len() == old(out)@.len() + r,
        forall|i: int| 0 <= i < old(out)@.len() ==> final(out)@[i] == old(out)@[i],
        forall|i: int| old(out)@.len() <= i < final(out)@.len() ==> record_ok(#[trigger] final(out)@[i]@),
        forall|i: int, j: int|
            old(out)@.len() <= i < final(out)@.len() && old(out)@.len() <= j < final(out)@.len()
                ==> (#[trigger] final(out)@[i])@[36] == (#[trigger] final(out)@[j])@[36],
{
    engine.new_game();
    let mut rng = rng;
    let mut game = Game::new();
    let mut keys: Vec<u64> = Vec::new();
    keys.push(game.board().hash());
    let mut k: u32 = 0;
    while k < random_plies
        invariant
            game.wf(),
            engine.wf(),
            k <= random_plies,
            out@ == old(out)@,
        decreases random_plies - k,
    {
        let moves = game.board().legal_moves();
        if moves.len() == 0 {
            return 0;
        }
        let pick = (next_rand(&mut rng) % moves.len() as u64) as usize;
        let mv = moves.get(pick);
        assert(moves@.contains(mv));
        if !playable(&game, mv) {
            return 0;
        }
        game.push(mv);
        keys.push(game.board().hash());
        k += 1;
    }
    if game.outcome().is_over() {
        return 0;
    }
    let mut pending: Vec<(Packed, i16)> = Vec::new();
    let mut adj_count: u32 = 0;
    let mut adj_winner: i8 = 0;
    let mut result: i8 = 0;
    let limits = Limits::nodes(nodes);
    let mut ply: u32 = 0;
    loop
        invariant
            game.wf(),
            engine.wf(),
            ply <= MAX_PLIES,
            -1 <= adj_winner <= 1,
            result == 1 || result == 0 || result == -1,
            out@ == old(out)@,
        decreases MAX_PLIES - ply,
    {
        match game.outcome() {
            Outcome::Checkmate { winner } => {
                result = match winner {
                    Color::White => 1,
                    Color::Black => -1,
                };
                break;
            },
            Outcome::Stalemate => {
                result = 0;
                break;
            },
            Outcome::Draw(_) => {
                result = 0;
                break;
            },
            Outcome::Ongoing => {},
        }
        if ply >= MAX_PLIES {
            result = 0;
            break;
        }
        let board = game.board();
        if !(board.halfmove_clock() < 65_000 && board.fullmove_number() < 65_000) {
            result = 0;
            break;
        }
        let history = all_but_last(&keys);
        engine.set_history(history.as_slice());
        let analysis = engine.analyze(board, &limits);
        let stm = board.side_to_move();
        let mut score = analysis.score;
        if stm == Color::Black {
            score = -score;
        }
        if score > SCORE_CLAMP {
            score = SCORE_CLAMP;
        } else if score < -SCORE_CLAMP {
            score = -SCORE_CLAMP;
        }
        let best = analysis.best_move;
        let quiet = !board.in_check() && !best.is_capture() && !best.is_promotion();
        if quiet {
            pending.push((board.pack(), score as i16));
        }
        let winner_sign: i8 = if score > ADJUDICATE_CP {
            1
        } else if score < -ADJUDICATE_CP {
            -1
        } else {
            0
        };
        if winner_sign != 0 && winner_sign == adj_winner {
            adj_count = if adj_count < ADJUDICATE_PLIES {
                adj_count + 1
            } else {
                adj_count
            };
            if adj_count >= ADJUDICATE_PLIES {
                result = adj_winner;
                break;
            }
        } else {
            adj_winner = winner_sign;
            adj_count = if winner_sign != 0 {
                1
            } else {
                0
            };
        }
        if !playable(&game, best) {
            result = 0;
            break;
        }
        game.push(best);
        keys.push(game.board().hash());
        ply += 1;
    }
    let n = pending.len();
    let ghost start = out@.len();
    let mut i: usize = 0;
    while i < n
        invariant
            i <= n,
            n == pending@.len(),
            result == 1 || result == 0 || result == -1,
            start == old(out)@.len(),
            out@.len() == start + i,
            forall|j: int| 0 <= j < start ==> out@[j] == old(out)@[j],
            forall|j: int| start <= j < out@.len() ==> record_ok(#[trigger] out@[j]@)
                && out@[j]@[36] == (if result < 0 { 256 + result } else { result as int }),
        decreases n - i,
    {
        let rec = record(&pending[i].0, pending[i].1, result);
        out.push(rec);
        i += 1;
    }
    n
}

} // verus!
