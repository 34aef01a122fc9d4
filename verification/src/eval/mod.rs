//! Position evaluation: score conventions shared by the search and its
//! front ends, and the feature encodings of the learned evaluators.
pub mod nnue;
pub mod policyvalue;

use crate::board::Board;
use crate::moves::Move;
use vstd::prelude::*;

verus! {

/// Static evaluation of a position, in centipawns, from the side to move's
/// perspective (positive: the side to move is better), the negamax
/// convention the search relies on. An implementation keeps its scores
/// below the mate range, so that mate scores stay distinguishable.
pub trait Evaluator {
    /// Evaluate `board` from the side to move's perspective.
    fn evaluate(&mut self, board: &Board) -> (r: i32)
        ensures
            -MATE_IN_MAX < r < MATE_IN_MAX,
    ;

    /// Called by the search just after `board.make_move(mv)`; an
    /// incremental evaluator updates its state here.
    fn on_make(&mut self, board: &Board, mv: Move) {
    }

    /// Called by the search just after `board.unmake_move(mv, undo)`.
    fn on_unmake(&mut self, board: &Board, mv: Move) {
    }

    /// Recompute any cached state from scratch for `board` (at the search
    /// root).
    fn refresh(&mut self, board: &Board) {
    }
}

/// A value larger than any real evaluation — used as the alpha/beta bounds.
pub const INFINITY: i32 = 32_000;

/// Base score for checkmate; a mate `n` plies away scores `MATE - n`.
pub const MATE: i32 = 31_000;

/// Maximum search ply (depth of the in-tree path).
pub const MAX_PLY: usize = 128;

/// Scores at or beyond this magnitude denote a forced mate (`MATE - MAX_PLY`).
pub const MATE_IN_MAX: i32 = 30_872;

/// A drawn position.
pub const DRAW: i32 = 0;

/// Integer division rounding toward zero, as Rust's `/` does.
pub open spec fn div_toward_zero(a: int, b: int) -> int {
    if a >= 0 {
        a / b
    } else {
        -((-a) / b)
    }
}

/// Whether `score` denotes a forced mate (for either side).
pub open spec fn is_mate_spec(score: int) -> bool {
    score >= MATE_IN_MAX || -score >= MATE_IN_MAX
}

/// Moves until mate for a mate score: positive when the side to move mates.
pub open spec fn mate_in_moves_spec(score: int) -> Option<int> {
    if !is_mate_spec(score) {
        None
    } else if score > 0 {
        Some(div_toward_zero(MATE - score + 1, 2))
    } else {
        Some(-(div_toward_zero(MATE + score, 2) + 1))
    }
}

/// Mate distances count moves and carry the score's sign. A score
/// `MATE - p` means the side to move mates `p >= 1` plies from now: the
/// distance is the positive number of its moves, `m` with `2m - 1 <= p <= 2m`.
/// A score `-(MATE - p)` means it is mated after `p` plies: the distance is
/// negative, `-m` with `2m - 2 <= p <= 2m - 1` (its own moves before the
/// mate, plus the mating reply). Scores short of the mate range give none.
pub proof fn lemma_mate_distance(score: int)
    requires
        -MATE <= score <= MATE - 1,
    ensures
        score >= MATE_IN_MAX ==> (mate_in_moves_spec(score) matches Some(m) && m > 0 && 2 * m - 1
            <= MATE - score <= 2 * m),
        score <= -MATE_IN_MAX ==> (mate_in_moves_spec(score) matches Some(m) && m < 0 && -2 * m - 2
            <= MATE + score <= -2 * m - 1),
        -MATE_IN_MAX < score < MATE_IN_MAX ==> mate_in_moves_spec(score) is None,
{
}

/// Whether `score` denotes a forced mate (for either side).
pub fn is_mate(score: i32) -> (r: bool)
    requires
        score > i32::MIN,
    ensures
        r == is_mate_spec(score as int),
{
    let a = if score < 0 {
        -score
    } else {
        score
    };
    a >= MATE_IN_MAX
}

/// For a mate score, the number of *moves* (not plies) until mate: positive when
/// the side to move is mating, negative when being mated. `None` if not a mate.
pub fn mate_in_moves(score: i32) -> (r: Option<i32>)
    requires
        score > i32::MIN,
    ensures
        match r {
            Some(m) => mate_in_moves_spec(score as int) == Some(m as int),
            None => mate_in_moves_spec(score as int) is None,
        },
{
    if !is_mate(score) {
        return None;
    }
    if score > 0 {
        let a = MATE - score + 1;
        let q = if a >= 0 {
            a / 2
        } else {
            -((-a) / 2)
        };
        Some(q)
    } else {
        let a = MATE + score;
        let q = if a >= 0 {
            a / 2
        } else {
            -((-a) / 2)
        };
        Some(-(q + 1))
    }
}

} // verus!
