//! Sliding-piece attacks and their relevant-occupancy masks.
//!
//! The attack set of a rook or bishop is computed by scanning each ray up to
//! the first blocker (no precomputed tables, and no magic multipliers: the
//! scan is the whole computation). The masks give, for each square, the
//! blockers that can change a slider's attack set there.

use crate::attacks::{
    bishop_attacks_classical, bishop_reach, dfile, drank, on_board, rook_attacks_classical,
    rook_reach,
};
use crate::bitboard::{Bitboard, lemma_mem_ops, lemma_mem_single, lemma_mem_zero_full, mem};
use crate::types::{Square, sq_file, sq_rank};
use vstd::prelude::*;

verus! {

/// Rook attacks from `sq` under occupancy `occ`.
pub fn rook_attacks(sq: Square, occ: Bitboard) -> (r: Bitboard)
    requires
        sq.wf(),
    ensures
        forall|t: int| #[trigger] mem(r.0, t) == rook_reach(sq.0 as int, t, occ.0),
{
    rook_attacks_classical(sq, occ)
}

/// Bishop attacks from `sq` under occupancy `occ`.
pub fn bishop_attacks(sq: Square, occ: Bitboard) -> (r: Bitboard)
    requires
        sq.wf(),
    ensures
        forall|t: int| #[trigger] mem(r.0, t) == bishop_reach(sq.0 as int, t, occ.0),
{
    bishop_attacks_classical(sq, occ)
}

/// The relevant blockers of a rook on `s`: the squares of its file and rank
/// other than `s`, without the board edge at the end of each ray.
pub open spec fn rook_mask_spec(s: int, t: int) -> bool {
    &&& on_board(t)
    &&& t != s
    &&& ((sq_file(t) == sq_file(s) && 1 <= sq_rank(t) <= 6) || (sq_rank(t) == sq_rank(s) && 1
        <= sq_file(t) <= 6))
}

/// The relevant blockers of a bishop on `s`: the squares of its diagonals
/// other than `s`, off the board's edge.
pub open spec fn bishop_mask_spec(s: int, t: int) -> bool {
    &&& on_board(t)
    &&& t != s
    &&& (dfile(s, t) == drank(s, t) || dfile(s, t) == -drank(s, t))
    &&& 1 <= sq_file(t) <= 6
    &&& 1 <= sq_rank(t) <= 6
}

/// The occupancy mask of a slider on `sq`: a rook's when `rook`, else a
/// bishop's.
fn slider_mask(sq: Square, rook: bool) -> (r: Bitboard)
    requires
        sq.wf(),
    ensures
        forall|t: int| #[trigger]
            mem(r.0, t) == if rook {
                rook_mask_spec(sq.0 as int, t)
            } else {
                bishop_mask_spec(sq.0 as int, t)
            },
{
    let s = sq.0 as i32;
    let (f0, r0) = (s % 8, s / 8);
    let mut mask = 0u64;
    let mut t: u64 = 0;
    proof {
        lemma_mem_zero_full();
    }
    while t < 64
        invariant
            t <= 64,
            s == sq.0,
            f0 == sq_file(s as int),
            r0 == sq_rank(s as int),
            forall|u: int| #[trigger]
                mem(mask, u) == (u < t && if rook {
                    rook_mask_spec(s as int, u)
                } else {
                    bishop_mask_spec(s as int, u)
                }),
        decreases 64 - t,
    {
        let ti = t as i32;
        let (f, r) = (ti % 8, ti / 8);
        let df = f - f0;
        let dr = r - r0;
        let hit = ti != s && if rook {
            (f == f0 && 1 <= r && r <= 6) || (r == r0 && 1 <= f && f <= 6)
        } else {
            (df == dr || df == -dr) && 1 <= f && f <= 6 && 1 <= r && r <= 6
        };
        if hit {
            proof {
                lemma_mem_single(t);
                lemma_mem_ops(mask, 1u64 << t);
            }
            mask = mask | (1u64 << t);
        }
        t += 1;
    }
    Bitboard(mask)
}

/// The relevant-occupancy mask of a rook on `sq`.
pub fn rook_mask(sq: Square) -> (r: Bitboard)
    requires
        sq.wf(),
    ensures
        forall|t: int| #[trigger] mem(r.0, t) == rook_mask_spec(sq.0 as int, t),
{
    slider_mask(sq, true)
}

/// The relevant-occupancy mask of a bishop on `sq`.
pub fn bishop_mask(sq: Square) -> (r: Bitboard)
    requires
        sq.wf(),
    ensures
        forall|t: int| #[trigger] mem(r.0, t) == bishop_mask_spec(sq.0 as int, t),
{
    slider_mask(sq, false)
}

/// Prepare the slider lookups; there are no tables to build, so this does
/// nothing and exists for callers that warm up before timing.
pub fn init() {
}

} // verus!
