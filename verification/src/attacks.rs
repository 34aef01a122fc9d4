//! Attack generation: leaper attacks (knight, king, pawn), ray-scan sliding
//! attacks (bishop, rook, queen), and the `between` / `line` geometry used for
//! pins and check evasion.
//!
//! The geometry is specified over file/rank coordinates: a square `b` lies in
//! direction `(fd, rd)` from `a` when the signs of the file and rank
//! differences are `fd` and `rd` and the two squares share a rank, file, or
//! diagonal. A slider on `a` attacks `b` when `b` lies in one of its
//! directions and every square strictly between them is empty.

use crate::bitboard::{Bitboard, lemma_mem_ops, lemma_mem_single, lemma_mem_zero_full, mem};
use crate::types::{Color, PieceType, Square, sq_file, sq_rank};
use vstd::prelude::*;

verus! {

pub open spec fn on_board(s: int) -> bool {
    0 <= s < 64
}

pub open spec fn sgn(x: int) -> int {
    if x > 0 {
        1
    } else if x < 0 {
        -1
    } else {
        0
    }
}

pub open spec fn iabs(x: int) -> int {
    if x < 0 {
        -x
    } else {
        x
    }
}

/// File difference from `a` to `b`.
pub open spec fn dfile(a: int, b: int) -> int {
    sq_file(b) - sq_file(a)
}

/// Rank difference from `a` to `b`.
pub open spec fn drank(a: int, b: int) -> int {
    sq_rank(b) - sq_rank(a)
}

/// Chebyshev distance between two squares.
pub open spec fn dist(a: int, b: int) -> int {
    if iabs(dfile(a, b)) > iabs(drank(a, b)) {
        iabs(dfile(a, b))
    } else {
        iabs(drank(a, b))
    }
}

/// `b` lies in direction `(fd, rd)` from `a` on a rank, file or diagonal.
pub open spec fn in_dir(a: int, b: int, fd: int, rd: int) -> bool {
    &&& on_board(a)
    &&& on_board(b)
    &&& a != b
    &&& sgn(dfile(a, b)) == fd
    &&& sgn(drank(a, b)) == rd
    &&& (fd == 0 || rd == 0 || iabs(dfile(a, b)) == iabs(drank(a, b)))
}

/// `a` and `b` are distinct squares on a common rank, file, or diagonal.
pub open spec fn aligned_pair(a: int, b: int) -> bool {
    in_dir(a, b, sgn(dfile(a, b)), sgn(drank(a, b)))
}

/// `u` lies strictly between the aligned squares `a` and `b`.
pub open spec fn between_spec(a: int, b: int, u: int) -> bool {
    &&& aligned_pair(a, b)
    &&& in_dir(a, u, sgn(dfile(a, b)), sgn(drank(a, b)))
    &&& dist(a, u) < dist(a, b)
}

/// `u` lies on the full line through the aligned squares `a` and `b`.
pub open spec fn line_spec(a: int, b: int, u: int) -> bool {
    &&& aligned_pair(a, b)
    &&& (u == a || in_dir(a, u, sgn(dfile(a, b)), sgn(drank(a, b))) || in_dir(
        a,
        u,
        -sgn(dfile(a, b)),
        -sgn(drank(a, b)),
    ))
}

/// Every square strictly between `a` and `b` is empty in `occ`.
pub open spec fn clear_between(a: int, b: int, occ: u64) -> bool {
    forall|u: int| #[trigger] between_spec(a, b, u) ==> !mem(occ, u)
}

/// Direction `(fd, rd)` is a rook direction.
pub open spec fn rook_dir(fd: int, rd: int) -> bool {
    (fd == 0) != (rd == 0)
}

/// Direction `(fd, rd)` is a bishop direction.
pub open spec fn bishop_dir(fd: int, rd: int) -> bool {
    fd != 0 && rd != 0
}

/// The squares a slider on `a` reaches along direction `(fd, rd)`: up to
/// and including the first occupied square.
pub open spec fn ray_reach(a: int, b: int, fd: int, rd: int, occ: u64) -> bool {
    in_dir(a, b, fd, rd) && clear_between(a, b, occ)
}

/// A rook on `a` attacks `b` under occupancy `occ`.
pub open spec fn rook_reach(a: int, b: int, occ: u64) -> bool {
    aligned_pair(a, b) && rook_dir(sgn(dfile(a, b)), sgn(drank(a, b))) && clear_between(a, b, occ)
}

/// A bishop on `a` attacks `b` under occupancy `occ`.
pub open spec fn bishop_reach(a: int, b: int, occ: u64) -> bool {
    aligned_pair(a, b) && bishop_dir(sgn(dfile(a, b)), sgn(drank(a, b))) && clear_between(
        a,
        b,
        occ,
    )
}

/// A knight on `a` attacks `b`.
pub open spec fn knight_rel(a: int, b: int) -> bool {
    &&& on_board(a)
    &&& on_board(b)
    &&& ((iabs(dfile(a, b)) == 1 && iabs(drank(a, b)) == 2) || (iabs(dfile(a, b)) == 2 && iabs(
        drank(a, b),
    ) == 1))
}

/// A king on `a` attacks `b`.
pub open spec fn king_rel(a: int, b: int) -> bool {
    &&& on_board(a)
    &&& on_board(b)
    &&& a != b
    &&& iabs(dfile(a, b)) <= 1
    &&& iabs(drank(a, b)) <= 1
}

/// Rank step of a pawn of color `c`.
pub open spec fn pawn_step(c: Color) -> int {
    if c == Color::White {
        1
    } else {
        -1
    }
}

/// A pawn of color `c` on `a` attacks `b`.
pub open spec fn pawn_rel(c: Color, a: int, b: int) -> bool {
    &&& on_board(a)
    &&& on_board(b)
    &&& drank(a, b) == pawn_step(c)
    &&& iabs(dfile(a, b)) == 1
}

/// A piece of type `pt` and color `c` on `a` attacks `b` under occupancy `occ`.
pub open spec fn attacks_spec(pt: PieceType, c: Color, a: int, b: int, occ: u64) -> bool {
    match pt {
        PieceType::Pawn => pawn_rel(c, a, b),
        PieceType::Knight => knight_rel(a, b),
        PieceType::Bishop => bishop_reach(a, b, occ),
        PieceType::Rook => rook_reach(a, b, occ),
        PieceType::Queen => bishop_reach(a, b, occ) || rook_reach(a, b, occ),
        PieceType::King => king_rel(a, b),
    }
}

/// The relations are symmetric, with pawns seen from the opposite color.
pub proof fn lemma_symmetry(a: int, b: int, occ: u64, c: Color)
    ensures
        knight_rel(a, b) == knight_rel(b, a),
        king_rel(a, b) == king_rel(b, a),
        pawn_rel(c, a, b) == pawn_rel(
            if c == Color::White {
                Color::Black
            } else {
                Color::White
            },
            b,
            a,
        ),
        rook_reach(a, b, occ) == rook_reach(b, a, occ),
        bishop_reach(a, b, occ) == bishop_reach(b, a, occ),
        aligned_pair(a, b) == aligned_pair(b, a),
{
    lemma_between_symmetric(a, b);
    assert(dfile(b, a) == -dfile(a, b) && drank(b, a) == -drank(a, b));
    assert(clear_between(a, b, occ) == clear_between(b, a, occ)) by {
        if clear_between(a, b, occ) {
            assert forall|u: int| #[trigger] between_spec(b, a, u) implies !mem(occ, u) by {
                assert(between_spec(a, b, u));
            }
        }
        if clear_between(b, a, occ) {
            assert forall|u: int| #[trigger] between_spec(a, b, u) implies !mem(occ, u) by {
                assert(between_spec(b, a, u));
            }
        }
    }
}

proof fn lemma_between_symmetric(a: int, b: int)
    ensures
        aligned_pair(a, b) == aligned_pair(b, a),
        forall|u: int| #[trigger] between_spec(a, b, u) == between_spec(b, a, u),
{
    assert forall|u: int| #[trigger] between_spec(a, b, u) == between_spec(b, a, u) by {
        if on_board(a) && on_board(b) && on_board(u) {
            let (af, ar, bf, br, uf, ur) = (sq_file(a), sq_rank(a), sq_file(b), sq_rank(b), sq_file(
                u,
            ), sq_rank(u));
            assert(a == ar * 8 + af && b == br * 8 + bf && u == ur * 8 + uf);
        }
    }
}

/// `k` steps of size `d` (`d` in `-1..=1`).
pub open spec fn step(k: int, d: int) -> int {
    if d > 0 {
        k
    } else if d < 0 {
        -k
    } else {
        0
    }
}

/// Square at file `f`, rank `r`.
pub open spec fn sq_at(f: int, r: int) -> int {
    r * 8 + f
}

proof fn lemma_coords(s: int)
    requires
        on_board(s),
    ensures
        s == sq_at(sq_file(s), sq_rank(s)),
        0 <= sq_file(s) < 8,
        0 <= sq_rank(s) < 8,
{
}

proof fn lemma_sq_at(f: int, r: int)
    requires
        0 <= f < 8,
        0 <= r < 8,
    ensures
        on_board(sq_at(f, r)),
        sq_file(sq_at(f, r)) == f,
        sq_rank(sq_at(f, r)) == r,
{
}

/// The square reached from `sq` by the offset `(df, dr)`, added to `acc`
/// when it is on the board.
fn add_offset(acc: u64, sq: Square, df: i8, dr: i8) -> (r: u64)
    requires
        sq.wf(),
        -2 <= df <= 2,
        -2 <= dr <= 2,
    ensures
        forall|t: int| #[trigger]
            mem(r, t) == (mem(acc, t) || (on_board(t) && dfile(sq.0 as int, t) == df && drank(
                sq.0 as int,
                t,
            ) == dr)),
{
    let f = (sq.0 % 8) as i8 + df;
    let r = (sq.0 / 8) as i8 + dr;
    if 0 <= f && f < 8 && 0 <= r && r < 8 {
        let s = (r * 8 + f) as u64;
        proof {
            lemma_mem_single(s);
            lemma_mem_ops(acc, 1u64 << s);
            assert forall|t: int| #[trigger]
                mem(acc | (1u64 << s), t) == (mem(acc, t) || (on_board(t) && dfile(sq.0 as int, t)
                    == df && drank(sq.0 as int, t) == dr)) by {
                if on_board(t) {
                    lemma_coords(t);
                }
            }
        }
        acc | (1u64 << s)
    } else {
        proof {
            assert forall|t: int| #[trigger]
                mem(acc, t) == (mem(acc, t) || (on_board(t) && dfile(sq.0 as int, t)
                    == df && drank(sq.0 as int, t) == dr)) by {
                if on_board(t) {
                    lemma_coords(t);
                }
            }
        }
        acc
    }
}

pub fn knight_attacks(sq: Square) -> (r: Bitboard)
    requires
        sq.wf(),
    ensures
        forall|t: int| #[trigger] mem(r.0, t) == knight_rel(sq.0 as int, t),
{
    proof {
        lemma_mem_zero_full();
    }
    let mut x = 0u64;
    x = add_offset(x, sq, 1, 2);
    x = add_offset(x, sq, 2, 1);
    x = add_offset(x, sq, 2, -1);
    x = add_offset(x, sq, 1, -2);
    x = add_offset(x, sq, -1, -2);
    x = add_offset(x, sq, -2, -1);
    x = add_offset(x, sq, -2, 1);
    x = add_offset(x, sq, -1, 2);
    proof {
        assert forall|t: int| #[trigger] mem(x, t) == knight_rel(sq.0 as int, t) by {
        }
    }
    Bitboard(x)
}

pub fn king_attacks(sq: Square) -> (r: Bitboard)
    requires
        sq.wf(),
    ensures
        forall|t: int| #[trigger] mem(r.0, t) == king_rel(sq.0 as int, t),
{
    proof {
        lemma_mem_zero_full();
    }
    let mut x = 0u64;
    x = add_offset(x, sq, 0, 1);
    x = add_offset(x, sq, 0, -1);
    x = add_offset(x, sq, 1, 0);
    x = add_offset(x, sq, -1, 0);
    x = add_offset(x, sq, 1, 1);
    x = add_offset(x, sq, -1, 1);
    x = add_offset(x, sq, 1, -1);
    x = add_offset(x, sq, -1, -1);
    proof {
        assert forall|t: int| #[trigger] mem(x, t) == king_rel(sq.0 as int, t) by {
        }
    }
    Bitboard(x)
}

pub fn pawn_attacks(color: Color, sq: Square) -> (r: Bitboard)
    requires
        sq.wf(),
    ensures
        forall|t: int| #[trigger] mem(r.0, t) == pawn_rel(color, sq.0 as int, t),
{
    proof {
        lemma_mem_zero_full();
    }
    let dr: i8 = match color {
        Color::White => 1,
        Color::Black => -1,
    };
    let mut x = 0u64;
    x = add_offset(x, sq, -1, dr);
    x = add_offset(x, sq, 1, dr);
    proof {
        assert forall|t: int| #[trigger] mem(x, t) == pawn_rel(color, sq.0 as int, t) by {
        }
    }
    Bitboard(x)
}

/// The squares a slider on `sq` reaches along direction `(fd, rd)` under
/// occupancy `occ`: every square up to and including the first occupied one.
fn ray_attacks(sq: Square, occ: u64, fd: i8, rd: i8) -> (r: u64)
    requires
        sq.wf(),
        -1 <= fd <= 1,
        -1 <= rd <= 1,
        fd != 0 || rd != 0,
    ensures
        forall|t: int| #[trigger] mem(r, t) == ray_reach(sq.0 as int, t, fd as int, rd as int, occ),
{
    let ghost a = sq.0 as int;
    let ghost af = sq_file(a);
    let ghost ar = sq_rank(a);
    let mut f = (sq.0 % 8) as i8 + fd;
    let mut r = (sq.0 / 8) as i8 + rd;
    let mut acc = 0u64;
    let mut k: i8 = 1;
    proof {
        lemma_mem_zero_full();
        lemma_coords(a);
    }
    while 0 <= f && f < 8 && 0 <= r && r < 8
        invariant
            a == sq.0,
            on_board(a),
            af == sq_file(a),
            ar == sq_rank(a),
            1 <= k <= 8,
            f == af + step(k as int, fd as int),
            r == ar + step(k as int, rd as int),
            -1 <= fd <= 1,
            -1 <= rd <= 1,
            fd != 0 || rd != 0,
            forall|j: int|
                1 <= j < k ==> !#[trigger] mem(occ, sq_at(af + step(j, fd as int), ar + step(j, rd as int))),
            forall|j: int|
                1 <= j < k ==> 0 <= #[trigger] (af + step(j, fd as int)) < 8 && 0 <= ar + step(j, rd as int) < 8,
            forall|t: int| #[trigger]
                mem(acc, t) == (in_dir(a, t, fd as int, rd as int) && dist(a, t) < k),
        decreases 8 - k,
    {
        let s = (r * 8 + f) as u64;
        proof {
            lemma_mem_single(s);
            lemma_mem_ops(acc, 1u64 << s);
            lemma_sq_at(f as int, r as int);
            assert forall|t: int| #[trigger]
                mem(acc | (1u64 << s), t) == (in_dir(a, t, fd as int, rd as int) && dist(a, t) < k
                    + 1) by {
                if on_board(t) {
                    lemma_coords(t);
                }
            }
        }
        acc = acc | (1u64 << s);
        if occ & (1u64 << s) != 0 {
            proof {
                lemma_mem_ops(occ, 1u64 << s);
                crate::bitboard::lemma_zero_iff_empty(occ & (1u64 << s));
                assert(mem(occ, s as int));
                assert forall|t: int| #[trigger]
                    mem(acc, t) == ray_reach(a, t, fd as int, rd as int, occ) by {
                    if on_board(t) {
                        lemma_coords(t);
                        if in_dir(a, t, fd as int, rd as int) && dist(a, t) < k + 1 {
                            assert forall|u: int| #[trigger] between_spec(a, t, u) implies !mem(
                                occ,
                                u,
                            ) by {
                                lemma_coords(u);
                                let j = dist(a, u);
                                assert(u == sq_at(af + step(j, fd as int), ar + step(j, rd as int)));
                            }
                        }
                        if in_dir(a, t, fd as int, rd as int) && dist(a, t) >= k + 1 {
                            assert(between_spec(a, t, s as int));
                        }
                    }
                }
            }
            return acc;
        }
        proof {
            lemma_mem_ops(occ, 1u64 << s);
            crate::bitboard::lemma_zero_iff_empty(occ & (1u64 << s));
            assert(!mem(occ & (1u64 << s), s as int));
            assert(!mem(occ, s as int));
        }
        f = f + fd;
        r = r + rd;
        k = k + 1;
    }
    proof {
        assert forall|t: int| #[trigger]
            mem(acc, t) == ray_reach(a, t, fd as int, rd as int, occ) by {
            if on_board(t) {
                lemma_coords(t);
                if in_dir(a, t, fd as int, rd as int) && dist(a, t) < k {
                    assert forall|u: int| #[trigger] between_spec(a, t, u) implies !mem(occ, u) by {
                        lemma_coords(u);
                        let j = dist(a, u);
                        assert(u == sq_at(af + step(j, fd as int), ar + step(j, rd as int)));
                    }
                }
            }
        }
    }
    acc
}

/// Squares strictly between `a` and `b` (empty if not aligned).
pub fn between(a: Square, b: Square) -> (r: Bitboard)
    requires
        a.wf(),
        b.wf(),
    ensures
        forall|u: int| #[trigger] mem(r.0, u) == between_spec(a.0 as int, b.0 as int, u),
{
    proof {
        lemma_mem_zero_full();
        lemma_coords(a.0 as int);
        lemma_coords(b.0 as int);
    }
    let af = (a.0 % 8) as i8;
    let ar = (a.0 / 8) as i8;
    let bf = (b.0 % 8) as i8;
    let br = (b.0 / 8) as i8;
    let fd: i8 = if bf > af {
        1
    } else if bf < af {
        -1
    } else {
        0
    };
    let rd: i8 = if br > ar {
        1
    } else if br < ar {
        -1
    } else {
        0
    };
    let aligned = a.0 != b.0 && (fd == 0 || rd == 0 || bf - af == br - ar || bf - af == ar - br);
    if !aligned {
        proof {
            assert forall|u: int| #[trigger] mem(0u64, u) == between_spec(a.0 as int, b.0 as int, u) by {
            }
        }
        return Bitboard(0);
    }
    let bbit = 1u64 << b.0;
    let reach = ray_attacks(a, bbit, fd, rd);
    proof {
        lemma_mem_single(b.0 as u64);
        lemma_mem_ops(reach, !bbit);
        lemma_mem_ops(bbit, 0);
        assert forall|u: int| #[trigger]
            mem(reach & !bbit, u) == between_spec(a.0 as int, b.0 as int, u) by {
            if on_board(u) {
                lemma_coords(u);
                if in_dir(a.0 as int, u, fd as int, rd as int) && u != b.0 {
                    if dist(a.0 as int, u) < dist(a.0 as int, b.0 as int) {
                        assert forall|w: int| #[trigger] between_spec(a.0 as int, u, w) implies !mem(
                            bbit,
                            w,
                        ) by {}
                    } else {
                        assert(between_spec(a.0 as int, u, b.0 as int));
                    }
                }
            }
        }
    }
    Bitboard(reach & !bbit)
}

/// The full line through `a` and `b` (empty if not aligned).
pub fn line(a: Square, b: Square) -> (r: Bitboard)
    requires
        a.wf(),
        b.wf(),
    ensures
        forall|u: int| #[trigger] mem(r.0, u) == line_spec(a.0 as int, b.0 as int, u),
{
    proof {
        lemma_mem_zero_full();
        lemma_coords(a.0 as int);
        lemma_coords(b.0 as int);
    }
    let af = (a.0 % 8) as i8;
    let ar = (a.0 / 8) as i8;
    let bf = (b.0 % 8) as i8;
    let br = (b.0 / 8) as i8;
    let fd: i8 = if bf > af {
        1
    } else if bf < af {
        -1
    } else {
        0
    };
    let rd: i8 = if br > ar {
        1
    } else if br < ar {
        -1
    } else {
        0
    };
    let aligned = a.0 != b.0 && (fd == 0 || rd == 0 || bf - af == br - ar || bf - af == ar - br);
    if !aligned {
        return Bitboard(0);
    }
    let fwd = ray_attacks(a, 0, fd, rd);
    let back = ray_attacks(a, 0, -fd, -rd);
    let abit = 1u64 << a.0;
    proof {
        lemma_mem_single(a.0 as u64);
        lemma_mem_ops(fwd, back);
        lemma_mem_ops(fwd | back, abit);
        assert forall|u: int| #[trigger]
            mem(fwd | back | abit, u) == line_spec(a.0 as int, b.0 as int, u) by {
            if in_dir(a.0 as int, u, fd as int, rd as int) {
                assert forall|w: int| #[trigger] between_spec(a.0 as int, u, w) implies !mem(0u64, w) by {}
            }
            if in_dir(a.0 as int, u, -fd as int, -rd as int) {
                assert forall|w: int| #[trigger] between_spec(a.0 as int, u, w) implies !mem(0u64, w) by {}
            }
        }
    }
    Bitboard(fwd | back | abit)
}

/// Whether `a`, `b`, `c` are colinear (`c` on the line through the aligned
/// squares `a` and `b`).
pub fn aligned(a: Square, b: Square, c: Square) -> (r: bool)
    requires
        a.wf(),
        b.wf(),
        c.wf(),
    ensures
        r == line_spec(a.0 as int, b.0 as int, c.0 as int),
{
    line(a, b).has(c)
}

/// Bishop attacks via ray scan.
pub fn bishop_attacks_classical(sq: Square, occ: Bitboard) -> (r: Bitboard)
    requires
        sq.wf(),
    ensures
        forall|t: int| #[trigger] mem(r.0, t) == bishop_reach(sq.0 as int, t, occ.0),
{
    let x1 = ray_attacks(sq, occ.0, 1, 1);
    let x2 = ray_attacks(sq, occ.0, 1, -1);
    let x3 = ray_attacks(sq, occ.0, -1, 1);
    let x4 = ray_attacks(sq, occ.0, -1, -1);
    proof {
        lemma_mem_ops(x1, x2);
        lemma_mem_ops(x1 | x2, x3);
        lemma_mem_ops(x1 | x2 | x3, x4);
    }
    Bitboard(x1 | x2 | x3 | x4)
}

/// Rook attacks via ray scan.
pub fn rook_attacks_classical(sq: Square, occ: Bitboard) -> (r: Bitboard)
    requires
        sq.wf(),
    ensures
        forall|t: int| #[trigger] mem(r.0, t) == rook_reach(sq.0 as int, t, occ.0),
{
    let x1 = ray_attacks(sq, occ.0, 0, 1);
    let x2 = ray_attacks(sq, occ.0, 0, -1);
    let x3 = ray_attacks(sq, occ.0, 1, 0);
    let x4 = ray_attacks(sq, occ.0, -1, 0);
    proof {
        lemma_mem_ops(x1, x2);
        lemma_mem_ops(x1 | x2, x3);
        lemma_mem_ops(x1 | x2 | x3, x4);
    }
    Bitboard(x1 | x2 | x3 | x4)
}

/// Bishop attacks from `sq` given the full occupancy `occ`.
pub fn bishop_attacks(sq: Square, occ: Bitboard) -> (r: Bitboard)
    requires
        sq.wf(),
    ensures
        forall|t: int| #[trigger] mem(r.0, t) == bishop_reach(sq.0 as int, t, occ.0),
{
    crate::magic::bishop_attacks(sq, occ)
}

/// Rook attacks from `sq` given the full occupancy `occ`.
pub fn rook_attacks(sq: Square, occ: Bitboard) -> (r: Bitboard)
    requires
        sq.wf(),
    ensures
        forall|t: int| #[trigger] mem(r.0, t) == rook_reach(sq.0 as int, t, occ.0),
{
    crate::magic::rook_attacks(sq, occ)
}

/// Queen attacks = bishop and rook attacks together.
pub fn queen_attacks(sq: Square, occ: Bitboard) -> (r: Bitboard)
    requires
        sq.wf(),
    ensures
        forall|t: int| #[trigger]
            mem(r.0, t) == (bishop_reach(sq.0 as int, t, occ.0) || rook_reach(sq.0 as int, t, occ.0)),
{
    let b = bishop_attacks(sq, occ);
    let r = rook_attacks(sq, occ);
    proof {
        lemma_mem_ops(b.0, r.0);
    }
    Bitboard(b.0 | r.0)
}

/// Attacks of an arbitrary piece type (pawns require a color).
pub fn piece_attacks(pt: PieceType, color: Color, sq: Square, occ: Bitboard) -> (r: Bitboard)
    requires
        sq.wf(),
    ensures
        forall|t: int| #[trigger] mem(r.0, t) == attacks_spec(pt, color, sq.0 as int, t, occ.0),
{
    match pt {
        PieceType::Pawn => pawn_attacks(color, sq),
        PieceType::Knight => knight_attacks(sq),
        PieceType::Bishop => bishop_attacks(sq, occ),
        PieceType::Rook => rook_attacks(sq, occ),
        PieceType::Queen => queen_attacks(sq, occ),
        PieceType::King => king_attacks(sq),
    }
}

} // verus!
