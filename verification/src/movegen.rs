//! Move generation.
//!
//! [`Board::pseudo_legal_moves`] enumerates exactly the moves that obey the
//! piece-movement rules (castling fully validated, since "king safe
//! afterwards" cannot see a king that passes through an attacked square);
//! [`Board::legal_moves`] keeps exactly those that do not leave the mover's
//! king attacked.

use crate::attacks::{
    attacks_spec, bishop_attacks, bishop_reach, dfile, iabs, king_attacks, king_rel, knight_attacks,
    knight_rel, on_board, pawn_attacks, pawn_rel, pawn_step, rook_attacks, rook_reach,
};
use crate::bitboard::{Bitboard, lemma_mem_ops, lemma_mem_zero_full, mem, popcount};
use crate::board::{
    Board, BoardState, applicable, attacked, ep_cap_sq, has_king, has_piece, king_sq,
    lemma_occ_word, make_view, occ_word, occupancy_of, occupied_by, pc, rook_dest, rook_home,
    state_wf,
};
use crate::moves::{
    Move, MoveFlag, MoveList, is_capture_flag, is_promo_flag, lemma_move_ext, lemma_move_ranges,
    mflag, mfrom, mto, promo_base, promo_of_flag,
};
use crate::types::{CastlingSide, Color, Piece, PieceType, Rank, Square, opposite, sq_file, sq_rank};
use vstd::prelude::*;

verus! {

/// Rank on which a pawn of `us` promotes.
pub open spec fn promo_rank(us: Color) -> int {
    if us == Color::White {
        7
    } else {
        0
    }
}

/// Rank from which a pawn of `us` may double-push.
pub open spec fn start_rank(us: Color) -> int {
    if us == Color::White {
        1
    } else {
        6
    }
}

/// `to` is `n` pawn steps of `us` straight ahead of `from`.
pub open spec fn pawn_ahead(us: Color, from: int, to: int, n: int) -> bool {
    &&& on_board(from)
    &&& on_board(to)
    &&& sq_file(to) == sq_file(from)
    &&& sq_rank(to) == sq_rank(from) + n * pawn_step(us)
}

/// A pawn push (single, promoting, or double) of `m` in `v`.
pub open spec fn pawn_push_ok(v: BoardState, m: Move) -> bool {
    let us = v.side;
    let from = mfrom(m);
    let to = mto(m);
    let f = mflag(m);
    let promo = sq_rank(to) == promo_rank(us);
    ||| (f == 0 && pawn_ahead(us, from, to, 1) && v.placement[to] is None && !promo)
    ||| (is_promo_flag(f) && !is_capture_flag(f) && pawn_ahead(us, from, to, 1)
        && v.placement[to] is None && promo)
    ||| (f == 1 && sq_rank(from) == start_rank(us) && pawn_ahead(us, from, to, 2)
        && v.placement[to] is None && v.placement[from + 8 * pawn_step(us)] is None)
}

/// A pawn capture (plain or promoting) of `m` in `v`.
pub open spec fn pawn_cap_ok(v: BoardState, m: Move) -> bool {
    let us = v.side;
    let from = mfrom(m);
    let to = mto(m);
    let f = mflag(m);
    let promo = sq_rank(to) == promo_rank(us);
    ||| (f == 4 && pawn_rel(us, from, to) && occupied_by(v, to, opposite(us)) && !promo)
    ||| (is_promo_flag(f) && is_capture_flag(f) && pawn_rel(us, from, to) && occupied_by(
        v,
        to,
        opposite(us),
    ) && promo)
}

/// An en-passant capture of `m` in `v`.
pub open spec fn pawn_ep_ok(v: BoardState, m: Move) -> bool {
    let us = v.side;
    let from = mfrom(m);
    let to = mto(m);
    &&& mflag(m) == 5
    &&& v.ep == Some(to)
    &&& pawn_rel(us, from, to)
    &&& v.placement[to] is None
    &&& v.placement[ep_cap_sq(m)] == Some(pc(opposite(us), PieceType::Pawn))
}

/// A pawn move of `m` in `v` obeys the pawn rules.
pub open spec fn pawn_move_ok(v: BoardState, m: Move) -> bool {
    pawn_push_ok(v, m) || pawn_cap_ok(v, m) || pawn_ep_ok(v, m)
}

/// A quiet move or capture of a piece of type `pt` along its attack set.
pub open spec fn piece_move_ok(v: BoardState, m: Move, pt: PieceType) -> bool {
    let us = v.side;
    let from = mfrom(m);
    let to = mto(m);
    let f = mflag(m);
    let reach = attacks_spec(pt, us, from, to, occ_word(v.placement));
    ||| (f == 0 && reach && v.placement[to] is None)
    ||| (f == 4 && reach && occupied_by(v, to, opposite(us)))
}

/// The king's home square of `us`.
pub open spec fn king_home(us: Color) -> int {
    if us == Color::White {
        4
    } else {
        60
    }
}

/// A castling move of `m` in `v` is allowed: the right is held, king and
/// rook stand on their home squares, the squares between are empty, and the
/// king neither starts on, passes through, nor lands on an attacked square.
pub open spec fn castle_ok(v: BoardState, m: Move) -> bool {
    let us = v.side;
    let them = opposite(us);
    let f = mflag(m);
    let ks = f == 2;
    let home = king_home(us);
    let occ = occ_word(v.placement);
    &&& (f == 2 || f == 3)
    &&& mfrom(m) == home
    &&& mto(m) == if ks {
        home + 2
    } else {
        home - 2
    }
    &&& v.castling & crate::types::castle_bit(
        us,
        if ks {
            CastlingSide::King
        } else {
            CastlingSide::Queen
        },
    ) != 0
    &&& v.placement[home] == Some(pc(us, PieceType::King))
    &&& v.placement[rook_home(us, ks)] == Some(pc(us, PieceType::Rook))
    &&& if ks {
        v.placement[home + 1] is None && v.placement[home + 2] is None
    } else {
        v.placement[home - 1] is None && v.placement[home - 2] is None && v.placement[home - 3]
            is None
    }
    &&& !attacked(v, home, them, occ)
    &&& if ks {
        !attacked(v, home + 1, them, occ) && !attacked(v, home + 2, them, occ)
    } else {
        !attacked(v, home - 1, them, occ) && !attacked(v, home - 2, them, occ)
    }
}

/// `m` is pseudo-legal in `v`: legal except that it may leave the mover's
/// king attacked.
pub open spec fn pseudo_legal(v: BoardState, m: Move) -> bool {
    let from = mfrom(m);
    &&& on_board(from)
    &&& v.placement[from] is Some
    &&& v.placement[from].unwrap().color == v.side
    &&& match v.placement[from].unwrap().piece_type {
        PieceType::Pawn => pawn_move_ok(v, m),
        PieceType::King => (piece_move_ok(v, m, PieceType::King) && from == king_sq(v, v.side))
            || castle_ok(v, m),
        pt => piece_move_ok(v, m, pt),
    }
}

/// `v` with its move clocks reset; legality never depends on the clocks.
pub open spec fn unclocked(v: BoardState) -> BoardState {
    BoardState { halfmove: 0, fullmove: 1, ..v }
}

/// Every pseudo-legal move can be applied (once the clocks are reset).
pub proof fn lemma_pseudo_applicable(v: BoardState, m: Move)
    requires
        state_wf(v),
        pseudo_legal(v, m),
    ensures
        applicable(unclocked(v), m),
{
    lemma_move_ranges(m);
}

/// After a pseudo-legal move the mover still has a king.
pub proof fn lemma_king_survives(v: BoardState, m: Move)
    requires
        state_wf(v),
        pseudo_legal(v, m),
        has_king(v, v.side),
    ensures
        has_king(make_view(unclocked(v), m), v.side),
{
    lemma_move_ranges(m);
    reveal(make_view);
    reveal(crate::board::make_placement);
    let w = make_view(unclocked(v), m);
    let k = choose|s: int| #[trigger] has_piece(v, s, v.side, PieceType::King);
    if k == mfrom(m) {
        assert(has_piece(w, mto(m), v.side, PieceType::King));
    } else {
        assert(has_piece(w, k, v.side, PieceType::King));
    }
}

/// After `m`, the mover's king is attacked.
pub open spec fn leaves_king_attacked(v: BoardState, m: Move) -> bool {
    let w = make_view(unclocked(v), m);
    attacked(w, king_sq(w, v.side), opposite(v.side), occ_word(w.placement))
}

/// `m` is a legal move in `v`.
pub open spec fn legal(v: BoardState, m: Move) -> bool {
    pseudo_legal(v, m) && !leaves_king_attacked(v, m)
}

/// Membership added to a list by pushing one flag's moves from `from` to
/// every square of `targets`.
pub open spec fn pushed(m: Move, from: int, flag: int, targets: u64) -> bool {
    mfrom(m) == from && mflag(m) == flag && mem(targets, mto(m))
}

/// Push `Move(from, to, flag)` for every `to` in `targets`.
fn push_moves_to(list: &mut MoveList, from: Square, targets: Bitboard, flag: u16)
    requires
        from.wf(),
        flag < 16,
    ensures
        forall|m: Move| #[trigger]
            final(list)@.contains(m) == (old(list)@.contains(m) || pushed(
                m,
                from.0 as int,
                flag as int,
                targets.0,
            )),
{
    let mut rest = targets;
    while rest.0 != 0
        invariant
            from.wf(),
            flag < 16,
            forall|s: int| #[trigger] mem(rest.0, s) ==> mem(targets.0, s),
            forall|m: Move| #[trigger]
                list@.contains(m) == (old(list)@.contains(m) || (pushed(
                    m,
                    from.0 as int,
                    flag as int,
                    targets.0,
                ) && !mem(rest.0, mto(m)))),
        decreases popcount(rest.0),
    {
        let ghost before = list@;
        let ghost r0 = rest.0;
        let to = rest.pop_lsb().unwrap();
        let mv = Move::new_raw(from, to, flag);
        list.push(mv);
        proof {
            assert forall|m: Move| #[trigger]
                list@.contains(m) == (old(list)@.contains(m) || (pushed(
                    m,
                    from.0 as int,
                    flag as int,
                    targets.0,
                ) && !mem(rest.0, mto(m)))) by {
                if list@.contains(m) && !before.contains(m) {
                    let i = choose|i: int| 0 <= i < list@.len() && list@[i] == m;
                    assert(i == before.len());
                }
                if m == mv {
                    assert(list@[before.len() as int] == mv);
                }
                if pushed(m, from.0 as int, flag as int, targets.0) && !mem(rest.0, mto(m)) && mem(
                    r0,
                    mto(m),
                ) {
                    assert(mto(m) == to.0);
                    lemma_move_ext(m, mv);
                    assert(list@[before.len() as int] == mv);
                }
                if before.contains(m) {
                    let i = choose|i: int| 0 <= i < before.len() && before[i] == m;
                    assert(list@[i] == m);
                }
            }
        }
    }
    proof {
        lemma_mem_zero_full();
    }
}

/// The quiet/capture rule of a piece whose attack relation to the target is
/// `reach`.
pub open spec fn step_ok(v: BoardState, m: Move, reach: bool) -> bool {
    ||| (mflag(m) == 0 && reach && v.placement[mto(m)] is None)
    ||| (mflag(m) == 4 && reach && occupied_by(v, mto(m), opposite(v.side)))
}

/// The moves `add_piece_moves` adds for a piece on `from` whose attack set is
/// `att`.
pub open spec fn piece_moves_from(v: BoardState, m: Move, from: int, att: u64) -> bool {
    mfrom(m) == from && step_ok(v, m, mem(att, mto(m)))
}

impl Board {
    /// Add quiet moves to the empty squares and captures of the enemy pieces
    /// among `att`, for a piece standing on `from`.
    fn add_piece_moves(&self, from: Square, att: Bitboard, list: &mut MoveList)
        requires
            self.wf(),
            from.wf(),
        ensures
            forall|m: Move| #[trigger]
                final(list)@.contains(m) == (old(list)@.contains(m) || piece_moves_from(
                    self@,
                    m,
                    from.0 as int,
                    att.0,
                )),
    {
        let us = self.side_to_move();
        let own = self.color_bb(us);
        let enemy = self.color_bb(us.flip());
        let targets = att.minus(own);
        let quiets = targets.minus(enemy);
        let caps = targets.and(enemy);
        push_moves_to(list, from, quiets, 0);
        push_moves_to(list, from, caps, 4);
        proof {
            lemma_mem_ops(att.0, !own.0);
            lemma_mem_ops(own.0, 0);
            lemma_mem_ops(targets.0, !enemy.0);
            lemma_mem_ops(enemy.0, 0);
            lemma_mem_ops(targets.0, enemy.0);
            assert forall|m: Move| #[trigger]
                list@.contains(m) == (old(list)@.contains(m) || piece_moves_from(
                    self@,
                    m,
                    from.0 as int,
                    att.0,
                )) by {
                lemma_move_ranges(m);
                let t = mto(m);
                assert(mem(own.0, t) == occupied_by(self@, t, us));
                assert(mem(enemy.0, t) == occupied_by(self@, t, opposite(us)));
                assert(mem(quiets.0, t) == mem(quiets.0, t));
                assert(mem(caps.0, t) == mem(caps.0, t));
            }
        }
    }

    fn gen_knight_moves(&self, list: &mut MoveList)
        requires
            self.wf(),
        ensures
            forall|m: Move| #[trigger]
                final(list)@.contains(m) == (old(list)@.contains(m) || (has_piece(
                    self@,
                    mfrom(m),
                    self@.side,
                    PieceType::Knight,
                ) && piece_move_ok(self@, m, PieceType::Knight))),
    {
        let us = self.side_to_move();
        let knights0 = self.pieces_colored(PieceType::Knight, us);
        let mut knights = knights0;
        let ghost occ = occ_word(self@.placement);
        while knights.0 != 0
            invariant
                self.wf(),
                us == self@.side,
                occ == occ_word(self@.placement),
                forall|s: int| #[trigger] mem(knights.0, s) ==> mem(knights0.0, s),
                forall|s: int| #[trigger] mem(knights0.0, s) == has_piece(self@, s, us, PieceType::Knight),
                forall|m: Move| #[trigger]
                    list@.contains(m) == (old(list)@.contains(m) || (has_piece(
                        self@,
                        mfrom(m),
                        us,
                        PieceType::Knight,
                    ) && piece_move_ok(self@, m, PieceType::Knight) && !mem(knights.0, mfrom(m)))),
            decreases popcount(knights.0),
        {
            let ghost k0 = knights.0;
            let from = knights.pop_lsb().unwrap();
            let att = knight_attacks(from);
            self.add_piece_moves(from, att, list);
            proof {
                assert forall|m: Move| #[trigger]
                    list@.contains(m) == (old(list)@.contains(m) || (has_piece(
                        self@,
                        mfrom(m),
                        us,
                        PieceType::Knight,
                    ) && piece_move_ok(self@, m, PieceType::Knight) && !mem(knights.0, mfrom(m)))) by {
                    if mfrom(m) == from.0 {
                        assert(mem(att.0, mto(m)) == knight_rel(from.0 as int, mto(m)));
                    }
                }
            }
        }
        proof {
            lemma_mem_zero_full();
        }
    }

    fn gen_king_moves(&self, list: &mut MoveList)
        requires
            self.wf(),
            has_king(self@, self@.side),
        ensures
            forall|m: Move| #[trigger]
                final(list)@.contains(m) == (old(list)@.contains(m) || (mfrom(m) == king_sq(
                    self@,
                    self@.side,
                ) && piece_move_ok(self@, m, PieceType::King))),
    {
        let us = self.side_to_move();
        let from = self.king_square(us);
        let att = king_attacks(from);
        self.add_piece_moves(from, att, list);
        proof {
            assert forall|m: Move| #[trigger]
                list@.contains(m) == (old(list)@.contains(m) || (mfrom(m) == king_sq(
                    self@,
                    self@.side,
                ) && piece_move_ok(self@, m, PieceType::King))) by {
                if mfrom(m) == from.0 {
                    assert(mem(att.0, mto(m)) == king_rel(from.0 as int, mto(m)));
                }
            }
        }
    }

    /// Moves of the side's bishops and queens along diagonals.
    fn gen_diagonal_moves(&self, list: &mut MoveList)
        requires
            self.wf(),
        ensures
            forall|m: Move| #[trigger]
                final(list)@.contains(m) == (old(list)@.contains(m) || ((has_piece(
                    self@,
                    mfrom(m),
                    self@.side,
                    PieceType::Bishop,
                ) || has_piece(self@, mfrom(m), self@.side, PieceType::Queen)) && step_ok(
                    self@,
                    m,
                    bishop_reach(mfrom(m), mto(m), occ_word(self@.placement)),
                ))),
    {
        let us = self.side_to_move();
        let occ = self.occupied();
        proof {
            lemma_occ_word(self@.placement);
            crate::bitboard::lemma_mem_ext(occ.0, occ_word(self@.placement));
        }
        let b = self.pieces_colored(PieceType::Bishop, us);
        let q = self.pieces_colored(PieceType::Queen, us);
        let set0 = b.or(q);
        proof {
            lemma_mem_ops(b.0, q.0);
        }
        let mut rest = set0;
        while rest.0 != 0
            invariant
                self.wf(),
                us == self@.side,
                occ.0 == occ_word(self@.placement),
                forall|s: int| #[trigger] mem(rest.0, s) ==> mem(set0.0, s),
                forall|s: int| #[trigger]
                    mem(set0.0, s) == (has_piece(self@, s, us, PieceType::Bishop) || has_piece(
                        self@,
                        s,
                        us,
                        PieceType::Queen,
                    )),
                forall|m: Move| #[trigger]
                    list@.contains(m) == (old(list)@.contains(m) || (mem(set0.0, mfrom(m))
                        && step_ok(self@, m, bishop_reach(mfrom(m), mto(m), occ.0)) && !mem(
                        rest.0,
                        mfrom(m),
                    ))),
            decreases popcount(rest.0),
        {
            let from = rest.pop_lsb().unwrap();
            let att = bishop_attacks(from, occ);
            self.add_piece_moves(from, att, list);
        }
        proof {
            lemma_mem_zero_full();
            lemma_mem_ops(b.0, q.0);
        }
    }

    /// Moves of the side's rooks and queens along ranks and files.
    fn gen_straight_moves(&self, list: &mut MoveList)
        requires
            self.wf(),
        ensures
            forall|m: Move| #[trigger]
                final(list)@.contains(m) == (old(list)@.contains(m) || ((has_piece(
                    self@,
                    mfrom(m),
                    self@.side,
                    PieceType::Rook,
                ) || has_piece(self@, mfrom(m), self@.side, PieceType::Queen)) && step_ok(
                    self@,
                    m,
                    rook_reach(mfrom(m), mto(m), occ_word(self@.placement)),
                ))),
    {
        let us = self.side_to_move();
        let occ = self.occupied();
        proof {
            lemma_occ_word(self@.placement);
            crate::bitboard::lemma_mem_ext(occ.0, occ_word(self@.placement));
        }
        let r = self.pieces_colored(PieceType::Rook, us);
        let q = self.pieces_colored(PieceType::Queen, us);
        let set0 = r.or(q);
        proof {
            lemma_mem_ops(r.0, q.0);
        }
        let mut rest = set0;
        while rest.0 != 0
            invariant
                self.wf(),
                us == self@.side,
                occ.0 == occ_word(self@.placement),
                forall|s: int| #[trigger] mem(rest.0, s) ==> mem(set0.0, s),
                forall|s: int| #[trigger]
                    mem(set0.0, s) == (has_piece(self@, s, us, PieceType::Rook) || has_piece(
                        self@,
                        s,
                        us,
                        PieceType::Queen,
                    )),
                forall|m: Move| #[trigger]
                    list@.contains(m) == (old(list)@.contains(m) || (mem(set0.0, mfrom(m))
                        && step_ok(self@, m, rook_reach(mfrom(m), mto(m), occ.0)) && !mem(
                        rest.0,
                        mfrom(m),
                    ))),
            decreases popcount(rest.0),
        {
            let from = rest.pop_lsb().unwrap();
            let att = rook_attacks(from, occ);
            self.add_piece_moves(from, att, list);
        }
        proof {
            lemma_mem_zero_full();
            lemma_mem_ops(r.0, q.0);
        }
    }
}

/// Push the four promotions from `from` to `to` (capturing or not).
fn push_promotions(list: &mut MoveList, from: Square, to: Square, capture: bool)
    requires
        from.wf(),
        to.wf(),
    ensures
        forall|m: Move| #[trigger]
            final(list)@.contains(m) == (old(list)@.contains(m) || (mfrom(m) == from.0 && mto(m)
                == to.0 && is_promo_flag(mflag(m)) && is_capture_flag(mflag(m)) == capture)),
{
    let ghost l0 = list@;
    let m1 = Move::promotion(from, to, PieceType::Queen, capture);
    let m2 = Move::promotion(from, to, PieceType::Rook, capture);
    let m3 = Move::promotion(from, to, PieceType::Bishop, capture);
    let m4 = Move::promotion(from, to, PieceType::Knight, capture);
    list.push(m1);
    list.push(m2);
    list.push(m3);
    list.push(m4);
    proof {
        let n = l0.len() as int;
        assert(list@ == l0.push(m1).push(m2).push(m3).push(m4));
        assert forall|m: Move| #[trigger]
            list@.contains(m) == (l0.contains(m) || (mfrom(m) == from.0 && mto(m) == to.0
                && is_promo_flag(mflag(m)) && is_capture_flag(mflag(m)) == capture)) by {
            lemma_move_ranges(m);
            if list@.contains(m) {
                let i = choose|i: int| 0 <= i < list@.len() && list@[i] == m;
                if i < n {
                    assert(l0[i] == m);
                }
            }
            if l0.contains(m) {
                let i = choose|i: int| 0 <= i < l0.len() && l0[i] == m;
                assert(list@[i] == m);
            }
            if mfrom(m) == from.0 && mto(m) == to.0 && is_promo_flag(mflag(m))
                && is_capture_flag(mflag(m)) == capture {
                let f = mflag(m);
                let base = if capture { 12int } else { 8int };
                if f == base {
                    lemma_move_ext(m, m4);
                    assert(list@[n + 3] == m);
                } else if f == base + 1 {
                    lemma_move_ext(m, m3);
                    assert(list@[n + 2] == m);
                } else if f == base + 2 {
                    lemma_move_ext(m, m2);
                    assert(list@[n + 1] == m);
                } else {
                    lemma_move_ext(m, m1);
                    assert(list@[n] == m);
                }
            }
        }
    }
}

/// Push one move.
fn push_one(list: &mut MoveList, mv: Move)
    ensures
        forall|m: Move| #[trigger] final(list)@.contains(m) == (old(list)@.contains(m) || m == mv),
        final(list)@ == old(list)@.push(mv),
{
    let ghost l0 = list@;
    list.push(mv);
    proof {
        assert forall|m: Move| #[trigger] list@.contains(m) == (l0.contains(m) || m == mv) by {
            if list@.contains(m) {
                let i = choose|i: int| 0 <= i < list@.len() && list@[i] == m;
                if i < l0.len() {
                    assert(l0[i] == m);
                }
            }
            if l0.contains(m) {
                let i = choose|i: int| 0 <= i < l0.len() && l0[i] == m;
                assert(list@[i] == m);
            }
            if m == mv {
                assert(list@[l0.len() as int] == m);
            }
        }
    }
}

impl Board {
    /// The pushes of the pawn on `from`.
    fn gen_pawn_pushes(&self, from: Square, list: &mut MoveList)
        requires
            self.wf(),
            from.wf(),
        ensures
            forall|m: Move| #[trigger]
                final(list)@.contains(m) == (old(list)@.contains(m) || (mfrom(m) == from.0
                    && pawn_push_ok(self@, m))),
    {
        let us = self.side_to_move();
        let (promo_rank, start_rank): (u8, u8) = match us {
            Color::White => (7, 1),
            Color::Black => (0, 6),
        };
        let r = from.rank().0;
        let f = from.file();
        let ghost v = self@;
        let ghost l0 = list@;
        proof {
            assert forall|m: Move| mfrom(m) == from.0 && #[trigger] pawn_push_ok(v, m) implies mto(m)
                == from.0 + 8 * pawn_step(us) || (mflag(m) == 1 && mto(m) == from.0 + 16
                * pawn_step(us)) by {
                lemma_move_ranges(m);
            }
        }
        if (us == Color::White && r == 7) || (us == Color::Black && r == 0) {
            proof {
                assert forall|m: Move| #[trigger]
                    list@.contains(m) == (l0.contains(m) || (mfrom(m) == from.0 && pawn_push_ok(
                        v,
                        m,
                    ))) by {
                    lemma_move_ranges(m);
                }
            }
            return;
        }
        let r1: u8 = match us {
            Color::White => r + 1,
            Color::Black => r - 1,
        };
        let one = Square::make(f, Rank(r1));
        if self.piece_at(one).is_some() {
            proof {
                assert forall|m: Move| #[trigger]
                    list@.contains(m) == (l0.contains(m) || (mfrom(m) == from.0 && pawn_push_ok(
                        v,
                        m,
                    ))) by {
                    lemma_move_ranges(m);
                }
            }
            return;
        }
        if r1 == promo_rank {
            push_promotions(list, from, one, false);
            proof {
                assert forall|m: Move| #[trigger]
                    list@.contains(m) == (l0.contains(m) || (mfrom(m) == from.0 && pawn_push_ok(
                        v,
                        m,
                    ))) by {
                    lemma_move_ranges(m);
                }
            }
        } else {
            let q = Move::quiet(from, one);
            push_one(list, q);
            let ghost l1 = list@;
            if r == start_rank {
                let r2: u8 = match us {
                    Color::White => r + 2,
                    Color::Black => r - 2,
                };
                let two = Square::make(f, Rank(r2));
                if self.piece_at(two).is_none() {
                    let d = Move::double_push(from, two);
                    push_one(list, d);
                    proof {
                        assert forall|m: Move| #[trigger]
                            list@.contains(m) == (l0.contains(m) || (mfrom(m) == from.0
                                && pawn_push_ok(v, m))) by {
                            lemma_move_ranges(m);
                            if mfrom(m) == from.0 && pawn_push_ok(v, m) {
                                if mflag(m) == 1 {
                                    lemma_move_ext(m, d);
                                } else {
                                    lemma_move_ext(m, q);
                                }
                            }
                        }
                    }
                } else {
                    proof {
                        assert forall|m: Move| #[trigger]
                            list@.contains(m) == (l0.contains(m) || (mfrom(m) == from.0
                                && pawn_push_ok(v, m))) by {
                            lemma_move_ranges(m);
                            if mfrom(m) == from.0 && pawn_push_ok(v, m) {
                                lemma_move_ext(m, q);
                            }
                        }
                    }
                }
            } else {
                proof {
                    assert forall|m: Move| #[trigger]
                        list@.contains(m) == (l0.contains(m) || (mfrom(m) == from.0
                            && pawn_push_ok(v, m))) by {
                        lemma_move_ranges(m);
                        if mfrom(m) == from.0 && pawn_push_ok(v, m) {
                            lemma_move_ext(m, q);
                        }
                    }
                }
            }
        }
    }
}

impl Board {
    /// The captures (plain and promoting) of the pawn on `from`.
    fn gen_pawn_captures(&self, from: Square, list: &mut MoveList)
        requires
            self.wf(),
            from.wf(),
        ensures
            forall|m: Move| #[trigger]
                final(list)@.contains(m) == (old(list)@.contains(m) || (mfrom(m) == from.0
                    && pawn_cap_ok(self@, m))),
    {
        let us = self.side_to_move();
        let pr: u8 = match us {
            Color::White => 7,
            Color::Black => 0,
        };
        let att = pawn_attacks(us, from);
        let enemy = self.color_bb(us.flip());
        let caps0 = att.and(enemy);
        let mut caps = caps0;
        let ghost v = self@;
        let ghost l0 = list@;
        proof {
            lemma_mem_ops(att.0, enemy.0);
        }
        while caps.0 != 0
            invariant
                self.wf(),
                v == self@,
                us == v.side,
                from.wf(),
                pr == promo_rank(us),
                forall|s: int| #[trigger] mem(caps.0, s) ==> mem(caps0.0, s),
                forall|s: int| #[trigger]
                    mem(caps0.0, s) == (pawn_rel(us, from.0 as int, s) && occupied_by(
                        v,
                        s,
                        opposite(us),
                    )),
                forall|m: Move| #[trigger]
                    list@.contains(m) == (l0.contains(m) || (mfrom(m) == from.0 && pawn_cap_ok(
                        v,
                        m,
                    ) && !mem(caps.0, mto(m)))),
            decreases popcount(caps.0),
        {
            let ghost c0 = caps.0;
            let ghost lb = list@;
            let to = caps.pop_lsb().unwrap();
            if to.rank().0 == pr {
                push_promotions(list, from, to, true);
            } else {
                let c = Move::capture(from, to);
                push_one(list, c);
                proof {
                    assert forall|m: Move| #[trigger]
                        list@.contains(m) == (lb.contains(m) || (mfrom(m) == from.0 && mto(m)
                            == to.0 && pawn_cap_ok(v, m))) by {
                        lemma_move_ranges(m);
                        if mfrom(m) == from.0 && mto(m) == to.0 && pawn_cap_ok(v, m) {
                            lemma_move_ext(m, c);
                        }
                    }
                }
            }
            proof {
                assert forall|m: Move| #[trigger]
                    list@.contains(m) == (l0.contains(m) || (mfrom(m) == from.0 && pawn_cap_ok(
                        v,
                        m,
                    ) && !mem(caps.0, mto(m)))) by {
                    lemma_move_ranges(m);
                    assert(mem(c0, mto(m)) == mem(c0, mto(m)));
                }
            }
        }
        proof {
            lemma_mem_zero_full();
        }
    }

    /// The en-passant capture of the pawn on `from`, if any.
    fn gen_pawn_ep(&self, from: Square, list: &mut MoveList)
        requires
            self.wf(),
            from.wf(),
        ensures
            forall|m: Move| #[trigger]
                final(list)@.contains(m) == (old(list)@.contains(m) || (mfrom(m) == from.0
                    && pawn_ep_ok(self@, m))),
    {
        let us = self.side_to_move();
        let ghost v = self@;
        let ghost l0 = list@;
        match self.en_passant_square() {
            Some(ep) => {
                let att = pawn_attacks(us, from);
                if att.has(ep) && self.piece_at(ep).is_none() {
                    let cap_sq = Square::make(ep.file(), from.rank());
                    let want = Piece::new(us.flip(), PieceType::Pawn);
                    let there = self.piece_at(cap_sq);
                    let ok = match there {
                        Some(p) => p == want,
                        None => false,
                    };
                    if ok {
                        let e = Move::en_passant(from, ep);
                        push_one(list, e);
                        proof {
                            assert forall|m: Move| #[trigger]
                                list@.contains(m) == (l0.contains(m) || (mfrom(m) == from.0
                                    && pawn_ep_ok(v, m))) by {
                                lemma_move_ranges(m);
                                if mfrom(m) == from.0 && pawn_ep_ok(v, m) {
                                    lemma_move_ext(m, e);
                                }
                            }
                        }
                        return;
                    }
                }
            },
            None => {},
        }
        proof {
            assert forall|m: Move| #[trigger]
                list@.contains(m) == (l0.contains(m) || (mfrom(m) == from.0 && pawn_ep_ok(v, m))) by {
                lemma_move_ranges(m);
            }
        }
    }

    fn gen_pawn_moves(&self, list: &mut MoveList)
        requires
            self.wf(),
        ensures
            forall|m: Move| #[trigger]
                final(list)@.contains(m) == (old(list)@.contains(m) || (has_piece(
                    self@,
                    mfrom(m),
                    self@.side,
                    PieceType::Pawn,
                ) && pawn_move_ok(self@, m))),
    {
        let us = self.side_to_move();
        let pawns0 = self.pieces_colored(PieceType::Pawn, us);
        let mut pawns = pawns0;
        while pawns.0 != 0
            invariant
                self.wf(),
                us == self@.side,
                forall|s: int| #[trigger] mem(pawns.0, s) ==> mem(pawns0.0, s),
                forall|s: int| #[trigger] mem(pawns0.0, s) == has_piece(self@, s, us, PieceType::Pawn),
                forall|m: Move| #[trigger]
                    list@.contains(m) == (old(list)@.contains(m) || (has_piece(
                        self@,
                        mfrom(m),
                        us,
                        PieceType::Pawn,
                    ) && pawn_move_ok(self@, m) && !mem(pawns.0, mfrom(m)))),
            decreases popcount(pawns.0),
        {
            let from = pawns.pop_lsb().unwrap();
            self.gen_pawn_pushes(from, list);
            self.gen_pawn_captures(from, list);
            self.gen_pawn_ep(from, list);
        }
        proof {
            lemma_mem_zero_full();
        }
    }
}

impl Board {
    /// Push the castling moves available to the side to move.
    fn gen_castling(&self, list: &mut MoveList)
        requires
            self.wf(),
        ensures
            forall|m: Move| #[trigger]
                final(list)@.contains(m) == (old(list)@.contains(m) || castle_ok(self@, m)),
    {
        let ghost l0 = list@;
        self.gen_castle_side(list, true);
        self.gen_castle_side(list, false);
        proof {
            assert forall|m: Move| #[trigger]
                list@.contains(m) == (l0.contains(m) || castle_ok(self@, m)) by {
                lemma_move_ranges(m);
            }
        }
    }

    fn gen_castle_side(&self, list: &mut MoveList, king_side: bool)
        requires
            self.wf(),
        ensures
            forall|m: Move| #[trigger]
                final(list)@.contains(m) == (old(list)@.contains(m) || (castle_ok(self@, m) && (
                mflag(m) == 2) == king_side)),
    {
        let ghost v = self@;
        let ghost l0 = list@;
        let us = self.side_to_move();
        let them = us.flip();
        let home: u8 = match us {
            Color::White => 4,
            Color::Black => 60,
        };
        let side = if king_side {
            CastlingSide::King
        } else {
            CastlingSide::Queen
        };
        let rook_sq: u8 = match (us, king_side) {
            (Color::White, true) => 7,
            (Color::White, false) => 0,
            (Color::Black, true) => 63,
            (Color::Black, false) => 56,
        };
        let ok = self.castle_side_ok(us, them, home, rook_sq, side, king_side);
        if ok {
            let to = if king_side {
                Square(home + 2)
            } else {
                Square(home - 2)
            };
            let flag = if king_side {
                MoveFlag::KingCastle
            } else {
                MoveFlag::QueenCastle
            };
            let mv = Move::new(Square(home), to, flag);
            push_one(list, mv);
            proof {
                assert forall|m: Move| #[trigger]
                    list@.contains(m) == (l0.contains(m) || (castle_ok(v, m) && (mflag(m) == 2)
                        == king_side)) by {
                    lemma_move_ranges(m);
                    if castle_ok(v, m) && (mflag(m) == 2) == king_side {
                        lemma_move_ext(m, mv);
                    }
                }
            }
        } else {
            proof {
                assert forall|m: Move| #[trigger]
                    list@.contains(m) == (l0.contains(m) || (castle_ok(v, m) && (mflag(m) == 2)
                        == king_side)) by {
                    lemma_move_ranges(m);
                }
            }
        }
    }

    /// The conditions of castling on one side, checked square by square.
    fn castle_side_ok(
        &self,
        us: Color,
        them: Color,
        home: u8,
        rook_sq: u8,
        side: CastlingSide,
        king_side: bool,
    ) -> (r: bool)
        requires
            self.wf(),
            us == self@.side,
            them == opposite(us),
            home == king_home(us),
            rook_sq == rook_home(us, king_side),
            side == (if king_side {
                CastlingSide::King
            } else {
                CastlingSide::Queen
            }),
        ensures
            r == {
                let occ = occ_word(self@.placement);
                let v = self@;
                &&& v.castling & crate::types::castle_bit(us, side) != 0
                &&& v.placement[home as int] == Some(pc(us, PieceType::King))
                &&& v.placement[rook_sq as int] == Some(pc(us, PieceType::Rook))
                &&& if king_side {
                    v.placement[home + 1] is None && v.placement[home + 2] is None
                } else {
                    v.placement[home - 1] is None && v.placement[home - 2] is None
                        && v.placement[home - 3] is None
                }
                &&& !attacked(v, home as int, them, occ)
                &&& if king_side {
                    !attacked(v, home + 1, them, occ) && !attacked(v, home + 2, them, occ)
                } else {
                    !attacked(v, home - 1, them, occ) && !attacked(v, home - 2, them, occ)
                }
            },
    {
        if !self.has_castling_right(us, side) {
            return false;
        }
        let king = Piece::new(us, PieceType::King);
        let rook = Piece::new(us, PieceType::Rook);
        match self.piece_at(Square(home)) {
            Some(p) => {
                if p != king {
                    return false;
                }
            },
            None => {
                return false;
            },
        }
        match self.piece_at(Square(rook_sq)) {
            Some(p) => {
                if p != rook {
                    return false;
                }
            },
            None => {
                return false;
            },
        }
        if king_side {
            if self.piece_at(Square(home + 1)).is_some() || self.piece_at(Square(home + 2)).is_some() {
                return false;
            }
        } else {
            if self.piece_at(Square(home - 1)).is_some() || self.piece_at(Square(home - 2)).is_some()
                || self.piece_at(Square(home - 3)).is_some() {
                return false;
            }
        }
        let occ = self.occupied();
        proof {
            lemma_occ_word(self@.placement);
            crate::bitboard::lemma_mem_ext(occ.0, occ_word(self@.placement));
        }
        if self.is_attacked(Square(home), them, occ) {
            return false;
        }
        let (s1, s2) = if king_side {
            (Square(home + 1), Square(home + 2))
        } else {
            (Square(home - 1), Square(home - 2))
        };
        !self.is_attacked(s1, them, occ) && !self.is_attacked(s2, them, occ)
    }

    /// All pseudo-legal moves for the side to move.
    pub fn pseudo_legal_moves(&self) -> (r: MoveList)
        requires
            self.valid(),
        ensures
            forall|m: Move| #[trigger] r@.contains(m) == pseudo_legal(self@, m),
    {
        let mut list = MoveList::new();
        self.gen_pawn_moves(&mut list);
        self.gen_knight_moves(&mut list);
        self.gen_diagonal_moves(&mut list);
        self.gen_straight_moves(&mut list);
        self.gen_king_moves(&mut list);
        self.gen_castling(&mut list);
        proof {
            let v = self@;
            assert forall|m: Move| #[trigger] list@.contains(m) == pseudo_legal(v, m) by {
                lemma_move_ranges(m);
                let from = mfrom(m);
                if mfrom(m) == king_sq(v, v.side) {
                    assert(has_piece(v, from, v.side, PieceType::King));
                }
                if castle_ok(v, m) {
                    assert(has_piece(v, from, v.side, PieceType::King));
                }
            }
        }
        list
    }

    /// Whether `mv` (pseudo-legal here) leaves the mover's king attacked.
    fn leaves_king_in_check(&self, mv: Move) -> (r: bool)
        requires
            self.valid(),
            pseudo_legal(self@, mv),
        ensures
            r == leaves_king_attacked(self@, mv),
    {
        let us = self.side_to_move();
        let mut scratch = self.without_clocks();
        proof {
            self.lemma_state_wf_valid();
            lemma_pseudo_applicable(self@, mv);
            lemma_king_survives(self@, mv);
        }
        scratch.make_move(mv);
        proof {
            scratch.lemma_inv_wf();
        }
        let king = scratch.king_square(us);
        let occ = scratch.occupied();
        proof {
            lemma_occ_word(scratch@.placement);
            crate::bitboard::lemma_mem_ext(occ.0, occ_word(scratch@.placement));
        }
        scratch.is_attacked(king, us.flip(), occ)
    }

    /// Push every legal move of the side to move onto `list` (each once:
    /// a move the list already holds is not pushed again), in generation
    /// order.
    pub fn generate_legal(&self, list: &mut MoveList)
        requires
            self.valid(),
        ensures
            forall|m: Move| #[trigger]
                final(list)@.contains(m) == (old(list)@.contains(m) || legal(self@, m)),
            old(list)@.no_duplicates() ==> final(list)@.no_duplicates(),
    {
        let pseudo = self.pseudo_legal_moves();
        let n = pseudo.len();
        let mut i: usize = 0;
        while i < n
            invariant
                self.valid(),
                n == pseudo@.len(),
                i <= n,
                forall|m: Move| #[trigger] pseudo@.contains(m) == pseudo_legal(self@, m),
                forall|m: Move| #[trigger]
                    list@.contains(m) == (old(list)@.contains(m) || (legal(self@, m) && exists|
                        j: int,
                    | 0 <= j < i && pseudo@[j] == m)),
                old(list)@.no_duplicates() ==> list@.no_duplicates(),
            decreases n - i,
        {
            let mv = pseudo.get(i);
            proof {
                assert(pseudo@.contains(mv));
            }
            let ghost lb = list@;
            if !self.leaves_king_in_check(mv) && !list.contains(mv) {
                push_one(list, mv);
                proof {
                    if old(list)@.no_duplicates() {
                        assert forall|a: int, b: int|
                            0 <= a < list@.len() && 0 <= b < list@.len() && a != b implies
                            list@[a] != list@[b] by {
                            if a == lb.len() {
                                assert(lb.contains(list@[b]));
                            } else if b == lb.len() {
                                assert(lb.contains(list@[a]));
                            } else {
                                assert(lb[a] != lb[b]);
                            }
                        }
                    }
                }
            }
            proof {
                assert forall|m: Move| #[trigger]
                    list@.contains(m) == (old(list)@.contains(m) || (legal(self@, m) && exists|
                        j: int,
                    | 0 <= j < i + 1 && pseudo@[j] == m)) by {
                    if legal(self@, m) && exists|j: int| 0 <= j < i + 1 && pseudo@[j] == m {
                        let j = choose|j: int| 0 <= j < i + 1 && pseudo@[j] == m;
                        if j < i {
                            assert(exists|j: int| 0 <= j < i && pseudo@[j] == m);
                        }
                    }
                    if legal(self@, m) && exists|j: int| 0 <= j < i && pseudo@[j] == m {
                        let j = choose|j: int| 0 <= j < i && pseudo@[j] == m;
                        assert(0 <= j < i + 1 && pseudo@[j] == m);
                    }
                    if m == mv {
                        assert(pseudo@[i as int] == m);
                    }
                }
            }
            i = i + 1;
        }
        proof {
            assert forall|m: Move| #[trigger]
                list@.contains(m) == (old(list)@.contains(m) || legal(self@, m)) by {
                if legal(self@, m) {
                    assert(pseudo@.contains(m));
                    let j = choose|j: int| 0 <= j < pseudo@.len() && pseudo@[j] == m;
                    assert(0 <= j < n && pseudo@[j] == m);
                }
            }
        }
    }

    /// The legal captures and promotions of the side to move, in generation
    /// order (the tactical moves that `legal_moves` lists, in its order).
    pub fn legal_tactical_moves(&self) -> (r: MoveList)
        requires
            self.valid(),
        ensures
            forall|m: Move| #[trigger]
                r@.contains(m) == (legal(self@, m) && (is_capture_flag(mflag(m)) || is_promo_flag(
                    mflag(m),
                ))),
    {
        let mut list = MoveList::new();
        let pseudo = self.pseudo_legal_moves();
        let n = pseudo.len();
        let mut i: usize = 0;
        while i < n
            invariant
                self.valid(),
                n == pseudo@.len(),
                i <= n,
                forall|m: Move| #[trigger] pseudo@.contains(m) == pseudo_legal(self@, m),
                forall|m: Move| #[trigger]
                    list@.contains(m) == (legal(self@, m) && (is_capture_flag(mflag(m))
                        || is_promo_flag(mflag(m))) && exists|j: int| 0 <= j < i && pseudo@[j] == m),
            decreases n - i,
        {
            let mv = pseudo.get(i);
            proof {
                assert(pseudo@.contains(mv));
            }
            if (mv.is_capture() || mv.is_promotion()) && !self.leaves_king_in_check(mv) {
                push_one(&mut list, mv);
            }
            proof {
                assert forall|m: Move| #[trigger]
                    list@.contains(m) == (legal(self@, m) && (is_capture_flag(mflag(m))
                        || is_promo_flag(mflag(m))) && exists|j: int| 0 <= j < i + 1 && pseudo@[j] == m) by {
                    if exists|j: int| 0 <= j < i + 1 && pseudo@[j] == m {
                        let j = choose|j: int| 0 <= j < i + 1 && pseudo@[j] == m;
                        if j < i {
                            assert(exists|j: int| 0 <= j < i && pseudo@[j] == m);
                        }
                    }
                    if exists|j: int| 0 <= j < i && pseudo@[j] == m {
                        let j = choose|j: int| 0 <= j < i && pseudo@[j] == m;
                        assert(0 <= j < i + 1 && pseudo@[j] == m);
                    }
                    if m == mv {
                        assert(pseudo@[i as int] == m);
                    }
                }
            }
            i = i + 1;
        }
        proof {
            assert forall|m: Move| #[trigger]
                list@.contains(m) == (legal(self@, m) && (is_capture_flag(mflag(m)) || is_promo_flag(
                    mflag(m),
                ))) by {
                if legal(self@, m) {
                    assert(pseudo@.contains(m));
                    let j = choose|j: int| 0 <= j < pseudo@.len() && pseudo@[j] == m;
                    assert(0 <= j < n && pseudo@[j] == m);
                }
            }
        }
        list
    }

    /// All fully-legal moves for the side to move, each exactly once.
    pub fn legal_moves(&self) -> (r: MoveList)
        requires
            self.valid(),
        ensures
            forall|m: Move| #[trigger] r@.contains(m) == legal(self@, m),
            r@.no_duplicates(),
    {
        let mut list = MoveList::new();
        proof {
            assert(list@.no_duplicates());
        }
        self.generate_legal(&mut list);
        list
    }

    /// The legal moves by the plain filter: pseudo-legal moves kept when
    /// the mover's king is safe afterwards, in generation order. This
    /// library's `legal_moves` is that same filter, so the two lists agree
    /// move for move.
    pub fn legal_moves_filtered(&self) -> (r: MoveList)
        requires
            self.valid(),
        ensures
            forall|m: Move| #[trigger] r@.contains(m) == legal(self@, m),
            r@.no_duplicates(),
    {
        self.legal_moves()
    }

    /// Whether the side to move has at least one legal move.
    pub fn has_legal_move(&self) -> (r: bool)
        requires
            self.valid(),
        ensures
            r == exists|m: Move| #[trigger] legal(self@, m),
    {
        let moves = self.legal_moves();
        proof {
            if exists|m: Move| #[trigger] legal(self@, m) {
                let m = choose|m: Move| #[trigger] legal(self@, m);
                assert(moves@.contains(m));
            }
            if moves@.len() > 0 {
                assert(moves@.contains(moves@[0]));
            }
        }
        !moves.is_empty()
    }
}

} // verus!

verus! {

/// Two pseudo-legal moves with the same squares and promotion piece are the
/// same move: the flags are fixed by the position.
pub proof fn lemma_pseudo_unique(v: BoardState, m1: Move, m2: Move)
    requires
        pseudo_legal(v, m1),
        pseudo_legal(v, m2),
        mfrom(m1) == mfrom(m2),
        mto(m1) == mto(m2),
        promo_of_flag(mflag(m1)) == promo_of_flag(mflag(m2)),
    ensures
        m1 == m2,
{
    lemma_move_ranges(m1);
    lemma_move_ranges(m2);
    let f1 = mflag(m1);
    let f2 = mflag(m2);
    let from = mfrom(m1);
    let to = mto(m1);
    let pt = v.placement[from].unwrap().piece_type;
    if pt == PieceType::Pawn {
        assert(f1 == f2) by {
            if is_promo_flag(f1) || is_promo_flag(f2) {
                assert(is_promo_flag(f1) && is_promo_flag(f2));
                assert(f1 % 4 == f2 % 4);
                assert(pawn_ahead(v.side, from, to, 1) ==> sq_file(to) == sq_file(from));
                assert(pawn_rel(v.side, from, to) ==> sq_file(to) != sq_file(from));
            }
        }
    } else if pt == PieceType::King {
        assert(f1 == f2) by {
            if castle_ok(v, m1) || castle_ok(v, m2) {
                assert(king_rel(from, to) ==> iabs(dfile(from, to)) <= 1);
            }
        }
    }
    lemma_move_ext(m1, m2);
}

} // verus!
