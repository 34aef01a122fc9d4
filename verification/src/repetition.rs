//! Exact FIDE repetition identity and its stable textual position identifier.
//!
//! [`Board::hash`](crate::board::Board::hash) intentionally follows Polyglot's
//! fast Zobrist convention.  That key is useful for opening books and the
//! transposition table, but it is not the rules definition of "the same
//! position": Polyglot retains some en-passant targets for which every capture
//! is illegal (for example because the pawn is pinned), and any `u64` can
//! collide.  This module keeps those two jobs separate.
use crate::board::{
    Board, BoardState, decode, decode_piece, ep_key, lemma_zobrist_unfold, placement_hash,
    turn_term, valid_code, zobrist,
};
use crate::fen::{castling_text, decimal, ep_text, fen_text, placement_text};
use crate::movegen::legal;
use crate::moves::{Move, mflag};
use crate::types::{CastlingRights, Color, Piece, Square};
use crate::zobrist::castling_key_spec;
use vstd::prelude::*;

verus! {

/// A collision-free, executable representation of the position components
/// relevant to FIDE repetition.
///
/// Move clocks are absent.  The en-passant square is present exactly when at
/// least one en-passant capture is legal, not merely pseudo-legal.
#[derive(Clone, Copy, Eq, Hash, Debug)]
pub struct RepetitionKey {
    /// A normalized Zobrist prefilter. Equality still checks every field below,
    /// so collisions cannot change the result.
    fingerprint: u64,
    placement: [u8; 64],
    turn: Color,
    castling_rights: CastlingRights,
    en_passant_target: Option<Square>,
}

/// The mathematical content of a [`RepetitionKey`].
pub struct KeyView {
    pub fingerprint: u64,
    pub placement: Seq<Option<Piece>>,
    pub turn: Color,
    pub castling: u8,
    pub ep: Option<int>,
}

impl View for RepetitionKey {
    type V = KeyView;

    closed spec fn view(&self) -> KeyView {
        KeyView {
            fingerprint: self.fingerprint,
            placement: Seq::new(64, |s: int| decode(self.placement@[s])),
            turn: self.turn,
            castling: self.castling_rights.0,
            ep: match self.en_passant_target {
                Some(s) => Some(s.0 as int),
                None => None,
            },
        }
    }
}

impl PartialEq for RepetitionKey {
    fn eq(&self, other: &Self) -> (r: bool) {
        proof {
            use_type_invariant(self);
            use_type_invariant(other);
        }
        if self.fingerprint != other.fingerprint || self.turn != other.turn
            || self.castling_rights.0 != other.castling_rights.0 {
            return false;
        }
        let same_ep = match (self.en_passant_target, other.en_passant_target) {
            (Some(a), Some(b)) => a.0 == b.0,
            (None, None) => true,
            _ => false,
        };
        if !same_ep {
            return false;
        }
        let mut i: usize = 0;
        while i < 64
            invariant
                i <= 64,
                forall|j: int| 0 <= j < i ==> self.placement@[j] == other.placement@[j],
                forall|j: int| 0 <= j < 64 ==> #[trigger] valid_code(self.placement@[j]),
                forall|j: int| 0 <= j < 64 ==> #[trigger] valid_code(other.placement@[j]),
            decreases 64 - i,
        {
            if self.placement[i] != other.placement[i] {
                proof {
                    lemma_decode_injective(self.placement@[i as int], other.placement@[i as int]);
                    assert(self@.placement[i as int] != other@.placement[i as int]);
                }
                return false;
            }
            i += 1;
        }
        assert(self@.placement =~= other@.placement);
        true
    }
}

impl vstd::std_specs::cmp::PartialEqSpecImpl for RepetitionKey {
    open spec fn obeys_eq_spec() -> bool {
        true
    }

    open spec fn eq_spec(&self, other: &Self) -> bool {
        self@ == other@
    }
}

/// Distinct valid codes name distinct square contents.
proof fn lemma_decode_injective(a: u8, b: u8)
    requires
        valid_code(a),
        valid_code(b),
        a != b,
    ensures
        decode(a) != decode(b),
{
}

/// The en-passant target of `v` when some en-passant capture is legal.
pub open spec fn effective_ep(v: BoardState) -> Option<int> {
    if v.ep is Some && exists|m: Move| #[trigger] legal(v, m) && mflag(m) == 5 {
        v.ep
    } else {
        None
    }
}

/// The repetition-relevant part of `v`: clocks reset, en passant effective.
pub open spec fn key_state(v: BoardState) -> BoardState {
    BoardState { ep: effective_ep(v), halfmove: 0, fullmove: 1, ..v }
}

/// The repetition key of a position.
pub open spec fn key_of(v: BoardState) -> KeyView {
    KeyView {
        fingerprint: zobrist(key_state(v)),
        placement: v.placement,
        turn: v.side,
        castling: v.castling,
        ep: effective_ep(v),
    }
}

/// The canonical four-field effective EPD of a key.
pub open spec fn id_text(k: KeyView) -> Seq<char> {
    placement_text(k.placement, 7) + seq![
        ' ',
        if k.turn == Color::White {
            'w'
        } else {
            'b'
        },
        ' ',
    ] + castling_text(k.castling) + seq![' '] + ep_text(k.ep)
}

/// Position IDs do not collide: two playable positions have the same
/// repetition key exactly when their position IDs are the same text.
pub proof fn lemma_position_id_injective(v1: BoardState, v2: BoardState)
    requires
        crate::board::state_wf(v1),
        crate::board::state_wf(v2),
        crate::board::has_king(v1, Color::White),
        crate::board::has_king(v1, Color::Black),
        crate::board::has_king(v2, Color::White),
        crate::board::has_king(v2, Color::Black),
    ensures
        key_of(v1) == key_of(v2) <==> id_text(key_of(v1)) == id_text(key_of(v2)),
{
    let k1 = key_state(v1);
    let k2 = key_state(v2);
    let tail = seq![' '] + decimal(0) + seq![' '] + decimal(1);
    assert(fen_text(k1) =~= id_text(key_of(v1)) + tail);
    assert(fen_text(k2) =~= id_text(key_of(v2)) + tail);
    let a = choose|s: int| crate::board::has_piece(v1, s, Color::White, crate::types::PieceType::King);
    let b = choose|s: int| crate::board::has_piece(v1, s, Color::Black, crate::types::PieceType::King);
    let c = choose|s: int| crate::board::has_piece(v2, s, Color::White, crate::types::PieceType::King);
    let d = choose|s: int| crate::board::has_piece(v2, s, Color::Black, crate::types::PieceType::King);
    assert(crate::board::has_piece(k1, a, Color::White, crate::types::PieceType::King));
    assert(crate::board::has_piece(k1, b, Color::Black, crate::types::PieceType::King));
    assert(crate::board::has_piece(k2, c, Color::White, crate::types::PieceType::King));
    assert(crate::board::has_piece(k2, d, Color::Black, crate::types::PieceType::King));
    if id_text(key_of(v1)) == id_text(key_of(v2)) {
        crate::fen_round_trip::lemma_fen_round_trip(k1);
        crate::fen_round_trip::lemma_fen_round_trip(k2);
        assert(k1 == k2);
        assert(key_of(v1) == key_of(v2));
    }
}

/// The fingerprint drops the en-passant key exactly when the raw target is
/// not effective.
proof fn lemma_fingerprint(v: BoardState)
    ensures
        v.ep is Some && effective_ep(v) is None ==> zobrist(v) ^ ep_key(v.placement, v.ep, v.side)
            == zobrist(key_state(v)),
        !(v.ep is Some && effective_ep(v) is None) ==> zobrist(v) == zobrist(key_state(v)),
{
    lemma_zobrist_unfold(v);
    lemma_zobrist_unfold(key_state(v));
    let ph = placement_hash(v.placement, 64);
    let ck = castling_key_spec(v.castling);
    let tt = turn_term(v.side);
    let e = ep_key(v.placement, v.ep, v.side);
    assert(ph ^ ck ^ e ^ tt ^ e == ph ^ ck ^ 0u64 ^ tt) by (bit_vector);
}

impl RepetitionKey {
    /// Codes are valid, rights in range, the target on the board.
    #[verifier::type_invariant]
    closed spec fn inv(self) -> bool {
        &&& forall|s: int| 0 <= s < 64 ==> #[trigger] valid_code(self.placement@[s])
        &&& self.castling_rights.0 < 16
        &&& self.en_passant_target matches Some(s) ==> s.wf()
    }

    /// The key of a position.
    pub(crate) fn from_board(board: &Board) -> (r: RepetitionKey)
        requires
            board.valid(),
        ensures
            r@ == key_of(board@),
    {
        let en_passant_target = board.effective_en_passant_square();
        let h = board.hash();
        let fingerprint = match (board.en_passant_square(), en_passant_target) {
            (Some(raw), None) => h ^ board.ep_hash_contribution(raw, board.side_to_move()),
            _ => h,
        };
        let codes = board.mailbox_codes();
        proof {
            lemma_fingerprint(board@);
            board.lemma_view_len();
        }
        let r = RepetitionKey {
            fingerprint,
            placement: codes,
            turn: board.side_to_move(),
            castling_rights: board.castling_rights(),
            en_passant_target,
        };
        proof {
            board.lemma_view_len();
            assert(r@.placement =~= board@.placement);
        }
        r
    }

    /// The legally effective en-passant component of this key.
    pub fn en_passant_target(self) -> (r: Option<Square>)
        ensures
            r matches Some(s) ==> self@.ep == Some(s.0 as int),
            r is None <==> self@.ep is None,
    {
        self.en_passant_target
    }

    /// Canonical four-field effective EPD.
    ///
    /// This is the persistent cross-language `PositionId`.  Unlike a Zobrist
    /// key it is collision-free and inspectable.
    pub fn position_id(self) -> (r: String)
        ensures
            r@ == id_text(self@),
    {
        proof {
            use_type_invariant(&self);
        }
        let ghost pl = self@.placement;
        let mut out = String::new();
        let mut k: u8 = 0;
        while k < 8
            invariant
                k <= 8,
                pl == self@.placement,
                forall|s: int| 0 <= s < 64 ==> #[trigger] valid_code(self.placement@[s]),
                k < 8 ==> out@ + placement_text(pl, 7 - k) == placement_text(pl, 7),
                k == 8 ==> out@ == placement_text(pl, 7),
            decreases 8 - k,
        {
            let rank = 7 - k;
            let ghost before = out@;
            self.push_rank(&mut out, rank);
            if rank > 0 {
                out.push('/');
                assert(before + placement_text(pl, rank as int) =~= out@ + placement_text(
                    pl,
                    rank - 1,
                ));
            } else {
                assert(out@ =~= before + placement_text(pl, rank as int));
            }
            k += 1;
        }
        let ghost p0 = out@;
        out.push(' ');
        out.push(
            match self.turn {
                Color::White => 'w',
                Color::Black => 'b',
            },
        );
        out.push(' ');
        crate::fen::push_castling(&mut out, self.castling_rights.0);
        out.push(' ');
        let ghost p2 = out@;
        match self.en_passant_target {
            Some(sq) => {
                let a = sq.to_algebraic();
                out.push(a[0] as char);
                out.push(a[1] as char);
            },
            None => out.push('-'),
        }
        assert(out@ =~= p2 + ep_text(self@.ep));
        assert(out@ =~= id_text(self@));
        out
    }

    /// Append the EPD text of one rank.
    fn push_rank(&self, s: &mut String, rank: u8)
        requires
            rank < 8,
            forall|t: int| 0 <= t < 64 ==> #[trigger] valid_code(self.placement@[t]),
        ensures
            final(s)@ == old(s)@ + crate::fen::rank_text(self@.placement, rank as int, 0, 0),
    {
        let ghost pl = self@.placement;
        let ghost start = s@;
        let mut empty: u8 = 0;
        let mut file: u8 = 0;
        while file < 8
            invariant
                file <= 8,
                empty <= file,
                rank < 8,
                pl == self@.placement,
                forall|t: int| 0 <= t < 64 ==> #[trigger] valid_code(self.placement@[t]),
                s@ + crate::fen::rank_text(pl, rank as int, file as int, empty as int) == start
                    + crate::fen::rank_text(pl, rank as int, 0, 0),
            decreases 8 - file,
        {
            let ghost before = s@;
            let ghost e0 = empty;
            let code = self.placement[(rank * 8 + file) as usize];
            match decode_piece(code) {
                Some(p) => {
                    if empty > 0 {
                        s.push(((48 + empty) as u8) as char);
                        empty = 0;
                    }
                    s.push(p.to_char());
                    assert(s@ =~= before + crate::fen::gap_text(e0 as int) + seq![
                        crate::types::piece_char(p),
                    ]);
                    assert(before + crate::fen::rank_text(pl, rank as int, file as int, e0 as int)
                        =~= s@ + crate::fen::rank_text(pl, rank as int, file + 1, 0));
                },
                None => {
                    empty += 1;
                },
            }
            file += 1;
        }
        if empty > 0 {
            s.push(((48 + empty) as u8) as char);
        }
        assert(s@ =~= start + crate::fen::rank_text(pl, rank as int, 0, 0));
    }
}

impl Board {
    /// The raw FEN en-passant square, retained only when some en-passant
    /// capture is actually legal in this position.
    pub fn effective_en_passant_square(&self) -> (r: Option<Square>)
        requires
            self.valid(),
        ensures
            r matches Some(s) ==> s.wf() && effective_ep(self@) == Some(s.0 as int),
            r is None <==> effective_ep(self@) is None,
    {
        let target = match self.en_passant_square() {
            Some(t) => t,
            None => {
                return None;
            },
        };
        let moves = self.legal_moves();
        let mut i: usize = 0;
        while i < moves.len()
            invariant
                i <= moves@.len(),
                forall|m: Move| #[trigger] moves@.contains(m) == legal(self@, m),
                forall|j: int| 0 <= j < i ==> mflag(#[trigger] moves@[j]) != 5,
                self@.ep == Some(target.0 as int),
                target.wf(),
            decreases moves@.len() - i,
        {
            let mv = moves.get(i);
            if mv.is_en_passant() {
                assert(moves@.contains(mv));
                return Some(target);
            }
            i += 1;
        }
        assert forall|m: Move| legal(self@, m) implies mflag(m) != 5 by {
            assert(moves@.contains(m));
            let j = choose|j: int| 0 <= j < moves@.len() && moves@[j] == m;
            assert(mflag(moves@[j]) != 5);
        }
        None
    }

    /// Exact structural identity for the FIDE repetition rules.
    pub fn repetition_key(&self) -> (r: RepetitionKey)
        requires
            self.valid(),
        ensures
            r@ == key_of(self@),
    {
        RepetitionKey::from_board(self)
    }

    /// Stable, cross-language identifier: canonical four-field effective EPD.
    pub fn position_id(&self) -> (r: String)
        requires
            self.valid(),
        ensures
            r@ == id_text(key_of(self@)),
    {
        self.repetition_key().position_id()
    }
}

} // verus!
