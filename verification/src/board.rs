//! The working board representation: per-piece-type and per-color bitboards
//! plus a byte mailbox for O(1) square lookups and an incremental Zobrist key.
//!
//! A board is viewed as a [`BoardState`]: the piece (if any) on each of the 64
//! squares, the side to move, the castling rights, the en-passant target, and
//! the two move clocks. The bitboards and the mailbox always agree (the
//! board's well-formedness invariant), and the stored hash always equals the
//! Zobrist key of the state.

use crate::attacks::{
    attacks_spec, bishop_attacks, bishop_reach, king_attacks, king_rel, knight_attacks,
    knight_rel, lemma_symmetry, on_board, pawn_attacks, pawn_rel, rook_attacks, rook_reach,
};
use crate::bitboard::{
    Bitboard, lemma_count_bound, lemma_lowest, lemma_mem_ext, lemma_mem_ops, lemma_mem_single,
    lemma_mem_zero_full, lemma_zero_iff_empty, mem, popcount,
};
use crate::moves::{Move, is_capture_flag, is_promo_flag, mflag, mfrom, mto, promo_of_flag};
use crate::types::{
    CastlingRights, CastlingSide, Color, File, Piece, PieceType, Rank, Square, castle_bit,
    color_index, opposite, pt_from_index, pt_index, sq_file, sq_rank,
};
use crate::zobrist::{
    castling_key, castling_key_spec, content_key, ep_file_key, ep_file_key_spec, piece_key,
    piece_key_spec, turn_key, turn_key_spec,
};
use crate::bits::lemma_xor_basics;
use vstd::prelude::*;

verus! {

/// The mathematical content of a position.
pub struct BoardState {
    /// The piece on each square `0..64`, if any.
    pub placement: Seq<Option<Piece>>,
    pub side: Color,
    /// Castling rights as a 4-bit set (see [`castle_bit`]).
    pub castling: u8,
    /// En-passant target square index, as in FEN.
    pub ep: Option<int>,
    pub halfmove: int,
    pub fullmove: int,
}

/// Whether a mailbox byte is a valid piece code.
pub open spec fn valid_code(c: u8) -> bool {
    c == 0 || (c < 16 && 1 <= c % 8 <= 6)
}

/// Decode a mailbox/packed nibble; `0` is an empty square.
pub open spec fn decode(c: u8) -> Option<Piece> {
    if c == 0 {
        None
    } else {
        Some(
            Piece {
                color: if c >= 8 {
                    Color::Black
                } else {
                    Color::White
                },
                piece_type: pt_from_index(c % 8 - 1).unwrap(),
            },
        )
    }
}

/// Nibble code of a piece: `(color << 3) | (piece_type + 1)`.
pub open spec fn encode_spec(p: Piece) -> u8 {
    (color_index(p.color) * 8 + pt_index(p.piece_type) + 1) as u8
}

/// Nibble code for a piece in the mailbox / packed board: White uses
/// `1..=6`, Black `9..=14`.
pub fn encode_piece(p: Piece) -> (r: u8)
    ensures
        r == encode_spec(p),
        valid_code(r),
        r != 0,
        decode(r) == Some(p),
{
    (p.color.index() as u8) * 8 + p.piece_type.index() as u8 + 1
}

/// Decode a mailbox/packed nibble; `0` yields `None`.
pub fn decode_piece(code: u8) -> (r: Option<Piece>)
    requires
        valid_code(code),
    ensures
        r == decode(code),
{
    if code == 0 {
        return None;
    }
    let color = if code >= 8 {
        Color::Black
    } else {
        Color::White
    };
    match PieceType::from_index((code % 8) as usize - 1) {
        Some(pt) => Some(Piece::new(color, pt)),
        None => None,
    }
}

/// The piece of color `c` and type `pt`.
pub open spec fn pc(c: Color, pt: PieceType) -> Piece {
    Piece { color: c, piece_type: pt }
}

/// Xor of the piece-square keys of squares `0..n`.
pub open spec fn placement_hash(pl: Seq<Option<Piece>>, n: int) -> u64
    decreases n,
{
    if n <= 0 {
        0
    } else {
        placement_hash(pl, n - 1) ^ content_key(pl[n - 1], n - 1)
    }
}

/// Some pawn of `capturer` stands where it could capture onto `ep`.
pub open spec fn ep_capturable(pl: Seq<Option<Piece>>, ep: int, capturer: Color) -> bool {
    exists|a: int| #[trigger] pawn_rel(capturer, a, ep) && pl[a] == Some(pc(capturer, PieceType::Pawn))
}

/// The en-passant key contribution: applied only when a pawn of the side to
/// move could make the capture (the Polyglot rule).
pub open spec fn ep_key(pl: Seq<Option<Piece>>, ep: Option<int>, capturer: Color) -> u64 {
    match ep {
        Some(e) => if ep_capturable(pl, e, capturer) {
            ep_file_key_spec(sq_file(e))
        } else {
            0
        },
        None => 0,
    }
}

pub open spec fn turn_term(side: Color) -> u64 {
    if side == Color::White {
        turn_key_spec()
    } else {
        0
    }
}

/// The Zobrist key of a position.
#[verifier::opaque]
pub open spec fn zobrist(v: BoardState) -> u64 {
    placement_hash(v.placement, 64) ^ castling_key_spec(v.castling) ^ ep_key(
        v.placement,
        v.ep,
        v.side,
    ) ^ turn_term(v.side)
}

/// Squares of `v` holding a piece that satisfies `pred`.
pub open spec fn occupied_by(v: BoardState, s: int, c: Color) -> bool {
    on_board(s) && v.placement[s] is Some && v.placement[s].unwrap().color == c
}

/// Whether `v` has a piece of color `c` and type `pt` on square `s`.
pub open spec fn has_piece(v: BoardState, s: int, c: Color, pt: PieceType) -> bool {
    on_board(s) && v.placement[s] == Some(pc(c, pt))
}

/// Some piece of color `by` attacks `sq` in `v` when the occupancy is `occ`.
pub open spec fn attacked(v: BoardState, sq: int, by: Color, occ: u64) -> bool {
    exists|a: int|
        #![trigger v.placement[a]]
        on_board(a) && v.placement[a] is Some && v.placement[a].unwrap().color == by
            && attacks_spec(v.placement[a].unwrap().piece_type, by, a, sq, occ)
}

/// The occupancy word of a state.
pub open spec fn occupancy_of(v: BoardState, x: u64) -> bool {
    forall|s: int| #[trigger] mem(x, s) == (on_board(s) && v.placement[s] is Some)
}

/// The lowest square holding a king of color `c`.
pub open spec fn king_sq(v: BoardState, c: Color) -> int {
    choose|s: int|
        has_piece(v, s, c, PieceType::King) && forall|t: int|
            t < s ==> !#[trigger] has_piece(v, t, c, PieceType::King)
}

/// `v` has at least one king of color `c`.
pub open spec fn has_king(v: BoardState, c: Color) -> bool {
    exists|s: int| #[trigger] has_piece(v, s, c, PieceType::King)
}

/// Information needed to reverse a [`Board::make_move`].
#[derive(Clone, Copy, Debug)]
pub struct Undo {
    pub captured: Option<Piece>,
    pub castling: CastlingRights,
    pub ep_square: Option<Square>,
    pub halfmove_clock: u16,
    pub hash: u64,
}

/// A full chess position.
#[derive(Clone, Copy, Debug)]
pub struct Board {
    /// Bitboards indexed by piece-type index, covering both colors.
    pieces: [Bitboard; 6],
    /// Occupancy by color, indexed by color index.
    colors: [Bitboard; 2],
    /// Redundant byte-per-square view for O(1) `piece_at`.
    mailbox: [u8; 64],
    side_to_move: Color,
    castling: CastlingRights,
    /// En-passant target square (behind a pawn that just double-pushed), as
    /// in FEN: set whether or not a capture is possible.
    ep_square: Option<Square>,
    halfmove_clock: u16,
    fullmove_number: u16,
    hash: u64,
}

impl View for Board {
    type V = BoardState;

    closed spec fn view(&self) -> BoardState {
        BoardState {
            placement: Seq::new(64, |s: int| decode(self.mailbox@[s])),
            side: self.side_to_move,
            castling: self.castling.0,
            ep: match self.ep_square {
                Some(s) => Some(s.0 as int),
                None => None,
            },
            halfmove: self.halfmove_clock as int,
            fullmove: self.fullmove_number as int,
        }
    }
}

impl Board {
    /// Bitboards and mailbox agree, codes are valid, and the rights and
    /// en-passant square are in range.
    pub closed spec fn wf(&self) -> bool {
        &&& forall|s: int| 0 <= s < 64 ==> #[trigger] valid_code(self.mailbox@[s])
        &&& forall|i: int, s: int|
            0 <= i < 6 ==> #[trigger] mem(self.pieces@[i].0, s) == (on_board(s) && decode(
                self.mailbox@[s],
            ) is Some && pt_index(decode(self.mailbox@[s]).unwrap().piece_type) == i)
        &&& forall|i: int, s: int|
            0 <= i < 2 ==> #[trigger] mem(self.colors@[i].0, s) == (on_board(s) && decode(
                self.mailbox@[s],
            ) is Some && color_index(decode(self.mailbox@[s]).unwrap().color) == i)
        &&& self.castling.0 < 16
        &&& match self.ep_square {
            Some(s) => s.wf(),
            None => true,
        }
    }

    /// The stored key minus the placement keys.
    pub closed spec fn hash_rest(&self) -> u64 {
        self.hash ^ placement_hash(self@.placement, 64)
    }

    /// The board invariant: well-formed and with its Zobrist key up to date.
    pub closed spec fn inv(&self) -> bool {
        self.wf() && self.hash == zobrist(self@)
    }

    /// A playable position: the invariant holds and both kings are present.
    pub open spec fn valid(&self) -> bool {
        self.inv() && self.wf() && has_king(self@, Color::White) && has_king(self@, Color::Black)
    }

    /// The invariant includes well-formedness.
    pub proof fn lemma_inv_wf(&self)
        requires
            self.inv(),
        ensures
            self.wf(),
    {
    }

    pub proof fn lemma_view_len(&self)
        ensures
            self@.placement.len() == 64,
            self@.castling < 16 || !self.wf(),
    {
    }

    /// A board is determined by its position: two boards that keep the
    /// invariant and show the same position are the same board, in every
    /// bitboard, mailbox square and stored field.
    pub proof fn lemma_view_determines(&self, other: &Board)
        requires
            self.inv(),
            other.inv(),
            self@ == other@,
        ensures
            *self == *other,
    {
        assert forall|s: int| 0 <= s < 64 implies self.mailbox@[s] == other.mailbox@[s] by {
            let a = self.mailbox@[s];
            let b = other.mailbox@[s];
            assert(valid_code(a) && valid_code(b));
            assert(decode(a) == self@.placement[s]);
            assert(decode(b) == other@.placement[s]);
            assert(decode(a) == decode(b));
            if a != 0 && b != 0 {
                assert((a >= 8) == (b >= 8));
                assert(pt_from_index(a % 8 - 1) == pt_from_index(b % 8 - 1));
                assert(a % 8 == b % 8);
            }
        }
        assert(self.mailbox@ =~= other.mailbox@);
        assert forall|i: int| 0 <= i < 6 implies self.pieces@[i] == other.pieces@[i] by {
            assert forall|s: int| 0 <= s < 64 implies #[trigger] mem(self.pieces@[i].0, s) == mem(other.pieces@[i].0, s) by {
                assert(self.mailbox@[s] == other.mailbox@[s]);
            }
            crate::bitboard::lemma_mem_ext(self.pieces@[i].0, other.pieces@[i].0);
        }
        assert forall|i: int| 0 <= i < 2 implies self.colors@[i] == other.colors@[i] by {
            assert forall|s: int| 0 <= s < 64 implies #[trigger] mem(self.colors@[i].0, s) == mem(other.colors@[i].0, s) by {
                assert(self.mailbox@[s] == other.mailbox@[s]);
            }
            crate::bitboard::lemma_mem_ext(self.colors@[i].0, other.colors@[i].0);
        }
        assert(self.pieces@ =~= other.pieces@);
        assert(self.colors@ =~= other.colors@);
        assert(self.mailbox == other.mailbox);
        assert(self.pieces == other.pieces);
        assert(self.colors == other.colors);
        assert(self.castling == other.castling);
        assert(self.ep_square == other.ep_square);
    }

    /// A completely empty board, White to move, no rights.
    pub fn empty() -> (r: Board)
        ensures
            r.wf(),
            r@.placement == Seq::new(64, |s: int| None::<Piece>),
            r@.side == Color::White,
            r@.castling == 0,
            r@.ep is None,
            r@.halfmove == 0,
            r@.fullmove == 1,
            r.hash_rest() == 0,
    {
        let r = Board {
            pieces: [Bitboard(0);6],
            colors: [Bitboard(0);2],
            mailbox: [0;64],
            side_to_move: Color::White,
            castling: CastlingRights(0),
            ep_square: None,
            halfmove_clock: 0,
            fullmove_number: 1,
            hash: 0,
        };
        proof {
            lemma_mem_zero_full();
            assert(r@.placement =~= Seq::new(64, |s: int| None::<Piece>));
            lemma_placement_hash_empty(r@.placement, 64);
            lemma_xor_basics(0u64);
        }
        r
    }

    // --- accessors ---
    pub fn side_to_move(&self) -> (r: Color)
        ensures
            r == self@.side,
    {
        self.side_to_move
    }

    pub fn castling_rights(&self) -> (r: CastlingRights)
        ensures
            r.0 == self@.castling,
    {
        self.castling
    }

    pub fn en_passant_square(&self) -> (r: Option<Square>)
        requires
            self.wf(),
        ensures
            r matches Some(s) ==> s.wf() && self@.ep == Some(s.0 as int),
            r is None <==> self@.ep is None,
    {
        self.ep_square
    }

    pub fn halfmove_clock(&self) -> (r: u16)
        ensures
            r == self@.halfmove,
    {
        self.halfmove_clock
    }

    pub fn fullmove_number(&self) -> (r: u16)
        ensures
            r == self@.fullmove,
    {
        self.fullmove_number
    }

    /// The incremental Zobrist key.
    pub fn hash(&self) -> (r: u64)
        requires
            self.inv(),
        ensures
            r == zobrist(self@),
    {
        self.hash
    }

    pub fn occupied(&self) -> (r: Bitboard)
        requires
            self.wf(),
        ensures
            occupancy_of(self@, r.0),
    {
        let r = Bitboard(self.colors[0].0 | self.colors[1].0);
        proof {
            lemma_mem_ops(self.colors@[0].0, self.colors@[1].0);
            assert forall|s: int| #[trigger] mem(r.0, s) == (on_board(s) && self@.placement[s] is Some) by {
                assert(mem(self.colors@[0].0, s) == mem(self.colors@[0].0, s));
                assert(mem(self.colors@[1].0, s) == mem(self.colors@[1].0, s));
            }
        }
        r
    }

    pub fn pieces(&self, pt: PieceType) -> (r: Bitboard)
        requires
            self.wf(),
        ensures
            forall|s: int| #[trigger]
                mem(r.0, s) == (on_board(s) && self@.placement[s] is Some
                    && self@.placement[s].unwrap().piece_type == pt),
    {
        let r = self.pieces[pt.index()];
        proof {
            assert forall|s: int| #[trigger]
                mem(r.0, s) == (on_board(s) && self@.placement[s] is Some
                    && self@.placement[s].unwrap().piece_type == pt) by {
                assert(mem(self.pieces@[pt_index(pt)].0, s) == mem(self.pieces@[pt_index(pt)].0, s));
            }
        }
        r
    }

    pub fn color_bb(&self, color: Color) -> (r: Bitboard)
        requires
            self.wf(),
        ensures
            forall|s: int| #[trigger] mem(r.0, s) == occupied_by(self@, s, color),
    {
        let r = self.colors[color.index()];
        proof {
            assert forall|s: int| #[trigger] mem(r.0, s) == occupied_by(self@, s, color) by {
                assert(mem(self.colors@[color_index(color)].0, s) == mem(
                    self.colors@[color_index(color)].0,
                    s,
                ));
            }
        }
        r
    }

    pub fn pieces_colored(&self, pt: PieceType, color: Color) -> (r: Bitboard)
        requires
            self.wf(),
        ensures
            forall|s: int| #[trigger] mem(r.0, s) == has_piece(self@, s, color, pt),
    {
        let a = self.pieces(pt);
        let b = self.color_bb(color);
        proof {
            lemma_mem_ops(a.0, b.0);
            assert forall|s: int| #[trigger] mem(a.0 & b.0, s) == has_piece(self@, s, color, pt) by {
                assert(mem(a.0, s) == mem(a.0, s));
                assert(mem(b.0, s) == mem(b.0, s));
            }
        }
        Bitboard(a.0 & b.0)
    }

    pub fn piece_at(&self, sq: Square) -> (r: Option<Piece>)
        requires
            self.wf(),
            sq.wf(),
        ensures
            r == self@.placement[sq.0 as int],
    {
        proof {
            assert(valid_code(self.mailbox@[sq.0 as int]));
        }
        decode_piece(self.mailbox[sq.index()])
    }

    pub fn piece_type_at(&self, sq: Square) -> (r: Option<PieceType>)
        requires
            self.wf(),
            sq.wf(),
        ensures
            r == match self@.placement[sq.0 as int] {
                Some(p) => Some(p.piece_type),
                None => None::<PieceType>,
            },
    {
        match self.piece_at(sq) {
            Some(p) => Some(p.piece_type),
            None => None,
        }
    }

    pub fn color_at(&self, sq: Square) -> (r: Option<Color>)
        requires
            self.wf(),
            sq.wf(),
        ensures
            r == match self@.placement[sq.0 as int] {
                Some(p) => Some(p.color),
                None => None::<Color>,
            },
    {
        match self.piece_at(sq) {
            Some(p) => Some(p.color),
            None => None,
        }
    }

    /// The square of `color`'s king (the lowest one, should there be several).
    pub fn king_square(&self, color: Color) -> (r: Square)
        requires
            self.wf(),
            has_king(self@, color),
        ensures
            r.wf(),
            r.0 == king_sq(self@, color),
            has_piece(self@, r.0 as int, color, PieceType::King),
    {
        let kings = self.pieces_colored(PieceType::King, color);
        proof {
            let w = choose|s: int| #[trigger] has_piece(self@, s, color, PieceType::King);
            assert(mem(kings.0, w));
            lemma_zero_iff_empty(kings.0);
            lemma_lowest(kings.0);
        }
        let r = kings.lsb_unchecked();
        proof {
            assert(has_piece(self@, r.0 as int, color, PieceType::King));
            assert forall|t: int| t < r.0 implies !#[trigger] has_piece(self@, t, color, PieceType::King) by {
                assert(!kings@.contains(t));
            }
            let k = king_sq(self@, color);
            assert(has_piece(self@, k, color, PieceType::King) && forall|t: int|
                t < k ==> !#[trigger] has_piece(self@, t, color, PieceType::King));
            assert(!(k < r.0));
            assert(!(r.0 < k));
        }
        r
    }

    /// All pieces of either color that attack `sq` under occupancy `occ`.
    pub fn attackers_to(&self, sq: Square, occ: Bitboard) -> (r: Bitboard)
        requires
            self.wf(),
            sq.wf(),
        ensures
            forall|a: int| #[trigger]
                mem(r.0, a) == (on_board(a) && self@.placement[a] is Some && attacks_spec(
                    self@.placement[a].unwrap().piece_type,
                    self@.placement[a].unwrap().color,
                    a,
                    sq.0 as int,
                    occ.0,
                )),
    {
        let kn = self.pieces(PieceType::Knight);
        let ki = self.pieces(PieceType::King);
        let bi = self.pieces(PieceType::Bishop);
        let ro = self.pieces(PieceType::Rook);
        let qu = self.pieces(PieceType::Queen);
        let wp = self.pieces_colored(PieceType::Pawn, Color::White);
        let bp = self.pieces_colored(PieceType::Pawn, Color::Black);
        let ka = knight_attacks(sq);
        let kia = king_attacks(sq);
        let ba = bishop_attacks(sq, occ);
        let ra = rook_attacks(sq, occ);
        let pwa = pawn_attacks(Color::Black, sq);
        let pba = pawn_attacks(Color::White, sq);
        let knights = kn.0 & ka.0;
        let kings = ki.0 & kia.0;
        let bq = (bi.0 | qu.0) & ba.0;
        let rq = (ro.0 | qu.0) & ra.0;
        let w = wp.0 & pwa.0;
        let b = bp.0 & pba.0;
        let r = knights | kings | bq | rq | w | b;
        proof {
            lemma_mem_ops(kn.0, ka.0);
            lemma_mem_ops(ki.0, kia.0);
            lemma_mem_ops(bi.0, qu.0);
            lemma_mem_ops(bi.0 | qu.0, ba.0);
            lemma_mem_ops(ro.0, qu.0);
            lemma_mem_ops(ro.0 | qu.0, ra.0);
            lemma_mem_ops(wp.0, pwa.0);
            lemma_mem_ops(bp.0, pba.0);
            lemma_mem_ops(knights, kings);
            lemma_mem_ops(knights | kings, bq);
            lemma_mem_ops(knights | kings | bq, rq);
            lemma_mem_ops(knights | kings | bq | rq, w);
            lemma_mem_ops(knights | kings | bq | rq | w, b);
            assert forall|a: int| #[trigger]
                mem(r, a) == (on_board(a) && self@.placement[a] is Some && attacks_spec(
                    self@.placement[a].unwrap().piece_type,
                    self@.placement[a].unwrap().color,
                    a,
                    sq.0 as int,
                    occ.0,
                )) by {
                lemma_symmetry(a, sq.0 as int, occ.0, Color::White);
                lemma_symmetry(a, sq.0 as int, occ.0, Color::Black);
                assert(mem(kn.0, a) == mem(kn.0, a));
                assert(mem(ki.0, a) == mem(ki.0, a));
                assert(mem(bi.0, a) == mem(bi.0, a));
                assert(mem(ro.0, a) == mem(ro.0, a));
                assert(mem(qu.0, a) == mem(qu.0, a));
                assert(mem(wp.0, a) == mem(wp.0, a));
                assert(mem(bp.0, a) == mem(bp.0, a));
                assert(mem(ka.0, a) == mem(ka.0, a));
                assert(mem(kia.0, a) == mem(kia.0, a));
                assert(mem(ba.0, a) == mem(ba.0, a));
                assert(mem(ra.0, a) == mem(ra.0, a));
                assert(mem(pwa.0, a) == mem(pwa.0, a));
                assert(mem(pba.0, a) == mem(pba.0, a));
            }
        }
        Bitboard(r)
    }

    /// Whether `sq` is attacked by any piece of `by`, under occupancy `occ`.
    pub fn is_attacked(&self, sq: Square, by: Color, occ: Bitboard) -> (r: bool)
        requires
            self.wf(),
            sq.wf(),
        ensures
            r == attacked(self@, sq.0 as int, by, occ.0),
    {
        let att = self.attackers_to(sq, occ);
        let own = self.color_bb(by);
        let x = att.0 & own.0;
        proof {
            lemma_mem_ops(att.0, own.0);
            lemma_zero_iff_empty(x);
            if x != 0 {
                let a = choose|a: int| mem(x, a);
                assert(mem(att.0, a) && mem(own.0, a));
                assert(self@.placement[a] is Some);
            }
            if attacked(self@, sq.0 as int, by, occ.0) {
                let a = choose|a: int|
                    #![trigger self@.placement[a]]
                    on_board(a) && self@.placement[a] is Some && self@.placement[a].unwrap().color
                        == by && attacks_spec(
                        self@.placement[a].unwrap().piece_type,
                        by,
                        a,
                        sq.0 as int,
                        occ.0,
                    );
                assert(mem(att.0, a));
                assert(mem(own.0, a));
                assert(mem(x, a));
            }
        }
        x != 0
    }

    /// Enemy pieces giving check to `color`'s king.
    pub fn checkers_of(&self, color: Color) -> (r: Bitboard)
        requires
            self.wf(),
            has_king(self@, color),
        ensures
            forall|a: int| #[trigger]
                mem(r.0, a) == (occupied_by(self@, a, opposite(color)) && attacks_spec(
                    self@.placement[a].unwrap().piece_type,
                    opposite(color),
                    a,
                    king_sq(self@, color),
                    occ_word(self@.placement),
                )),
    {
        let ksq = self.king_square(color);
        let occ = self.occupied();
        let att = self.attackers_to(ksq, occ);
        let them = self.color_bb(color.flip());
        proof {
            lemma_mem_ops(att.0, them.0);
            lemma_occ_word(self@.placement);
            lemma_mem_ext(occ.0, occ_word(self@.placement));
            assert forall|a: int| #[trigger]
                mem(att.0 & them.0, a) == (occupied_by(self@, a, opposite(color)) && attacks_spec(
                    self@.placement[a].unwrap().piece_type,
                    opposite(color),
                    a,
                    king_sq(self@, color),
                    occ_word(self@.placement),
                )) by {
                assert(mem(att.0, a) == mem(att.0, a));
                assert(mem(them.0, a) == mem(them.0, a));
            }
        }
        Bitboard(att.0 & them.0)
    }

    /// Whether the side to move is in check.
    pub fn in_check(&self) -> (r: bool)
        requires
            self.wf(),
            has_king(self@, self@.side),
        ensures
            r == in_check_spec(self@),
    {
        let us = self.side_to_move;
        let k = self.king_square(us);
        let occ = self.occupied();
        proof {
            lemma_occ_word(self@.placement);
            lemma_mem_ext(occ.0, occ_word(self@.placement));
        }
        self.is_attacked(k, us.flip(), occ)
    }

    /// Whether `color`'s king is in check.
    pub fn is_check_for(&self, color: Color) -> (r: bool)
        requires
            self.wf(),
            has_king(self@, color),
        ensures
            r == attacked(self@, king_sq(self@, color), opposite(color), occ_word(self@.placement)),
    {
        let k = self.king_square(color);
        let occ = self.occupied();
        proof {
            lemma_occ_word(self@.placement);
            lemma_mem_ext(occ.0, occ_word(self@.placement));
        }
        self.is_attacked(k, color.flip(), occ)
    }

    /// The en-passant key contribution for `ep`, applied only when a pawn of
    /// `capturer` can actually make the capture.
    pub(crate) fn ep_hash_contribution(&self, ep: Square, capturer: Color) -> (r: u64)
        requires
            self.wf(),
            ep.wf(),
        ensures
            r == ep_key(self@.placement, Some(ep.0 as int), capturer),
    {
        let origins = pawn_attacks(capturer.flip(), ep);
        let pawns = self.pieces_colored(PieceType::Pawn, capturer);
        let x = origins.0 & pawns.0;
        proof {
            lemma_mem_ops(origins.0, pawns.0);
            lemma_zero_iff_empty(x);
            if x != 0 {
                let a = choose|a: int| mem(x, a);
                assert(mem(origins.0, a) && mem(pawns.0, a));
                lemma_symmetry(ep.0 as int, a, 0, opposite(capturer));
                assert(pawn_rel(capturer, a, ep.0 as int));
            }
            if ep_capturable(self@.placement, ep.0 as int, capturer) {
                let a = choose|a: int|
                    #[trigger] pawn_rel(capturer, a, ep.0 as int) && self@.placement[a] == Some(
                        pc(capturer, PieceType::Pawn),
                    );
                lemma_symmetry(a, ep.0 as int, 0, capturer);
                assert(mem(origins.0, a));
                assert(mem(pawns.0, a));
                assert(mem(x, a));
            }
        }
        if x != 0 {
            ep_file_key(ep.file())
        } else {
            0
        }
    }

    /// Recompute the full Zobrist key from scratch.
    pub fn recompute_hash(&self) -> (r: u64)
        requires
            self.wf(),
        ensures
            r == zobrist(self@),
    {
        let mut h = 0u64;
        let mut sq: u8 = 0;
        while sq < 64
            invariant
                self.wf(),
                sq <= 64,
                h == placement_hash(self@.placement, sq as int),
            decreases 64 - sq,
        {
            match self.piece_at(Square(sq)) {
                Some(p) => {
                    h = h ^ piece_key(p, sq);
                },
                None => {
                    proof { lemma_xor_basics(h); }
                },
            }
            sq = sq + 1;
        }
        h = h ^ castling_key(self.castling);
        match self.ep_square {
            Some(ep) => {
                h = h ^ self.ep_hash_contribution(ep, self.side_to_move);
            },
            None => {
                proof { lemma_xor_basics(h); }
            },
        }
        if self.side_to_move == Color::White {
            h = h ^ turn_key();
        } else {
            proof { lemma_xor_basics(h); }
        }
        proof {
            reveal(zobrist);
        }
        h
    }

    /// Set the stored hash to the freshly recomputed value.
    pub fn refresh_hash(&mut self)
        requires
            old(self).wf(),
        ensures
            final(self).inv(),
            final(self)@ == old(self)@,
    {
        self.hash = self.recompute_hash();
    }

    /// Does `color` still hold the castling right on `side`?
    pub fn has_castling_right(&self, color: Color, side: CastlingSide) -> (r: bool)
        ensures
            r == (self@.castling & castle_bit(color, side) != 0),
    {
        self.castling.has(color, side)
    }

    /// Overwrite the non-piece state in one shot (used by FEN/packed loaders).
    pub fn set_state(
        &mut self,
        side: Color,
        castling: CastlingRights,
        ep_square: Option<Square>,
        halfmove_clock: u16,
        fullmove_number: u16,
    )
        requires
            old(self).wf(),
            castling.0 < 16,
            ep_square matches Some(s) ==> s.wf(),
        ensures
            final(self).wf(),
            final(self)@ == (BoardState {
                placement: old(self)@.placement,
                side,
                castling: castling.0,
                ep: match ep_square {
                    Some(s) => Some(s.0 as int),
                    None => None,
                },
                halfmove: halfmove_clock as int,
                fullmove: fullmove_number as int,
            }),
            final(self).hash_rest() == old(self).hash_rest(),
    {
        self.side_to_move = side;
        self.castling = castling;
        self.ep_square = ep_square;
        self.halfmove_clock = halfmove_clock;
        self.fullmove_number = fullmove_number;
    }

    /// Whether the position is a dead draw by insufficient material: KvK,
    /// K+single-minor vs K, or only same-colored bishops. (KNN vs K is *not*
    /// considered insufficient, matching FIDE.)
    pub fn is_insufficient_material(&self) -> (r: bool)
        requires
            self.wf(),
        ensures
            r == insufficient_spec(self@),
    {
        let pawns = self.pieces(PieceType::Pawn);
        let rooks = self.pieces(PieceType::Rook);
        let queens = self.pieces(PieceType::Queen);
        let knights_bb = self.pieces(PieceType::Knight);
        let bishops = self.pieces(PieceType::Bishop);
        let heavy = pawns.0 | rooks.0 | queens.0;
        let ghost pl = self@.placement;
        proof {
            lemma_mem_ops(pawns.0, rooks.0);
            lemma_mem_ops(pawns.0 | rooks.0, queens.0);
            lemma_zero_iff_empty(heavy);
            lemma_type_word(pl, PieceType::Knight);
            lemma_type_word(pl, PieceType::Bishop);
            lemma_mem_ext(knights_bb.0, type_word(pl, PieceType::Knight));
            lemma_mem_ext(bishops.0, type_word(pl, PieceType::Bishop));
            let hv = exists|s: int|
                #![trigger pl[s]]
                on_board(s) && pl[s] is Some && (pl[s].unwrap().piece_type == PieceType::Pawn
                    || pl[s].unwrap().piece_type == PieceType::Rook || pl[s].unwrap().piece_type
                    == PieceType::Queen);
            if heavy != 0 {
                let s = choose|s: int| mem(heavy, s);
                assert(mem(pawns.0, s) || mem(rooks.0, s) || mem(queens.0, s));
                assert(pl[s] is Some);
            }
            if hv {
                let s = choose|s: int|
                    #![trigger pl[s]]
                    on_board(s) && pl[s] is Some && (pl[s].unwrap().piece_type == PieceType::Pawn
                        || pl[s].unwrap().piece_type == PieceType::Rook
                        || pl[s].unwrap().piece_type == PieceType::Queen);
                assert(mem(heavy, s));
            }
        }
        if heavy != 0 {
            return false;
        }
        let knights = knights_bb.count();
        let nb = bishops.count();
        proof {
            lemma_count_bound(knights_bb.0, 64);
            lemma_count_bound(bishops.0, 64);
        }
        if knights + nb <= 1 {
            return true;
        }
        if knights == 0 {
            let dark = 0xAA55_AA55_AA55_AA55u64;
            let light = 0x55AA_55AA_55AA_55AAu64;
            let on_dark = bishops.0 & dark != 0;
            let on_light = bishops.0 & light != 0;
            proof {
                lemma_mem_ops(bishops.0, dark);
                lemma_mem_ops(bishops.0, light);
                lemma_zero_iff_empty(bishops.0 & dark);
                lemma_zero_iff_empty(bishops.0 & light);
                assert forall|s: int| #[trigger] mem(dark, s) == (on_board(s) && is_dark(s)) by {
                    if on_board(s) {
                        let i = s as u64;
                        assert(i < 64 ==> ((((0xAA55_AA55_AA55_AA55u64 >> i) & 1u64) == 1u64) == ((
                        i % 8 + i / 8) % 2 == 0))) by (bit_vector);
                    }
                }
                assert forall|s: int| #[trigger] mem(light, s) == (on_board(s) && !is_dark(s)) by {
                    if on_board(s) {
                        let i = s as u64;
                        assert(i < 64 ==> ((((0x55AA_55AA_55AA_55AAu64 >> i) & 1u64) == 1u64) == ((
                        i % 8 + i / 8) % 2 != 0))) by (bit_vector);
                    }
                }
                let db = exists|s: int|
                    #![trigger pl[s]]
                    on_board(s) && pl[s] is Some && pl[s].unwrap().piece_type == PieceType::Bishop
                        && is_dark(s);
                let lb = exists|s: int|
                    #![trigger pl[s]]
                    on_board(s) && pl[s] is Some && pl[s].unwrap().piece_type == PieceType::Bishop
                        && !is_dark(s);
                if on_dark {
                    let s = choose|s: int| mem(bishops.0 & dark, s);
                    assert(mem(bishops.0, s) && mem(dark, s));
                    assert(pl[s] is Some);
                }
                if db {
                    let s = choose|s: int|
                        #![trigger pl[s]]
                        on_board(s) && pl[s] is Some && pl[s].unwrap().piece_type
                            == PieceType::Bishop && is_dark(s);
                    assert(mem(bishops.0 & dark, s));
                }
                if on_light {
                    let s = choose|s: int| mem(bishops.0 & light, s);
                    assert(mem(bishops.0, s) && mem(light, s));
                    assert(pl[s] is Some);
                }
                if lb {
                    let s = choose|s: int|
                        #![trigger pl[s]]
                        on_board(s) && pl[s] is Some && pl[s].unwrap().piece_type
                            == PieceType::Bishop && !is_dark(s);
                    assert(mem(bishops.0 & light, s));
                }
            }
            return !(on_dark && on_light);
        }
        false
    }

    /// Every well-formed board's view satisfies the basic range facts.
    pub proof fn lemma_state_wf(&self)
        requires
            self.wf(),
        ensures
            state_wf(self@),
    {
    }

    /// A valid board's view satisfies the basic range facts.
    pub proof fn lemma_state_wf_valid(&self)
        requires
            self.valid(),
        ensures
            state_wf(self@),
    {
    }

    /// Apply `mv`, returning the information needed to undo it. The move must
    /// be applicable (every legal move is).
    pub fn make_move(&mut self, mv: Move) -> (r: Undo)
        requires
            old(self).inv(),
            applicable(old(self)@, mv),
        ensures
            final(self).inv(),
            final(self)@ == make_view(old(self)@, mv),
            r == undo_spec(old(self)@, mv),
    {
        let ghost v = self@;
        let undo = Undo {
            captured: None,
            castling: self.castling,
            ep_square: self.ep_square,
            halfmove_clock: self.halfmove_clock,
            hash: self.hash,
        };
        let moving = self.piece_at(mv.from()).unwrap();
        let pawn_move = moving.piece_type == PieceType::Pawn;
        self.clear_ep_key();
        let captured = self.apply_placement(mv);
        self.finish_move(mv, pawn_move);
        proof {
            reveal(make_view);
            assert(self@ == make_view(v, mv));
        }
        Undo { captured, ..undo }
    }

    /// Remove the en-passant key from the stored hash.
    fn clear_ep_key(&mut self)
        requires
            old(self).inv(),
        ensures
            final(self).wf(),
            final(self)@ == old(self)@,
            final(self).hash_rest() == castling_key_spec(old(self)@.castling) ^ turn_term(
                old(self)@.side,
            ),
    {
        let ghost v = self@;
        let ghost p0 = placement_hash(v.placement, 64);
        let ghost ck0 = castling_key_spec(v.castling);
        let ghost ep0 = ep_key(v.placement, v.ep, v.side);
        let ghost t0 = turn_term(v.side);
        let ghost h0 = self.hash;
        match self.ep_square {
            Some(ep) => {
                let c = self.ep_hash_contribution(ep, self.side_to_move);
                self.hash = self.hash ^ c;
            },
            None => {},
        }
        proof {
            reveal(zobrist);
            let h1 = self.hash;
            assert(h1 == h0 ^ ep0 || (ep0 == 0 && h1 == h0));
            assert((h1 == h0 ^ ep0 || (ep0 == 0 && h1 == h0)) && h0 == p0 ^ ck0 ^ ep0 ^ t0 ==> h1
                ^ p0 == ck0 ^ t0) by (bit_vector);
        }
    }

    /// Everything of a move but the pieces: clocks, castling rights, the new
    /// en-passant square, and the side to move, with their keys.
    #[verifier::rlimit(50)]
    fn finish_move(&mut self, mv: Move, pawn_move: bool)
        requires
            old(self).wf(),
            old(self).hash_rest() == castling_key_spec(old(self)@.castling) ^ turn_term(
                old(self)@.side,
            ),
            old(self)@.halfmove < 65535,
            old(self)@.side == Color::Black ==> old(self)@.fullmove < 65535,
        ensures
            final(self).inv(),
            final(self)@ == (BoardState {
                placement: old(self)@.placement,
                side: opposite(old(self)@.side),
                castling: old(self)@.castling & castle_mask(mfrom(mv)) & castle_mask(mto(mv)),
                ep: double_push_ep(mv),
                halfmove: if is_capture_flag(mflag(mv)) || pawn_move {
                    0
                } else {
                    old(self)@.halfmove + 1
                },
                fullmove: if old(self)@.side == Color::Black {
                    old(self)@.fullmove + 1
                } else {
                    old(self)@.fullmove
                },
            }),
    {
        let us = self.side_to_move;
        let them = us.flip();
        let from = mv.from();
        let to = mv.to();
        let half = if mv.is_capture() || pawn_move {
            0
        } else {
            self.halfmove_clock + 1
        };
        let full = if us == Color::Black {
            self.fullmove_number + 1
        } else {
            self.fullmove_number
        };
        self.update_castling(from, to);
        let ep = double_push_target(mv);
        self.advance_side(ep, half, full);
    }

    /// Hand the move to the other side with the given en-passant square and
    /// clocks, updating the en-passant and side-to-move keys.
    #[verifier::rlimit(50)]
    fn advance_side(&mut self, ep: Option<Square>, half: u16, full: u16)
        requires
            old(self).wf(),
            old(self).hash_rest() == castling_key_spec(old(self)@.castling) ^ turn_term(
                old(self)@.side,
            ),
            ep matches Some(s) ==> s.wf(),
        ensures
            final(self).inv(),
            final(self)@ == (BoardState {
                placement: old(self)@.placement,
                side: opposite(old(self)@.side),
                castling: old(self)@.castling,
                ep: match ep {
                    Some(s) => Some(s.0 as int),
                    None => None,
                },
                halfmove: half as int,
                fullmove: full as int,
            }),
    {
        let us = self.side_to_move;
        let them = us.flip();
        let c = match ep {
            Some(e) => self.ep_hash_contribution(e, them),
            None => 0,
        };
        let tk = turn_key();
        let ghost t0 = turn_term(us);
        let castling = self.castling;
        self.set_state(them, castling, ep, half, full);
        let h = self.hash ^ c ^ tk;
        proof {
            let w = self@;
            let p1 = placement_hash(w.placement, 64);
            assert(self.hash_rest() == self.hash ^ p1);
            let ck1 = castling_key_spec(w.castling);
            let e1 = ep_key(w.placement, w.ep, w.side);
            let t1 = turn_term(w.side);
            assert(c == e1);
            assert(t0 ^ tk == t1) by {
                if us == Color::White {
                    lemma_xor_basics(tk);
                } else {
                    lemma_xor_basics(tk);
                }
            }
            let hh = self.hash;
            assert(hh ^ p1 == ck1 ^ t0);
            assert(hh ^ p1 == ck1 ^ t0 && t0 ^ tk == t1 ==> hh ^ c ^ tk == p1 ^ ck1 ^ c ^ t1)
                by (bit_vector);
            lemma_zobrist_unfold(w);
        }
        self.set_hash(h);
    }

    /// Apply the castling-rights masks of a move from `from` to `to`.
    fn update_castling(&mut self, from: Square, to: Square)
        requires
            old(self).wf(),
            from.wf(),
            to.wf(),
            old(self).hash_rest() == castling_key_spec(old(self)@.castling) ^ turn_term(
                old(self)@.side,
            ),
        ensures
            final(self).wf(),
            final(self)@ == (BoardState {
                castling: old(self)@.castling & castle_mask(from.0 as int) & castle_mask(
                    to.0 as int,
                ),
                ..old(self)@
            }),
            final(self).hash_rest() == castling_key_spec(final(self)@.castling) ^ turn_term(
                old(self)@.side,
            ),
    {
        let ghost c0 = self.castling.0;
        let ghost t0 = turn_term(self@.side);
        let ghost m1 = castle_mask(from.0 as int);
        let ghost m2 = castle_mask(to.0 as int);
        if self.castling.0 != 0 {
            let new_castling = CastlingRights(
                self.castling.0 & castle_rights_mask(from.index()) & castle_rights_mask(
                    to.index(),
                ),
            );
            if new_castling.0 != self.castling.0 {
                let k = castling_key(self.castling) ^ castling_key(new_castling);
                let ghost hh = self.hash;
                self.hash = self.hash ^ k;
                self.castling = new_castling;
                proof {
                    let nc = castling_key_spec(new_castling.0);
                    let ck0 = castling_key_spec(c0);
                    let p1 = placement_hash(self@.placement, 64);
                    let hr = (hh ^ p1) as u64;
                    let h2 = self.hash;
                    assert(hr == ck0 ^ t0);
                    assert(hr == hh ^ p1 && h2 == hh ^ k && hr == ck0 ^ t0 && k == ck0 ^ nc ==> h2
                        ^ p1 == nc ^ t0) by (bit_vector);
                }
            }
        } else {
            proof {
                assert(0u8 & m1 & m2 == 0u8) by (bit_vector);
            }
        }
        proof {
            assert(c0 < 16 ==> c0 & m1 & m2 < 16) by (bit_vector);
        }
    }

    /// Move the pieces for `mv`: captures, the moving piece (promoted if
    /// need be) and a castling rook. Returns the captured piece.
    fn apply_placement(&mut self, mv: Move) -> (r: Option<Piece>)
        requires
            old(self).wf(),
            applicable(old(self)@, mv),
        ensures
            final(self).wf(),
            final(self)@ == (BoardState { placement: make_placement(old(self)@, mv), ..old(self)@ }),
            final(self).hash_rest() == old(self).hash_rest(),
            r == undo_spec(old(self)@, mv).captured,
    {
        let ghost v = self@;
        let us = self.side_to_move;
        let them = us.flip();
        let from = mv.from();
        let to = mv.to();
        let moving = self.piece_at(from).unwrap();
        let mut captured = None;
        if mv.is_en_passant() {
            let cap_sq = Square::make(to.file(), from.rank());
            let cap_piece = Piece::new(them, PieceType::Pawn);
            self.remove_piece(cap_piece, cap_sq);
            captured = Some(cap_piece);
        } else if mv.is_capture() {
            let cap_piece = self.piece_at(to).unwrap();
            self.remove_piece(cap_piece, to);
            captured = Some(cap_piece);
        }
        let ghost v1 = self@;
        self.move_for(mv, moving);
        let ghost v2 = self@;
        proof {
            assert(v2.placement == v1.placement.update(mfrom(mv), None).update(
                mto(mv),
                Some(placed_piece(v, mv)),
            ));
        }
        self.castle_rook(mv);
        proof {
            reveal(make_placement);
            assert(self@.placement =~= make_placement(v, mv));
        }
        captured
    }

    /// Lift the moving piece from its square and place it (or its promotion)
    /// on the destination.
    fn move_for(&mut self, mv: Move, moving: Piece)
        requires
            old(self).wf(),
            mfrom(mv) != mto(mv),
            old(self)@.placement[mfrom(mv)] == Some(moving),
            old(self)@.placement[mto(mv)] is None,
        ensures
            final(self).wf(),
            final(self)@ == (BoardState {
                placement: old(self)@.placement.update(mfrom(mv), None).update(
                    mto(mv),
                    Some(
                        match promo_of_flag(mflag(mv)) {
                            Some(pt) => pc(old(self)@.side, pt),
                            None => moving,
                        },
                    ),
                ),
                ..old(self)@
            }),
            final(self).hash_rest() == old(self).hash_rest(),
    {
        let us = self.side_to_move;
        let from = mv.from();
        let to = mv.to();
        match mv.promotion_piece() {
            Some(promo) => {
                self.remove_piece(moving, from);
                self.put_piece(Piece::new(us, promo), to);
            },
            None => {
                self.move_piece(moving, from, to);
            },
        }
    }

    /// Relocate the rook of a castling move.
    fn castle_rook(&mut self, mv: Move)
        requires
            old(self).wf(),
            mflag(mv) == 2 || mflag(mv) == 3 ==> {
                let us = old(self)@.side;
                let rf = rook_home(us, mflag(mv) == 2);
                let rt = rook_dest(us, mflag(mv) == 2);
                old(self)@.placement[rf] == Some(pc(us, PieceType::Rook))
                    && old(self)@.placement[rt] is None
            },
        ensures
            final(self).wf(),
            final(self)@ == (BoardState {
                placement: if mflag(mv) == 2 || mflag(mv) == 3 {
                    let us = old(self)@.side;
                    old(self)@.placement.update(rook_home(us, mflag(mv) == 2), None).update(
                        rook_dest(us, mflag(mv) == 2),
                        Some(pc(us, PieceType::Rook)),
                    )
                } else {
                    old(self)@.placement
                },
                ..old(self)@
            }),
            final(self).hash_rest() == old(self).hash_rest(),
    {
        let us = self.side_to_move;
        if mv.is_king_castle() {
            let (rfrom, rto) = match us {
                Color::White => (Square(7), Square(5)),
                Color::Black => (Square(63), Square(61)),
            };
            self.move_piece(Piece::new(us, PieceType::Rook), rfrom, rto);
        } else if mv.is_queen_castle() {
            let (rfrom, rto) = match us {
                Color::White => (Square(0), Square(3)),
                Color::Black => (Square(56), Square(59)),
            };
            self.move_piece(Piece::new(us, PieceType::Rook), rfrom, rto);
        } else {
            proof {
                assert(self@.placement =~= old(self)@.placement);
            }
        }
    }

    /// Put back the pieces of `mv`: the moving piece (demoted if it
    /// promoted), the captured piece, and a castling rook.
    fn restore_placement(&mut self, mv: Move, undo: Undo)
        requires
            old(self).wf(),
            exists|v: BoardState|
                state_wf(v) && applicable(v, mv) && make_view(v, mv).placement == old(self)@.placement
                    && opposite(v.side) == old(self)@.side && undo == undo_spec(v, mv),
        ensures
            final(self).wf(),
            final(self)@ == (BoardState {
                placement: unmake_placement(old(self)@, mv, undo),
                ..old(self)@
            }),
    {
        proof {
            reveal(make_view);
            reveal(make_placement);
        }
        let ghost w = self@;
        let them = self.side_to_move;
        let us = them.flip();
        let from = mv.from();
        let to = mv.to();
        match mv.promotion_piece() {
            Some(promo) => {
                self.remove_piece_raw(Piece::new(us, promo), to);
                self.put_piece_raw(Piece::new(us, PieceType::Pawn), from);
            },
            None => {
                let pt = self.piece_type_at(to).unwrap();
                self.move_piece_raw(Piece::new(us, pt), to, from);
            },
        }
        if mv.is_en_passant() {
            let cap_sq = Square::make(to.file(), from.rank());
            self.put_piece_raw(Piece::new(them, PieceType::Pawn), cap_sq);
        } else {
            match undo.captured {
                Some(cap) => {
                    self.put_piece_raw(cap, to);
                },
                None => {},
            }
        }
        if mv.is_king_castle() {
            let (rfrom, rto) = match us {
                Color::White => (Square(7), Square(5)),
                Color::Black => (Square(63), Square(61)),
            };
            self.move_piece_raw(Piece::new(us, PieceType::Rook), rto, rfrom);
        } else if mv.is_queen_castle() {
            let (rfrom, rto) = match us {
                Color::White => (Square(0), Square(3)),
                Color::Black => (Square(56), Square(59)),
            };
            self.move_piece_raw(Piece::new(us, PieceType::Rook), rto, rfrom);
        }
        proof {
            reveal(unmake_placement);
            reveal(make_placement);
            reveal(make_view);
            assert(self@.placement =~= unmake_placement(w, mv, undo));
        }
    }

    /// A copy of this position with its move clocks reset (`0` and `1`).
    pub fn without_clocks(&self) -> (r: Board)
        requires
            self.inv(),
        ensures
            r.inv(),
            r@ == (BoardState { halfmove: 0, fullmove: 1, ..self@ }),
    {
        let b = Board { halfmove_clock: 0, fullmove_number: 1, ..*self };
        proof {
            lemma_zobrist_unfold(self@);
            lemma_zobrist_unfold(b@);
            assert(b@.placement =~= self@.placement);
        }
        b
    }

    /// The mailbox codes of the 64 squares.
    pub(crate) fn mailbox_codes(&self) -> (r: [u8; 64])
        requires
            self.wf(),
        ensures
            forall|s: int|
                0 <= s < 64 ==> valid_code(#[trigger] r@[s]) && decode(r@[s]) == self@.placement[s],
    {
        self.mailbox
    }

    /// Overwrite the stored key.
    fn set_hash(&mut self, h: u64)
        requires
            old(self).wf(),
        ensures
            final(self).wf(),
            final(self)@ == old(self)@,
            final(self).hash == h,
            final(self).inv() == (h == zobrist(old(self)@)),
    {
        self.hash = h;
    }

    /// Reverse a previously applied move: `undo` must be the record that
    /// `make_move(mv)` returned on the position this one was reached from.
    #[verifier::rlimit(100)]
    #[verifier::spinoff_prover]
    pub fn unmake_move(&mut self, mv: Move, undo: Undo)
        requires
            old(self).wf(),
            exists|v: BoardState|
                state_wf(v) && applicable(v, mv) && make_view(v, mv) == old(self)@ && undo
                    == undo_spec(v, mv),
        ensures
            final(self).inv(),
            final(self)@ == unmake_view(old(self)@, mv, undo),
            forall|v: BoardState|
                state_wf(v) && applicable(v, mv) && make_view(v, mv) == old(self)@ && undo
                    == undo_spec(v, mv) ==> final(self)@ == v,
    {
        proof {
            assert forall|v2: BoardState|
                state_wf(v2) && applicable(v2, mv) && make_view(v2, mv) == old(self)@ && undo
                    == undo_spec(v2, mv) implies unmake_view(old(self)@, mv, undo) == v2 by {
                lemma_unmake_inverts_make(v2, mv);
            }
        }
        let ghost v = choose|v: BoardState|
            state_wf(v) && applicable(v, mv) && make_view(v, mv) == old(self)@ && undo == undo_spec(
                v,
                mv,
            );
        proof {
            lemma_unmake_inverts_make(v, mv);
            reveal(make_view);
        }
        let ghost w = self@;
        self.restore_placement(mv, undo);
        let us = self.side_to_move.flip();
        let full = if us == Color::Black {
            self.fullmove_number - 1
        } else {
            self.fullmove_number
        };
        proof {
            reveal(make_view);
        }
        self.set_state(us, undo.castling, undo.ep_square, undo.halfmove_clock, full);
        self.set_hash(undo.hash);
        proof {
            reveal(unmake_view);
            let u = unmake_view(w, mv, undo);
            assert(self@ == u);
            assert(u == v);
        }
    }

    // --- piece mutation (keeps bitboards, mailbox, and hash in sync) ---
    /// Put `piece` on the empty square `sq`.
    fn put_piece(&mut self, piece: Piece, sq: Square)
        requires
            old(self).wf(),
            sq.wf(),
            old(self)@.placement[sq.0 as int] is None,
        ensures
            final(self).wf(),
            final(self)@ == (BoardState {
                placement: old(self)@.placement.update(sq.0 as int, Some(piece)),
                ..old(self)@
            }),
            final(self).hash == old(self).hash ^ piece_key_spec(piece, sq.0 as int),
            final(self).hash_rest() == old(self).hash_rest(),
    {
        self.put_piece_raw(piece, sq);
        let k = piece_key(piece, sq.0);
        let ghost h0 = self.hash;
        self.hash = self.hash ^ k;
        proof {
            lemma_placement_hash_update(old(self)@.placement, sq.0 as int, Some(piece), 64);
            let p0 = placement_hash(old(self)@.placement, 64);
            let p1 = placement_hash(self@.placement, 64);
            let c0 = content_key(None, sq.0 as int);
            assert(c0 == 0);
            assert(p1 == p0 ^ (0u64 ^ k));
            assert(p1 == p0 ^ (0u64 ^ k) ==> (h0 ^ k) ^ p1 == h0 ^ p0) by (bit_vector);
        }
    }

    /// Take `piece` off square `sq`.
    fn remove_piece(&mut self, piece: Piece, sq: Square)
        requires
            old(self).wf(),
            sq.wf(),
            old(self)@.placement[sq.0 as int] == Some(piece),
        ensures
            final(self).wf(),
            final(self)@ == (BoardState {
                placement: old(self)@.placement.update(sq.0 as int, None),
                ..old(self)@
            }),
            final(self).hash == old(self).hash ^ piece_key_spec(piece, sq.0 as int),
            final(self).hash_rest() == old(self).hash_rest(),
    {
        self.remove_piece_raw(piece, sq);
        let k = piece_key(piece, sq.0);
        let ghost h0 = self.hash;
        self.hash = self.hash ^ k;
        proof {
            lemma_placement_hash_update(old(self)@.placement, sq.0 as int, None, 64);
            let p0 = placement_hash(old(self)@.placement, 64);
            let p1 = placement_hash(self@.placement, 64);
            assert(p1 == p0 ^ (k ^ 0u64));
            assert(p1 == p0 ^ (k ^ 0u64) ==> (h0 ^ k) ^ p1 == h0 ^ p0) by (bit_vector);
        }
    }

    fn move_piece(&mut self, piece: Piece, from: Square, to: Square)
        requires
            old(self).wf(),
            from.wf(),
            to.wf(),
            from != to,
            old(self)@.placement[from.0 as int] == Some(piece),
            old(self)@.placement[to.0 as int] is None,
        ensures
            final(self).wf(),
            final(self)@ == (BoardState {
                placement: old(self)@.placement.update(from.0 as int, None).update(
                    to.0 as int,
                    Some(piece),
                ),
                ..old(self)@
            }),
            final(self).hash_rest() == old(self).hash_rest(),
    {
        self.remove_piece(piece, from);
        self.put_piece(piece, to);
    }

    /// Place a piece during construction; updates the piece hash only.
    pub fn set_square(&mut self, sq: Square, piece: Piece)
        requires
            old(self).wf(),
            sq.wf(),
            old(self)@.placement[sq.0 as int] is None,
        ensures
            final(self).wf(),
            final(self)@ == (BoardState {
                placement: old(self)@.placement.update(sq.0 as int, Some(piece)),
                ..old(self)@
            }),
            final(self).hash_rest() == old(self).hash_rest(),
    {
        self.put_piece(piece, sq);
    }

    // raw (no-hash) mutators used by unmake
    fn put_piece_raw(&mut self, piece: Piece, sq: Square)
        requires
            old(self).wf(),
            sq.wf(),
            old(self)@.placement[sq.0 as int] is None,
        ensures
            final(self).wf(),
            final(self)@ == (BoardState {
                placement: old(self)@.placement.update(sq.0 as int, Some(piece)),
                ..old(self)@
            }),
            final(self).hash == old(self).hash,
    {
        let bit = sq.bit();
        let ti = piece.piece_type.index();
        let ci = piece.color.index();
        let code = encode_piece(piece);
        proof {
            lemma_mem_single(sq.0 as u64);
            lemma_mem_ops(self.pieces@[ti as int].0, bit);
            lemma_mem_ops(self.colors@[ci as int].0, bit);
        }
        self.pieces[ti] = Bitboard(self.pieces[ti].0 | bit);
        self.colors[ci] = Bitboard(self.colors[ci].0 | bit);
        self.mailbox[sq.index()] = code;
        proof {
            let o = old(self);
            assert(self@.placement =~= o@.placement.update(sq.0 as int, Some(piece)));
            assert forall|s: int| 0 <= s < 64 implies #[trigger] valid_code(self.mailbox@[s]) by {
                assert(valid_code(o.mailbox@[s]));
            }
            assert forall|i: int, s: int| 0 <= i < 6 implies #[trigger] mem(self.pieces@[i].0, s) == (
            on_board(s) && decode(self.mailbox@[s]) is Some && pt_index(
                decode(self.mailbox@[s]).unwrap().piece_type,
            ) == i) by {
                assert(mem(o.pieces@[i].0, s) == (on_board(s) && decode(o.mailbox@[s]) is Some
                    && pt_index(decode(o.mailbox@[s]).unwrap().piece_type) == i));
            }
            assert forall|i: int, s: int| 0 <= i < 2 implies #[trigger] mem(self.colors@[i].0, s) == (
            on_board(s) && decode(self.mailbox@[s]) is Some && color_index(
                decode(self.mailbox@[s]).unwrap().color,
            ) == i) by {
                assert(mem(o.colors@[i].0, s) == (on_board(s) && decode(o.mailbox@[s]) is Some
                    && color_index(decode(o.mailbox@[s]).unwrap().color) == i));
            }
        }
    }

    fn remove_piece_raw(&mut self, piece: Piece, sq: Square)
        requires
            old(self).wf(),
            sq.wf(),
            old(self)@.placement[sq.0 as int] == Some(piece),
        ensures
            final(self).wf(),
            final(self)@ == (BoardState {
                placement: old(self)@.placement.update(sq.0 as int, None),
                ..old(self)@
            }),
            final(self).hash == old(self).hash,
    {
        let bit = sq.bit();
        let ti = piece.piece_type.index();
        let ci = piece.color.index();
        proof {
            lemma_mem_single(sq.0 as u64);
            lemma_mem_ops(self.pieces@[ti as int].0, !bit);
            lemma_mem_ops(self.colors@[ci as int].0, !bit);
            lemma_mem_ops(bit, 0);
        }
        self.pieces[ti] = Bitboard(self.pieces[ti].0 & !bit);
        self.colors[ci] = Bitboard(self.colors[ci].0 & !bit);
        self.mailbox[sq.index()] = 0;
        proof {
            let o = old(self);
            assert(self@.placement =~= o@.placement.update(sq.0 as int, None));
            assert forall|s: int| 0 <= s < 64 implies #[trigger] valid_code(self.mailbox@[s]) by {
                assert(valid_code(o.mailbox@[s]));
            }
            assert forall|i: int, s: int| 0 <= i < 6 implies #[trigger] mem(self.pieces@[i].0, s) == (
            on_board(s) && decode(self.mailbox@[s]) is Some && pt_index(
                decode(self.mailbox@[s]).unwrap().piece_type,
            ) == i) by {
                assert(mem(o.pieces@[i].0, s) == (on_board(s) && decode(o.mailbox@[s]) is Some
                    && pt_index(decode(o.mailbox@[s]).unwrap().piece_type) == i));
            }
            assert forall|i: int, s: int| 0 <= i < 2 implies #[trigger] mem(self.colors@[i].0, s) == (
            on_board(s) && decode(self.mailbox@[s]) is Some && color_index(
                decode(self.mailbox@[s]).unwrap().color,
            ) == i) by {
                assert(mem(o.colors@[i].0, s) == (on_board(s) && decode(o.mailbox@[s]) is Some
                    && color_index(decode(o.mailbox@[s]).unwrap().color) == i));
            }
        }
    }

    fn move_piece_raw(&mut self, piece: Piece, from: Square, to: Square)
        requires
            old(self).wf(),
            from.wf(),
            to.wf(),
            from != to,
            old(self)@.placement[from.0 as int] == Some(piece),
            old(self)@.placement[to.0 as int] is None,
        ensures
            final(self).wf(),
            final(self)@ == (BoardState {
                placement: old(self)@.placement.update(from.0 as int, None).update(
                    to.0 as int,
                    Some(piece),
                ),
                ..old(self)@
            }),
            final(self).hash == old(self).hash,
    {
        self.remove_piece_raw(piece, from);
        self.put_piece_raw(piece, to);
    }
}

/// The word whose members are the squares `s < n` satisfying `pred`.
pub open spec fn word_of(pred: spec_fn(int) -> bool, n: int) -> u64
    decreases n,
{
    if n <= 0 {
        0
    } else {
        word_of(pred, n - 1) | (if pred(n - 1) {
            1u64 << ((n - 1) as u64)
        } else {
            0u64
        })
    }
}

pub proof fn lemma_word_of(pred: spec_fn(int) -> bool, n: int)
    requires
        n <= 64,
    ensures
        forall|s: int| #[trigger] mem(word_of(pred, n), s) == (0 <= s < n && pred(s)),
    decreases n,
{
    lemma_mem_zero_full();
    if n > 0 {
        lemma_word_of(pred, n - 1);
        let w = word_of(pred, n - 1);
        let b = if pred(n - 1) {
            1u64 << ((n - 1) as u64)
        } else {
            0u64
        };
        lemma_mem_single((n - 1) as u64);
        lemma_mem_ops(w, b);
    }
}

/// The occupancy word of a placement.
pub open spec fn occ_word(pl: Seq<Option<Piece>>) -> u64 {
    word_of(|s: int| pl[s] is Some, 64)
}

/// The word of squares holding a piece of type `pt` (either color).
pub open spec fn type_word(pl: Seq<Option<Piece>>, pt: PieceType) -> u64 {
    word_of(|s: int| pl[s] is Some && pl[s].unwrap().piece_type == pt, 64)
}

pub proof fn lemma_occ_word(pl: Seq<Option<Piece>>)
    ensures
        forall|s: int| #[trigger] mem(occ_word(pl), s) == (on_board(s) && pl[s] is Some),
{
    lemma_word_of(|s: int| pl[s] is Some, 64);
}

pub proof fn lemma_type_word(pl: Seq<Option<Piece>>, pt: PieceType)
    ensures
        forall|s: int| #[trigger]
            mem(type_word(pl, pt), s) == (on_board(s) && pl[s] is Some && pl[s].unwrap().piece_type
                == pt),
{
    lemma_word_of(|s: int| pl[s] is Some && pl[s].unwrap().piece_type == pt, 64);
}

/// A dark square (`a1` is dark).
pub open spec fn is_dark(s: int) -> bool {
    (sq_file(s) + sq_rank(s)) % 2 == 0
}

/// The position is a dead draw by insufficient material: no pawns, rooks or
/// queens, and either at most one minor piece or only bishops, all on squares
/// of one color.
pub open spec fn insufficient_spec(v: BoardState) -> bool {
    let pl = v.placement;
    let heavy = exists|s: int|
        #![trigger pl[s]]
        on_board(s) && pl[s] is Some && (pl[s].unwrap().piece_type == PieceType::Pawn
            || pl[s].unwrap().piece_type == PieceType::Rook || pl[s].unwrap().piece_type
            == PieceType::Queen);
    let knights = popcount(type_word(pl, PieceType::Knight));
    let bishops = popcount(type_word(pl, PieceType::Bishop));
    let dark_bishop = exists|s: int|
        #![trigger pl[s]]
        on_board(s) && pl[s] is Some && pl[s].unwrap().piece_type == PieceType::Bishop && is_dark(
            s,
        );
    let light_bishop = exists|s: int|
        #![trigger pl[s]]
        on_board(s) && pl[s] is Some && pl[s].unwrap().piece_type == PieceType::Bishop && !is_dark(
            s,
        );
    !heavy && (knights + bishops <= 1 || (knights == 0 && !(dark_bishop && light_bishop)))
}

/// A member below `n` makes the count below `n` positive.
proof fn lemma_count_ge1(x: u64, s: int, n: int)
    requires
        0 <= s < n,
        mem(x, s),
    ensures
        crate::bitboard::count_below(x, n) >= 1,
    decreases n,
{
    if s < n - 1 {
        lemma_count_ge1(x, s, n - 1);
    }
}

/// Two members below `n` make the count below `n` at least two.
proof fn lemma_count_ge2(x: u64, a: int, b: int, n: int)
    requires
        0 <= a < b < n,
        mem(x, a),
        mem(x, b),
    ensures
        crate::bitboard::count_below(x, n) >= 2,
    decreases n,
{
    if b < n - 1 {
        lemma_count_ge2(x, a, b, n - 1);
    } else {
        lemma_count_ge1(x, a, n - 1);
    }
}

/// A count of at least two below `n` has two distinct members below `n`.
proof fn lemma_count_two_members(x: u64, n: int)
    requires
        crate::bitboard::count_below(x, n) >= 2,
    ensures
        exists|a: int, b: int| 0 <= a < b < n && #[trigger] mem(x, a) && #[trigger] mem(x, b),
    decreases n,
{
    if n <= 0 {
    } else if mem(x, n - 1) {
        crate::bitboard::lemma_count_zero(x, n - 1);
        let a = choose|a: int| 0 <= a < n - 1 && mem(x, a);
        assert(mem(x, a) && mem(x, n - 1));
    } else {
        lemma_count_two_members(x, n - 1);
        let (a, b) = choose|a: int, b: int| 0 <= a < b < n - 1 && #[trigger] mem(x, a) && #[trigger] mem(x, b);
        assert(mem(x, a) && mem(x, b));
    }
}

/// A knight or bishop.
pub open spec fn is_minor(p: Option<Piece>) -> bool {
    p matches Some(q) && (q.piece_type == PieceType::Knight || q.piece_type == PieceType::Bishop)
}

/// Insufficient material, square by square: there is no pawn, rook or
/// queen, and any two distinct minor pieces are both bishops standing on
/// squares of one colour. So K v K, K+minor v K and same-coloured bishops
/// are dead draws, while a knight with any other minor piece (K+B+N v K,
/// K+N+N v K, K+N v K+B) or bishops on both colours is not.
pub proof fn lemma_insufficient_material(v: BoardState)
    requires
        v.placement.len() == 64,
    ensures
        insufficient_spec(v) <==> ((forall|s: int|
            #![trigger v.placement[s]]
            on_board(s) && v.placement[s] is Some ==> v.placement[s].unwrap().piece_type
                != PieceType::Pawn && v.placement[s].unwrap().piece_type != PieceType::Rook
                && v.placement[s].unwrap().piece_type != PieceType::Queen) && forall|a: int, b: int|
            #![trigger v.placement[a], v.placement[b]]
            on_board(a) && on_board(b) && a != b && is_minor(v.placement[a]) && is_minor(
                v.placement[b],
            ) ==> v.placement[a].unwrap().piece_type == PieceType::Bishop
                && v.placement[b].unwrap().piece_type == PieceType::Bishop && is_dark(a) == is_dark(b)),
{
    let pl = v.placement;
    let kw = type_word(pl, PieceType::Knight);
    let bw = type_word(pl, PieceType::Bishop);
    lemma_type_word(pl, PieceType::Knight);
    lemma_type_word(pl, PieceType::Bishop);
    let pairs = forall|a: int, b: int|
        #![trigger pl[a], pl[b]]
        on_board(a) && on_board(b) && a != b && is_minor(pl[a]) && is_minor(pl[b])
            ==> pl[a].unwrap().piece_type == PieceType::Bishop && pl[b].unwrap().piece_type
            == PieceType::Bishop && is_dark(a) == is_dark(b);
    let dark_bishop = exists|s: int|
        #![trigger pl[s]]
        on_board(s) && pl[s] is Some && pl[s].unwrap().piece_type == PieceType::Bishop && is_dark(s);
    let light_bishop = exists|s: int|
        #![trigger pl[s]]
        on_board(s) && pl[s] is Some && pl[s].unwrap().piece_type == PieceType::Bishop && !is_dark(s);
    let knights = popcount(kw);
    let bishops = popcount(bw);
    // The counts' second disjunct holds exactly when the pairs condition does.
    if pairs {
        if knights + bishops > 1 {
            // Two minors exist; every minor then has another to pair with.
            let (a, b) = if knights >= 2 {
                lemma_count_two_members(kw, 64);
                let (a, b) = choose|a: int, b: int| 0 <= a < b < 64 && #[trigger] mem(kw, a) && #[trigger] mem(kw, b);
                (a, b)
            } else if bishops >= 2 {
                lemma_count_two_members(bw, 64);
                let (a, b) = choose|a: int, b: int| 0 <= a < b < 64 && #[trigger] mem(bw, a) && #[trigger] mem(bw, b);
                (a, b)
            } else {
                assert(knights >= 1 && bishops >= 1);
                crate::bitboard::lemma_count_zero(kw, 64);
                crate::bitboard::lemma_count_zero(bw, 64);
                let a = choose|a: int| 0 <= a < 64 && mem(kw, a);
                let b = choose|b: int| 0 <= b < 64 && mem(bw, b);
                (a, b)
            };
            assert(mem(kw, a) || mem(bw, a));
            assert(mem(kw, b) || mem(bw, b));
            assert(is_minor(pl[a]) && is_minor(pl[b]) && a != b);
            assert(pl[a].unwrap().piece_type == PieceType::Bishop);
            assert(knights == 0) by {
                crate::bitboard::lemma_count_zero(kw, 64);
                assert forall|s: int| 0 <= s < 64 implies !#[trigger] mem(kw, s) by {
                    if mem(kw, s) {
                        if s != a {
                            assert(is_minor(pl[s]));
                        } else {
                            assert(is_minor(pl[b]));
                        }
                    }
                }
            }
            assert(!(dark_bishop && light_bishop)) by {
                if dark_bishop && light_bishop {
                    let d = choose|s: int| on_board(s) && pl[s] is Some && pl[s].unwrap().piece_type == PieceType::Bishop && is_dark(s);
                    let l = choose|s: int| on_board(s) && pl[s] is Some && pl[s].unwrap().piece_type == PieceType::Bishop && !is_dark(s);
                    assert(is_minor(pl[d]) && is_minor(pl[l]));
                }
            }
        }
    }
    if knights + bishops <= 1 || (knights == 0 && !(dark_bishop && light_bishop)) {
        assert forall|a: int, b: int|
            on_board(a) && on_board(b) && a != b && is_minor(#[trigger] pl[a]) && is_minor(#[trigger] pl[b])
            implies pl[a].unwrap().piece_type == PieceType::Bishop && pl[b].unwrap().piece_type
            == PieceType::Bishop && is_dark(a) == is_dark(b) by {
            assert(mem(kw, a) || mem(bw, a));
            assert(mem(kw, b) || mem(bw, b));
            if knights + bishops <= 1 {
                let (lo, hi) = if a < b { (a, b) } else { (b, a) };
                if mem(kw, lo) && mem(kw, hi) {
                    lemma_count_ge2(kw, lo, hi, 64);
                } else if mem(bw, lo) && mem(bw, hi) {
                    lemma_count_ge2(bw, lo, hi, 64);
                } else if mem(kw, lo) {
                    lemma_count_ge1(kw, lo, 64);
                    lemma_count_ge1(bw, hi, 64);
                } else {
                    lemma_count_ge1(bw, lo, 64);
                    lemma_count_ge1(kw, hi, 64);
                }
            } else {
                if mem(kw, a) {
                    lemma_count_ge1(kw, a, 64);
                }
                if mem(kw, b) {
                    lemma_count_ge1(kw, b, 64);
                }
                if is_dark(a) != is_dark(b) {
                    if is_dark(a) {
                        assert(pl[a] is Some && pl[a].unwrap().piece_type == PieceType::Bishop);
                        assert(dark_bishop);
                        assert(light_bishop);
                    } else {
                        assert(dark_bishop);
                        assert(light_bishop);
                    }
                }
            }
        }
    }
}

/// The side to move's king is attacked.
pub open spec fn in_check_spec(v: BoardState) -> bool {
    attacked(v, king_sq(v, v.side), opposite(v.side), occ_word(v.placement))
}

/// Basic range facts every board state satisfies.
pub open spec fn state_wf(v: BoardState) -> bool {
    &&& v.placement.len() == 64
    &&& v.castling < 16
    &&& (v.ep matches Some(e) ==> on_board(e))
    &&& 0 <= v.halfmove < 65536
    &&& 0 <= v.fullmove < 65536
}

/// The en-passant target a double pawn push leaves behind.
pub open spec fn double_push_ep(m: Move) -> Option<int> {
    if mflag(m) == 1 {
        Some(((sq_rank(mfrom(m)) + sq_rank(mto(m))) / 2) * 8 + sq_file(mfrom(m)))
    } else {
        None
    }
}

fn double_push_target(mv: Move) -> (r: Option<Square>)
    ensures
        r matches Some(s) ==> s.wf(),
        match r {
            Some(s) => Some(s.0 as int),
            None => None,
        } == double_push_ep(mv),
{
    if mv.is_double_push() {
        let from = mv.from();
        let to = mv.to();
        Some(Square::make(from.file(), Rank((from.rank().0 + to.rank().0) / 2)))
    } else {
        None
    }
}

/// Castling-rights mask applied whenever a piece moves from or to `s`:
/// clears the rights invalidated by activity on a king or rook home square.
pub open spec fn castle_mask(s: int) -> u8 {
    if s == 4 {
        252
    } else if s == 0 {
        253
    } else if s == 7 {
        254
    } else if s == 60 {
        243
    } else if s == 56 {
        247
    } else if s == 63 {
        251
    } else {
        15
    }
}

fn castle_rights_mask(s: usize) -> (r: u8)
    ensures
        r == castle_mask(s as int),
{
    match s {
        4 => 252,
        0 => 253,
        7 => 254,
        60 => 243,
        56 => 247,
        63 => 251,
        _ => 15,
    }
}

/// The castling rook's home square.
pub open spec fn rook_home(us: Color, king_side: bool) -> int {
    match (us, king_side) {
        (Color::White, true) => 7,
        (Color::White, false) => 0,
        (Color::Black, true) => 63,
        (Color::Black, false) => 56,
    }
}

/// The castling rook's destination square.
pub open spec fn rook_dest(us: Color, king_side: bool) -> int {
    match (us, king_side) {
        (Color::White, true) => 5,
        (Color::White, false) => 3,
        (Color::Black, true) => 61,
        (Color::Black, false) => 59,
    }
}

/// The square of the pawn taken by an en-passant move.
pub open spec fn ep_cap_sq(m: Move) -> int {
    sq_rank(mfrom(m)) * 8 + sq_file(mto(m))
}

/// The piece that lands on the destination square.
pub open spec fn placed_piece(v: BoardState, m: Move) -> Piece {
    match promo_of_flag(mflag(m)) {
        Some(pt) => pc(v.side, pt),
        None => v.placement[mfrom(m)].unwrap(),
    }
}

/// The placement after playing `m` in `v`.
#[verifier::opaque]
pub open spec fn make_placement(v: BoardState, m: Move) -> Seq<Option<Piece>> {
    let from = mfrom(m);
    let to = mto(m);
    let f = mflag(m);
    let us = v.side;
    let pl1 = if f == 5 {
        v.placement.update(ep_cap_sq(m), None)
    } else if is_capture_flag(f) {
        v.placement.update(to, None)
    } else {
        v.placement
    };
    let pl2 = pl1.update(from, None).update(to, Some(placed_piece(v, m)));
    if f == 2 {
        pl2.update(rook_home(us, true), None).update(
            rook_dest(us, true),
            Some(pc(us, PieceType::Rook)),
        )
    } else if f == 3 {
        pl2.update(rook_home(us, false), None).update(
            rook_dest(us, false),
            Some(pc(us, PieceType::Rook)),
        )
    } else {
        pl2
    }
}

/// `m` can be applied to `v`: a piece of the side to move stands on its
/// from-square, its capture/quiet flag matches the target square, an
/// en-passant capture takes an enemy pawn, a castle moves the side's own
/// rook to an empty square, only pawns promote, and the clocks cannot
/// overflow.
pub open spec fn applicable(v: BoardState, m: Move) -> bool {
    let from = mfrom(m);
    let to = mto(m);
    let f = mflag(m);
    let us = v.side;
    let them = opposite(us);
    &&& from != to
    &&& v.placement[from] is Some
    &&& v.placement[from].unwrap().color == us
    &&& (is_promo_flag(f) ==> v.placement[from].unwrap().piece_type == PieceType::Pawn)
    &&& (f == 5 ==> ep_cap_sq(m) != from && ep_cap_sq(m) != to && v.placement[ep_cap_sq(m)]
        == Some(pc(them, PieceType::Pawn)) && v.placement[to] is None)
    &&& (is_capture_flag(f) && f != 5 ==> v.placement[to] is Some)
    &&& (!is_capture_flag(f) ==> v.placement[to] is None)
    &&& (f == 2 || f == 3 ==> {
        let rf = rook_home(us, f == 2);
        let rt = rook_dest(us, f == 2);
        &&& rf != from
        &&& rf != to
        &&& rt != from
        &&& rt != to
        &&& v.placement[rf] == Some(pc(us, PieceType::Rook))
        &&& v.placement[rt] is None
    })
    &&& v.halfmove < 65535
    &&& (us == Color::Black ==> v.fullmove < 65535)
}

/// The position after playing `m` in `v`.
#[verifier::opaque]
pub open spec fn make_view(v: BoardState, m: Move) -> BoardState {
    let from = mfrom(m);
    let to = mto(m);
    let f = mflag(m);
    BoardState {
        placement: make_placement(v, m),
        side: opposite(v.side),
        castling: v.castling & castle_mask(from) & castle_mask(to),
        ep: double_push_ep(m),
        halfmove: if is_capture_flag(f) || v.placement[from].unwrap().piece_type
            == PieceType::Pawn {
            0
        } else {
            v.halfmove + 1
        },
        fullmove: if v.side == Color::Black {
            v.fullmove + 1
        } else {
            v.fullmove
        },
    }
}

/// The undo record `make_move` returns for `m` in `v`.
pub open spec fn undo_spec(v: BoardState, m: Move) -> Undo {
    let f = mflag(m);
    Undo {
        captured: if f == 5 {
            Some(pc(opposite(v.side), PieceType::Pawn))
        } else if is_capture_flag(f) {
            v.placement[mto(m)]
        } else {
            None
        },
        castling: CastlingRights(v.castling),
        ep_square: match v.ep {
            Some(e) => Some(Square(e as u8)),
            None => None,
        },
        halfmove_clock: v.halfmove as u16,
        hash: zobrist(v),
    }
}

/// The placement `unmake_move(m, u)` restores from `w`.
#[verifier::opaque]
pub open spec fn unmake_placement(w: BoardState, m: Move, u: Undo) -> Seq<Option<Piece>> {
    let from = mfrom(m);
    let to = mto(m);
    let f = mflag(m);
    let them = w.side;
    let us = opposite(them);
    let pl = w.placement;
    let pl1 = match promo_of_flag(f) {
        Some(_) => pl.update(to, None).update(from, Some(pc(us, PieceType::Pawn))),
        None => pl.update(to, None).update(from, Some(pc(us, pl[to].unwrap().piece_type))),
    };
    let pl2 = if f == 5 {
        pl1.update(ep_cap_sq(m), Some(pc(them, PieceType::Pawn)))
    } else {
        match u.captured {
            Some(c) => pl1.update(to, Some(c)),
            None => pl1,
        }
    };
    if f == 2 {
        pl2.update(rook_dest(us, true), None).update(
            rook_home(us, true),
            Some(pc(us, PieceType::Rook)),
        )
    } else if f == 3 {
        pl2.update(rook_dest(us, false), None).update(
            rook_home(us, false),
            Some(pc(us, PieceType::Rook)),
        )
    } else {
        pl2
    }
}

/// The position `unmake_move(m, u)` restores from `w`.
#[verifier::opaque]
pub open spec fn unmake_view(w: BoardState, m: Move, u: Undo) -> BoardState {
    let us = opposite(w.side);
    BoardState {
        placement: unmake_placement(w, m, u),
        side: us,
        castling: u.castling.0,
        ep: match u.ep_square {
            Some(s) => Some(s.0 as int),
            None => None,
        },
        halfmove: u.halfmove_clock as int,
        fullmove: if us == Color::Black {
            w.fullmove - 1
        } else {
            w.fullmove
        },
    }
}

/// Unmaking a move with the record its make produced restores the position
/// exactly: make/unmake are inverse on every applicable move.
/// Taking a move back restores the very board it was played on: after
/// `make_move(mv)` on `b0` (a board that keeps the invariant), the board
/// `unmake_move` leaves with the returned record (one that keeps the
/// invariant and shows the position it computes) is `b0`, field for field,
/// its key included.
pub proof fn lemma_unmake_restores(b0: Board, mv: Move, b1: Board)
    requires
        b0.inv(),
        state_wf(b0@),
        applicable(b0@, mv),
        b1.inv(),
        b1@ == unmake_view(make_view(b0@, mv), mv, undo_spec(b0@, mv)),
    ensures
        b1 == b0,
{
    lemma_unmake_inverts_make(b0@, mv);
    b1.lemma_view_determines(&b0);
}

pub proof fn lemma_unmake_inverts_make(v: BoardState, m: Move)
    requires
        state_wf(v),
        applicable(v, m),
    ensures
        unmake_view(make_view(v, m), m, undo_spec(v, m)) == v,
{
    reveal(make_placement);
    reveal(make_view);
    reveal(unmake_placement);
    reveal(unmake_view);
    let w = make_view(v, m);
    let r = unmake_view(w, m, undo_spec(v, m));
    assert(r.placement =~= v.placement);
    assert(r.ep == v.ep);
}

/// The Zobrist key is the xor of its four parts.
pub proof fn lemma_zobrist_unfold(v: BoardState)
    ensures
        zobrist(v) == placement_hash(v.placement, 64) ^ castling_key_spec(v.castling) ^ ep_key(
            v.placement,
            v.ep,
            v.side,
        ) ^ turn_term(v.side),
{
    reveal(zobrist);
}

/// Xor of no keys is zero.
pub proof fn lemma_placement_hash_empty(pl: Seq<Option<Piece>>, n: int)
    requires
        forall|s: int| 0 <= s < n ==> #[trigger] pl[s] is None,
    ensures
        placement_hash(pl, n) == 0,
    decreases n,
{
    if n > 0 {
        lemma_placement_hash_empty(pl, n - 1);
        assert(pl[n - 1] is None);
        lemma_xor_basics(0u64);
    }
}

/// Changing one square's content changes the placement key by the two
/// contents' keys.
pub proof fn lemma_placement_hash_update(pl: Seq<Option<Piece>>, s: int, x: Option<Piece>, n: int)
    requires
        0 <= s < pl.len(),
        n <= pl.len(),
    ensures
        placement_hash(pl.update(s, x), n) == placement_hash(pl, n) ^ (if s < n {
            content_key(pl[s], s) ^ content_key(x, s)
        } else {
            0u64
        }),
    decreases n,
{
    let q = pl.update(s, x);
    if n <= 0 {
        lemma_xor_basics(0u64);
    } else {
        lemma_placement_hash_update(pl, s, x, n - 1);
        let a = placement_hash(pl, n - 1);
        let ck_old = content_key(pl[s], s);
        let ck_new = content_key(x, s);
        let c = content_key(pl[n - 1], n - 1);
        if s == n - 1 {
            assert(placement_hash(q, n - 1) == a ^ 0u64);
            assert(a ^ 0u64 ^ ck_new == (a ^ ck_old) ^ (ck_old ^ ck_new)) by (bit_vector);
        } else if s < n - 1 {
            assert(q[n - 1] == pl[n - 1]);
            assert((a ^ (ck_old ^ ck_new)) ^ c == (a ^ c) ^ (ck_old ^ ck_new)) by (bit_vector);
        } else {
            assert(q[n - 1] == pl[n - 1]);
            assert((a ^ 0u64) ^ c == (a ^ c) ^ 0u64) by (bit_vector);
        }
    }
}

/// Two placements agreeing on squares `0..n` have the same placement key.
pub proof fn lemma_placement_hash_ext(p: Seq<Option<Piece>>, q: Seq<Option<Piece>>, n: int)
    requires
        forall|s: int| 0 <= s < n ==> #[trigger] p[s] == q[s],
    ensures
        placement_hash(p, n) == placement_hash(q, n),
    decreases n,
{
    if n > 0 {
        lemma_placement_hash_ext(p, q, n - 1);
    }
}

} // verus!
