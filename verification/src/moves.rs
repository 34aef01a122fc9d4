//! A 16-bit packed [`Move`] and a growable [`MoveList`].
//!
//! Encoding:
//! ```text
//!  bits  0..6   from square (0..64)
//!  bits  6..12  to square   (0..64)
//!  bits 12..16  flags:
//!    0000 quiet            0001 double pawn push
//!    0010 king castle      0011 queen castle
//!    0100 capture          0101 en-passant capture
//!    1000 N-promo  1001 B-promo  1010 R-promo  1011 Q-promo
//!    1100 N-promo-capture ... 1111 Q-promo-capture
//! ```
//! Bit `0b1000` marks a promotion, bit `0b0100` marks a capture, and for
//! promotions the low two bits select the piece (`0=N,1=B,2=R,3=Q`).

use crate::types::{PieceType, Square};
use vstd::prelude::*;

verus! {

/// Move flag nibble.
#[derive(Clone, Copy, PartialEq, Eq, Structural, Debug)]
pub enum MoveFlag {
    Quiet,
    DoublePawnPush,
    KingCastle,
    QueenCastle,
    Capture,
    EnPassant,
    KnightPromo,
    BishopPromo,
    RookPromo,
    QueenPromo,
    KnightPromoCapture,
    BishopPromoCapture,
    RookPromoCapture,
    QueenPromoCapture,
}

/// The flag nibble that encodes each [`MoveFlag`].
pub open spec fn flag_code(f: MoveFlag) -> u16 {
    match f {
        MoveFlag::Quiet => 0,
        MoveFlag::DoublePawnPush => 1,
        MoveFlag::KingCastle => 2,
        MoveFlag::QueenCastle => 3,
        MoveFlag::Capture => 4,
        MoveFlag::EnPassant => 5,
        MoveFlag::KnightPromo => 8,
        MoveFlag::BishopPromo => 9,
        MoveFlag::RookPromo => 10,
        MoveFlag::QueenPromo => 11,
        MoveFlag::KnightPromoCapture => 12,
        MoveFlag::BishopPromoCapture => 13,
        MoveFlag::RookPromoCapture => 14,
        MoveFlag::QueenPromoCapture => 15,
    }
}

impl MoveFlag {
    /// The 4-bit code of this flag.
    pub fn code(self) -> (r: u16)
        ensures
            r == flag_code(self),
    {
        match self {
            MoveFlag::Quiet => 0,
            MoveFlag::DoublePawnPush => 1,
            MoveFlag::KingCastle => 2,
            MoveFlag::QueenCastle => 3,
            MoveFlag::Capture => 4,
            MoveFlag::EnPassant => 5,
            MoveFlag::KnightPromo => 8,
            MoveFlag::BishopPromo => 9,
            MoveFlag::RookPromo => 10,
            MoveFlag::QueenPromo => 11,
            MoveFlag::KnightPromoCapture => 12,
            MoveFlag::BishopPromoCapture => 13,
            MoveFlag::RookPromoCapture => 14,
            MoveFlag::QueenPromoCapture => 15,
        }
    }
}

/// A chess move packed into 16 bits.
#[derive(Clone, Copy, PartialEq, Eq, Structural, Hash, Debug)]
pub struct Move(pub u16);

/// The move word with the given from-square, to-square, and flag nibble.
pub open spec fn encode(from: int, to: int, flag: int) -> u16 {
    (from + to * 64 + flag * 4096) as u16
}

/// From-square index of a move word.
pub open spec fn mfrom(m: Move) -> int {
    m.0 as int % 64
}

/// To-square index of a move word.
pub open spec fn mto(m: Move) -> int {
    (m.0 as int / 64) % 64
}

/// Flag nibble of a move word.
pub open spec fn mflag(m: Move) -> int {
    m.0 as int / 4096
}

pub open spec fn is_capture_flag(f: int) -> bool {
    (f / 4) % 2 == 1
}

pub open spec fn is_promo_flag(f: int) -> bool {
    f >= 8
}

/// The promoted-to piece type named by a flag nibble, if any.
pub open spec fn promo_of_flag(f: int) -> Option<PieceType> {
    if f < 8 {
        None
    } else if f % 4 == 0 {
        Some(PieceType::Knight)
    } else if f % 4 == 1 {
        Some(PieceType::Bishop)
    } else if f % 4 == 2 {
        Some(PieceType::Rook)
    } else {
        Some(PieceType::Queen)
    }
}

/// The promotion nibble (without capture bit) for a target piece; pawns and
/// kings are not promotion targets and fall back to the queen.
pub open spec fn promo_base(pt: PieceType) -> int {
    match pt {
        PieceType::Knight => 8,
        PieceType::Bishop => 9,
        PieceType::Rook => 10,
        _ => 11,
    }
}

proof fn lemma_encode(from: u16, to: u16, flag: u16)
    requires
        from < 64,
        to < 64,
        flag < 16,
    ensures
        from | (to << 6u16) | (flag << 12u16) == encode(from as int, to as int, flag as int),
        mfrom(Move(encode(from as int, to as int, flag as int))) == from,
        mto(Move(encode(from as int, to as int, flag as int))) == to,
        mflag(Move(encode(from as int, to as int, flag as int))) == flag,
{
    assert(from < 64 && to < 64 && flag < 16 ==> from | (to << 6u16) | (flag << 12u16) == from + to
        * 64 + flag * 4096) by (bit_vector);
}

proof fn lemma_decode(m: u16)
    ensures
        (m & 0x3Fu16) == m % 64,
        ((m >> 6u16) & 0x3Fu16) == (m / 64) % 64,
        (m >> 12u16) == m / 4096,
        m as int == (m % 64) + ((m / 64) % 64) * 64 + (m / 4096) * 4096,
{
    assert((m & 0x3Fu16) == m % 64) by (bit_vector);
    assert(((m >> 6u16) & 0x3Fu16) == (m / 64) % 64) by (bit_vector);
    assert((m >> 12u16) == m / 4096) by (bit_vector);
}

/// A move word is determined by its from-square, to-square, and flag.
pub proof fn lemma_move_ext(a: Move, b: Move)
    requires
        mfrom(a) == mfrom(b),
        mto(a) == mto(b),
        mflag(a) == mflag(b),
    ensures
        a == b,
{
    lemma_decode(a.0);
    lemma_decode(b.0);
}

/// Facts about the components of any move word.
pub proof fn lemma_move_ranges(m: Move)
    ensures
        0 <= mfrom(m) < 64,
        0 <= mto(m) < 64,
        0 <= mflag(m) < 16,
{
}

impl Move {
    /// The sentinel "no move" (encodes a1->a1 quiet, never a legal move).
    pub fn none() -> (r: Move)
        ensures
            r == Move(0),
    {
        Move(0)
    }

    pub(crate) fn new_raw(from: Square, to: Square, flag: u16) -> (r: Move)
        requires
            from.wf(),
            to.wf(),
            flag < 16,
        ensures
            r.0 == encode(from.0 as int, to.0 as int, flag as int),
            mfrom(r) == from.0,
            mto(r) == to.0,
            mflag(r) == flag,
    {
        proof {
            lemma_encode(from.0 as u16, to.0 as u16, flag);
        }
        Move((from.0 as u16) | ((to.0 as u16) << 6u16) | (flag << 12u16))
    }

    pub fn new(from: Square, to: Square, flag: MoveFlag) -> (r: Move)
        requires
            from.wf(),
            to.wf(),
        ensures
            r.0 == encode(from.0 as int, to.0 as int, flag_code(flag) as int),
            mfrom(r) == from.0,
            mto(r) == to.0,
            mflag(r) == flag_code(flag),
    {
        Self::new_raw(from, to, flag.code())
    }

    pub fn quiet(from: Square, to: Square) -> (r: Move)
        requires
            from.wf(),
            to.wf(),
        ensures
            r.0 == encode(from.0 as int, to.0 as int, 0),
            mfrom(r) == from.0,
            mto(r) == to.0,
            mflag(r) == 0,
    {
        Self::new_raw(from, to, 0)
    }

    pub fn capture(from: Square, to: Square) -> (r: Move)
        requires
            from.wf(),
            to.wf(),
        ensures
            r.0 == encode(from.0 as int, to.0 as int, 4),
            mfrom(r) == from.0,
            mto(r) == to.0,
            mflag(r) == 4,
    {
        Self::new_raw(from, to, 4)
    }

    pub fn double_push(from: Square, to: Square) -> (r: Move)
        requires
            from.wf(),
            to.wf(),
        ensures
            r.0 == encode(from.0 as int, to.0 as int, 1),
            mfrom(r) == from.0,
            mto(r) == to.0,
            mflag(r) == 1,
    {
        Self::new_raw(from, to, 1)
    }

    pub fn en_passant(from: Square, to: Square) -> (r: Move)
        requires
            from.wf(),
            to.wf(),
        ensures
            r.0 == encode(from.0 as int, to.0 as int, 5),
            mfrom(r) == from.0,
            mto(r) == to.0,
            mflag(r) == 5,
    {
        Self::new_raw(from, to, 5)
    }

    /// Promotion to `piece`; `capture` selects the promo-capture variant.
    pub fn promotion(from: Square, to: Square, piece: PieceType, capture: bool) -> (r: Move)
        requires
            from.wf(),
            to.wf(),
        ensures
            r.0 == encode(
                from.0 as int,
                to.0 as int,
                promo_base(piece) + if capture {
                    4int
                } else {
                    0int
                },
            ),
            mfrom(r) == from.0,
            mto(r) == to.0,
            mflag(r) == promo_base(piece) + if capture {
                4int
            } else {
                0int
            },
    {
        let base: u16 = match piece {
            PieceType::Knight => 8,
            PieceType::Bishop => 9,
            PieceType::Rook => 10,
            _ => 11,
        };
        let flag = if capture {
            base + 4
        } else {
            base
        };
        Self::new_raw(from, to, flag)
    }

    pub fn from(self) -> (r: Square)
        ensures
            r.0 == mfrom(self),
            r.wf(),
    {
        proof {
            lemma_decode(self.0);
        }
        Square((self.0 & 0x3F) as u8)
    }

    pub fn to(self) -> (r: Square)
        ensures
            r.0 == mto(self),
            r.wf(),
    {
        proof {
            lemma_decode(self.0);
        }
        Square(((self.0 >> 6) & 0x3F) as u8)
    }

    pub fn flag_bits(self) -> (r: u16)
        ensures
            r == mflag(self),
            r < 16,
    {
        proof {
            lemma_decode(self.0);
        }
        self.0 >> 12
    }

    pub fn is_capture(self) -> (r: bool)
        ensures
            r == is_capture_flag(mflag(self)),
    {
        let f = self.flag_bits();
        (f / 4) % 2 == 1
    }

    pub fn is_promotion(self) -> (r: bool)
        ensures
            r == is_promo_flag(mflag(self)),
    {
        self.flag_bits() >= 8
    }

    pub fn is_en_passant(self) -> (r: bool)
        ensures
            r == (mflag(self) == 5),
    {
        self.flag_bits() == 5
    }

    pub fn is_double_push(self) -> (r: bool)
        ensures
            r == (mflag(self) == 1),
    {
        self.flag_bits() == 1
    }

    pub fn is_king_castle(self) -> (r: bool)
        ensures
            r == (mflag(self) == 2),
    {
        self.flag_bits() == 2
    }

    pub fn is_queen_castle(self) -> (r: bool)
        ensures
            r == (mflag(self) == 3),
    {
        self.flag_bits() == 3
    }

    pub fn is_castle(self) -> (r: bool)
        ensures
            r == (mflag(self) == 2 || mflag(self) == 3),
    {
        self.is_king_castle() || self.is_queen_castle()
    }

    /// The promoted-to piece type, if this is a promotion.
    pub fn promotion_piece(self) -> (r: Option<PieceType>)
        ensures
            r == promo_of_flag(mflag(self)),
    {
        let f = self.flag_bits();
        if f < 8 {
            return None;
        }
        let k = f % 4;
        if k == 0 {
            Some(PieceType::Knight)
        } else if k == 1 {
            Some(PieceType::Bishop)
        } else if k == 2 {
            Some(PieceType::Rook)
        } else {
            Some(PieceType::Queen)
        }
    }

    pub fn is_none(self) -> (r: bool)
        ensures
            r == (self.0 == 0),
    {
        self.0 == 0
    }
}

/// A list of moves in generation order.
pub struct MoveList {
    moves: Vec<Move>,
}

impl View for MoveList {
    type V = Seq<Move>;

    closed spec fn view(&self) -> Seq<Move> {
        self.moves@
    }
}

impl MoveList {
    pub fn new() -> (r: MoveList)
        ensures
            r@ == Seq::<Move>::empty(),
    {
        MoveList { moves: Vec::new() }
    }

    pub fn push(&mut self, mv: Move)
        ensures
            final(self)@ == old(self)@.push(mv),
    {
        self.moves.push(mv);
    }

    pub fn len(&self) -> (r: usize)
        ensures
            r == self@.len(),
    {
        self.moves.len()
    }

    pub fn is_empty(&self) -> (r: bool)
        ensures
            r == (self@.len() == 0),
    {
        self.moves.len() == 0
    }

    pub fn clear(&mut self)
        ensures
            final(self)@ == Seq::<Move>::empty(),
    {
        self.moves.clear();
    }

    pub fn as_slice(&self) -> (r: &[Move])
        ensures
            r@ == self@,
    {
        self.moves.as_slice()
    }

    /// Iterate over the moves in order.
    pub fn iter(&self) -> (r: core::slice::Iter<'_, Move>)
        ensures
            vstd::std_specs::iter::IteratorSpec::remaining(&r).unref() == self@,
    {
        let s = self.moves.as_slice();
        let it = s.iter();
        proof {
            vstd::std_specs::slice::axiom_spec_slice_iter(s);
        }
        it
    }

    /// The move at position `i`.
    pub fn get(&self, i: usize) -> (r: Move)
        requires
            i < self@.len(),
        ensures
            r == self@[i as int],
    {
        self.moves[i]
    }

    pub fn contains(&self, mv: Move) -> (r: bool)
        ensures
            r == self@.contains(mv),
    {
        let mut i: usize = 0;
        while i < self.moves.len()
            invariant
                0 <= i <= self.moves@.len(),
                forall|j: int| 0 <= j < i ==> self.moves@[j] != mv,
            decreases self.moves@.len() - i,
        {
            if self.moves[i] == mv {
                return true;
            }
            i = i + 1;
        }
        false
    }
}

} // verus!
