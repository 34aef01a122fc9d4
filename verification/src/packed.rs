//! The compact 34-byte canonical position form.
//!
//! Layout:
//! ```text
//!  bytes 0..32  nibble board: square s -> byte s/2, low nibble if s even.
//!               nibble 0 = empty, else (color<<3)|(piece_type+1)
//!               (White 1..=6, Black 9..=14) — same code as the mailbox.
//!  bytes 32..34 little-endian u16 state:
//!               bit  0      side to move (0 = White, 1 = Black)
//!               bits 1..5   castling rights (WK,WQ,BK,BQ)
//!               bits 5..9   en passant: 0 = none, else file+1 (1=a .. 8=h)
//!               bits 9..16  half-move clock, clamped to 127
//! ```
//!
//! The full-move number is intentionally dropped and the half-move clock is
//! clamped to 7 bits — neither affects legality, outcome, or the Zobrist key.
//! Random access (`piece_at`, `side_to_move`, …) works without unpacking.
use crate::board::{Board, BoardState, decode, encode_piece, encode_spec, state_wf, valid_code};
use crate::types::{
    CastlingRights, Color, Piece, PieceType, Square, color_index, pt_from_index, pt_index,
};
use vstd::prelude::*;

verus! {

/// A position packed into 34 bytes.
#[derive(Clone, Copy, PartialEq, Eq, Hash, Debug)]
pub struct Packed {
    pub bytes: [u8; 34],
}

/// The nibble holding square `s`.
pub open spec fn nibble_at(bytes: Seq<u8>, s: int) -> u8 {
    if s % 2 == 0 {
        bytes[s / 2] & 15
    } else {
        bytes[s / 2] >> 4
    }
}

/// The little-endian state word.
pub open spec fn state_word(bytes: Seq<u8>) -> u16 {
    (bytes[32] as u16) | ((bytes[33] as u16) << 8)
}

/// The piece a nibble code names: `0` and the unused codes `7` and `15`
/// name none.
pub open spec fn nibble_piece(c: u8) -> Option<Piece> {
    if c == 0 {
        None
    } else {
        match pt_from_index(c % 8 - 1) {
            Some(pt) => Some(
                Piece {
                    color: if c >= 8 {
                        Color::Black
                    } else {
                        Color::White
                    },
                    piece_type: pt,
                },
            ),
            None => None,
        }
    }
}

/// The nibble code stored for a square's content.
pub open spec fn cell_code(c: Option<Piece>) -> u8 {
    match c {
        Some(p) => encode_spec(p),
        None => 0,
    }
}

/// The en-passant code: `0`, or the target's file plus one.
pub open spec fn ep_code(ep: Option<int>) -> int {
    match ep {
        Some(e) => e % 8 + 1,
        None => 0,
    }
}

/// The state word of a position.
pub open spec fn pack_state(v: BoardState) -> int {
    color_index(v.side) + v.castling * 2 + ep_code(v.ep) * 32 + (if v.halfmove < 127 {
        v.halfmove
    } else {
        127
    }) * 512
}

/// `bytes` is the packed form of `v`.
pub open spec fn packs(bytes: Seq<u8>, v: BoardState) -> bool {
    &&& bytes.len() == 34
    &&& forall|s: int| 0 <= s < 64 ==> #[trigger] nibble_at(bytes, s) == cell_code(v.placement[s])
    &&& state_word(bytes) == pack_state(v)
}

/// The position a packed form stands for (full-move number 1).
pub open spec fn packed_view(bytes: Seq<u8>) -> BoardState {
    let st = state_word(bytes);
    let side = if st & 1 == 0 {
        Color::White
    } else {
        Color::Black
    };
    let code = (st >> 5u16) & 15;
    BoardState {
        placement: Seq::new(64, |s: int| nibble_piece(nibble_at(bytes, s))),
        side,
        castling: ((st >> 1u16) & 15) as u8,
        ep: if code == 0 {
            None
        } else {
            Some(
                (if side == Color::White {
                    5int
                } else {
                    2int
                }) * 8 + code - 1,
            )
        },
        halfmove: ((st >> 9u16) & 127) as int,
        fullmove: 1,
    }
}

/// No nibble of the board holds the code `8`, which names no piece.
pub open spec fn nibbles_ok(bytes: Seq<u8>) -> bool {
    forall|s: int| 0 <= s < 64 ==> #[trigger] nibble_at(bytes, s) != 8
}

/// The piece a nibble code names.
fn decode_nibble(c: u8) -> (r: Option<Piece>)
    requires
        c < 16,
        c != 8,
    ensures
        r == nibble_piece(c),
{
    if c == 0 {
        return None;
    }
    let color = if c >= 8 {
        Color::Black
    } else {
        Color::White
    };
    match PieceType::from_index((c % 8) as usize - 1) {
        Some(pt) => Some(Piece::new(color, pt)),
        None => None,
    }
}

impl Packed {
    /// Read the nibble code for a square (`0` = empty).
    fn nibble(&self, sq: Square) -> (r: u8)
        requires
            sq.wf(),
        ensures
            r == nibble_at(self.bytes@, sq.0 as int),
            r < 16,
    {
        let byte = self.bytes[(sq.0 / 2) as usize];
        if sq.0 % 2 == 0 {
            assert(byte & 15 < 16) by (bit_vector);
            byte & 15
        } else {
            assert(byte >> 4 < 16) by (bit_vector);
            byte >> 4
        }
    }

    /// Store the nibble code for a square.
    fn set_nibble(&mut self, sq: Square, code: u8)
        requires
            sq.wf(),
            code < 16,
        ensures
            forall|s: int|
                0 <= s < 64 && s != sq.0 ==> #[trigger] nibble_at(final(self).bytes@, s)
                    == nibble_at(old(self).bytes@, s),
            nibble_at(final(self).bytes@, sq.0 as int) == code,
            final(self).bytes@[32] == old(self).bytes@[32],
            final(self).bytes@[33] == old(self).bytes@[33],
    {
        let idx = (sq.0 / 2) as usize;
        let old_byte = self.bytes[idx];
        if sq.0 % 2 == 0 {
            let nb = (old_byte & 0xF0) | (code & 0x0F);
            assert(nb & 15 == code && nb >> 4 == old_byte >> 4) by (bit_vector)
                requires
                    nb == (old_byte & 0xF0) | (code & 0x0F),
                    code < 16,
            ;
            self.bytes[idx] = nb;
        } else {
            let nb = (old_byte & 0x0F) | (code << 4);
            assert(nb >> 4 == code && nb & 15 == old_byte & 15) by (bit_vector)
                requires
                    nb == (old_byte & 0x0F) | (code << 4),
                    code < 16,
            ;
            self.bytes[idx] = nb;
        }
    }

    /// The little-endian state word.
    fn state(&self) -> (r: u16)
        ensures
            r == state_word(self.bytes@),
    {
        (self.bytes[32] as u16) | ((self.bytes[33] as u16) << 8)
    }

    /// Store the state word.
    fn set_state(&mut self, state: u16)
        ensures
            state_word(final(self).bytes@) == state,
            forall|i: int| 0 <= i < 32 ==> #[trigger] final(self).bytes@[i] == old(self).bytes@[i],
    {
        let a = (state & 0xFF) as u8;
        let b = (state >> 8) as u8;
        assert(((a as u16) | ((b as u16) << 8)) == state) by (bit_vector)
            requires
                a == (state & 0xFF) as u8,
                b == (state >> 8) as u8,
        ;
        self.bytes[32] = a;
        self.bytes[33] = b;
    }

    /// The piece on `sq`, if any — without unpacking the whole board.
    pub fn piece_at(&self, sq: Square) -> (r: Option<Piece>)
        requires
            sq.wf(),
            nibble_at(self.bytes@, sq.0 as int) != 8,
        ensures
            r == nibble_piece(nibble_at(self.bytes@, sq.0 as int)),
    {
        decode_nibble(self.nibble(sq))
    }

    pub fn side_to_move(&self) -> (r: Color)
        ensures
            r == packed_view(self.bytes@).side,
    {
        if self.state() & 1 == 0 {
            Color::White
        } else {
            Color::Black
        }
    }

    pub fn castling_rights(&self) -> (r: CastlingRights)
        ensures
            r.0 == packed_view(self.bytes@).castling,
            r.0 < 16,
    {
        let st = self.state();
        assert((st >> 1u16) & 15 < 16) by (bit_vector);
        CastlingRights(((st >> 1) & 0x0F) as u8)
    }

    pub fn en_passant_square(&self) -> (r: Option<Square>)
        ensures
            match r {
                Some(s) => s.wf() && packed_view(self.bytes@).ep == Some(s.0 as int),
                None => packed_view(self.bytes@).ep is None,
            },
    {
        let st = self.state();
        let code = (st >> 5) & 0x0F;
        assert(code < 16) by (bit_vector)
            requires
                code == (st >> 5u16) & 15,
        ;
        if code == 0 {
            None
        } else {
            // Reconstruct the rank from side to move: the ep target sits on the
            // rank "behind" the pawn that just moved.
            let rank: u8 = match self.side_to_move() {
                Color::White => 5,
                Color::Black => 2,
            };
            Some(Square(rank * 8 + (code - 1) as u8))
        }
    }

    pub fn halfmove_clock(&self) -> (r: u16)
        ensures
            r == packed_view(self.bytes@).halfmove,
            r < 128,
    {
        let st = self.state();
        assert((st >> 9u16) & 127 < 128) by (bit_vector);
        (st >> 9) & 0x7F
    }

    /// Reconstruct a full working [`Board`].
    pub fn unpack(&self) -> (r: Board)
        requires
            nibbles_ok(self.bytes@),
        ensures
            r.inv(),
            r@ == packed_view(self.bytes@),
    {
        let ghost pl = packed_view(self.bytes@).placement;
        let mut board = Board::empty();
        let mut i: u8 = 0;
        while i < 64
            invariant
                i <= 64,
                board.wf(),
                nibbles_ok(self.bytes@),
                pl == packed_view(self.bytes@).placement,
                board@.placement == Seq::new(
                    64,
                    |t: int|
                        if t < i {
                            pl[t]
                        } else {
                            None
                        },
                ),
            decreases 64 - i,
        {
            let sq = Square(i);
            match self.piece_at(sq) {
                Some(p) => {
                    board.set_square(sq, p);
                },
                None => {},
            }
            i += 1;
            assert(board@.placement =~= Seq::new(
                64,
                |t: int|
                    if t < i {
                        pl[t]
                    } else {
                        None
                    },
            ));
        }
        assert(board@.placement =~= pl);
        board.set_state(
            self.side_to_move(),
            self.castling_rights(),
            self.en_passant_square(),
            self.halfmove_clock(),
            1,
        );
        board.refresh_hash();
        board
    }
}

impl Board {
    /// Pack this position into its 34-byte canonical form.
    pub fn pack(&self) -> (r: Packed)
        requires
            self.wf(),
        ensures
            packs(r.bytes@, self@),
    {
        let mut p = Packed { bytes: [0;34] };
        assert forall|s: int| 0 <= s < 64 implies #[trigger] nibble_at(p.bytes@, s) == 0 by {
            assert(p.bytes@[s / 2] == 0);
            assert(0u8 & 15 == 0 && 0u8 >> 4 == 0) by (bit_vector);
        }
        let mut i: u8 = 0;
        while i < 64
            invariant
                i <= 64,
                self.wf(),
                forall|s: int|
                    0 <= s < 64 ==> #[trigger] nibble_at(p.bytes@, s) == if s < i {
                        cell_code(self@.placement[s])
                    } else {
                        0
                    },
            decreases 64 - i,
        {
            let sq = Square(i);
            match self.piece_at(sq) {
                Some(piece) => {
                    let code = encode_piece(piece);
                    p.set_nibble(sq, code);
                },
                None => {},
            }
            i += 1;
        }
        let side_bit: u16 = match self.side_to_move() {
            Color::White => 0,
            Color::Black => 1,
        };
        let c = self.castling_rights().0 as u16;
        let ep: u16 = match self.en_passant_square() {
            Some(sq) => (sq.0 % 8) as u16 + 1,
            None => 0,
        };
        let h = self.halfmove_clock();
        let hm: u16 = if h < 127 {
            h
        } else {
            127
        };
        proof {
            self.lemma_view_len();
        }
        let state = side_bit | ((c & 0x0F) << 1) | ((ep & 0x0F) << 5) | ((hm & 0x7F) << 9);
        assert(state == side_bit + c * 2 + ep * 32 + hm * 512) by (bit_vector)
            requires
                state == side_bit | ((c & 0x0F) << 1) | ((ep & 0x0F) << 5) | ((hm & 0x7F) << 9),
                side_bit < 2,
                c < 16,
                ep < 16,
                hm < 128,
        ;
        let ghost before = p.bytes@;
        p.set_state(state);
        assert forall|s: int| 0 <= s < 64 implies #[trigger] nibble_at(p.bytes@, s) == cell_code(
            self@.placement[s],
        ) by {
            assert(p.bytes@[s / 2] == before[s / 2]);
            assert(nibble_at(before, s) == cell_code(self@.placement[s]));
        }
        assert(state_word(p.bytes@) == pack_state(self@));
        p
    }
}

} // verus!

verus! {

/// Unpacking the packed form of a position gives the position back, up to
/// the dropped full-move number (read as 1) and the half-move clock clamped
/// to 127, provided an en-passant target lies on the rank behind a pawn of the
/// side that just moved (rank 6 with White to move, rank 3 with Black).
pub proof fn lemma_pack_round_trip(bytes: Seq<u8>, v: BoardState)
    requires
        packs(bytes, v),
        state_wf(v),
        v.ep matches Some(e) ==> e / 8 == if v.side == Color::White {
            5int
        } else {
            2int
        },
    ensures
        nibbles_ok(bytes),
        packed_view(bytes) == (BoardState {
            halfmove: if v.halfmove < 127 {
                v.halfmove
            } else {
                127
            },
            fullmove: 1,
            ..v
        }),
{
    let w = packed_view(bytes);
    assert forall|s: int| 0 <= s < 64 implies #[trigger] nibble_at(bytes, s) != 8
        && nibble_piece(nibble_at(bytes, s)) == v.placement[s] by {
        assert(nibble_at(bytes, s) == cell_code(v.placement[s]));
    }
    assert(w.placement =~= v.placement);
    let st = state_word(bytes);
    let side: u16 = color_index(v.side) as u16;
    let c: u16 = v.castling as u16;
    let e: u16 = ep_code(v.ep) as u16;
    let h: u16 = (if v.halfmove < 127 {
        v.halfmove
    } else {
        127
    }) as u16;
    assert(st == side + c * 2 + e * 32 + h * 512);
    assert(st & 1 == side && (st >> 1u16) & 15 == c && (st >> 5u16) & 15 == e && (st >> 9u16)
        & 127 == h) by (bit_vector)
        requires
            st == side + c * 2 + e * 32 + h * 512,
            side < 2,
            c < 16,
            e < 16,
            h < 128,
    ;
    assert(w.side == v.side);
    assert(w.castling == v.castling);
    assert(w.ep == v.ep);
}

} // verus!
