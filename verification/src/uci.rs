//! UCI long algebraic move notation (`e2e4`, `e1g1`, `e7e8q`).
//!
//! Parsing resolves the bare from/to/promotion against the legal move list, so
//! the returned [`Move`] always carries correct capture / en-passant / castle /
//! double-push flags.
use crate::board::Board;
use crate::movegen::{legal, lemma_pseudo_unique};
use crate::moves::{Move, mflag, mfrom, mto, promo_of_flag};
use crate::text::chars_of;
use crate::types::{PieceType, Square, file_char, pt_char, pt_of_char, rank_char, sq_file, sq_rank};
use vstd::prelude::*;
use vstd::utf8::{encode_utf8, is_char_boundary};

verus! {

/// The name of square `s`, like `e4`.
pub open spec fn square_text(s: int) -> Seq<char> {
    seq![file_char(sq_file(s)), rank_char(sq_rank(s))]
}

/// UCI text of a move: from-square, to-square, lowercase promotion letter.
pub open spec fn uci_text(m: Move) -> Seq<char> {
    square_text(mfrom(m)) + square_text(mto(m)) + match promo_of_flag(mflag(m)) {
        Some(p) => seq![pt_char(p)],
        None => Seq::empty(),
    }
}

/// The square named by a file letter and a rank digit.
pub open spec fn square_of_chars(a: char, b: char) -> Option<int> {
    if 97 <= (a as u32) <= 104 && 49 <= (b as u32) <= 56 {
        Some(((b as u32) - 49) * 8 + ((a as u32) - 97))
    } else {
        None
    }
}

/// What a UCI string asks for: from-square, to-square and promotion piece.
pub open spec fn uci_request(cs: Seq<char>) -> Option<(int, int, Option<PieceType>)> {
    if cs.len() < 4 {
        None
    } else {
        match (square_of_chars(cs[0], cs[1]), square_of_chars(cs[2], cs[3])) {
            (Some(f), Some(t)) => if cs.len() >= 5 {
                match pt_of_char(cs[4]) {
                    Some(p) => Some((f, t, Some(p))),
                    None => None,
                }
            } else {
                Some((f, t, None))
            },
            _ => None,
        }
    }
}

/// `m` has the squares and promotion piece that `q` asks for.
pub open spec fn uci_names(m: Move, q: (int, int, Option<PieceType>)) -> bool {
    mfrom(m) == q.0 && mto(m) == q.1 && promo_of_flag(mflag(m)) == q.2
}

/// The text can be cut where a UCI move's squares end: at byte 2, and at
/// byte 4 once the first two characters name a square (text of four bytes
/// or more).
pub open spec fn uci_slices_ok(s: Seq<char>) -> bool {
    let b = encode_utf8(s);
    b.len() >= 4 ==> is_char_boundary(b, 2) && (square_of_chars(s[0], s[1]) is Some
        ==> is_char_boundary(b, 4))
}

/// ASCII text can always be cut where `parse_uci` cuts it.
pub proof fn lemma_ascii_slices_ok(s: Seq<char>)
    requires
        vstd::utf8::is_ascii_chars(s),
    ensures
        uci_slices_ok(s),
{
    let b = encode_utf8(s);
    vstd::utf8::is_ascii_chars_encode_utf8(s);
    vstd::utf8::encode_utf8_valid_utf8(s);
    if b.len() >= 4 {
        assert(s[2] as u8 == b[2]);
        assert(vstd::utf8::is_leading_byte_width_1(b[2]));
        vstd::utf8::is_char_boundary_iff_is_leading_byte(b, 2);
        if b.len() > 4 {
            assert(s[4] as u8 == b[4]);
            assert(vstd::utf8::is_leading_byte_width_1(b[4]));
            vstd::utf8::is_char_boundary_iff_is_leading_byte(b, 4);
        } else {
            vstd::utf8::is_char_boundary_start_end_of_seq(b);
        }
    }
}

/// The square named by two characters.
fn square_from_chars(a: char, b: char) -> (r: Option<Square>)
    ensures
        match r {
            Some(s) => s.wf() && square_of_chars(a, b) == Some(s.0 as int),
            None => square_of_chars(a, b) is None,
        },
{
    let f = a as u32;
    let k = b as u32;
    if 97 <= f && f <= 104 && 49 <= k && k <= 56 {
        Some(Square(((k - 49) * 8 + (f - 97)) as u8))
    } else {
        None
    }
}

/// Whether two optional promotion pieces are the same.
fn same_promo(a: Option<PieceType>, b: Option<PieceType>) -> (r: bool)
    ensures
        r == (a == b),
{
    match (a, b) {
        (Some(x), Some(y)) => x == y,
        (None, None) => true,
        _ => false,
    }
}

impl Move {
    /// Render in UCI notation. Castling is encoded as the king's two-square
    /// move (`e1g1`, `e8c8`), matching standard UCI.
    pub fn to_uci(self) -> (r: String)
        ensures
            r@ == uci_text(self),
    {
        let from = self.from();
        let to = self.to();
        let mut s = String::new();
        s.push(((97 + from.0 % 8) as u8) as char);
        s.push(((49 + from.0 / 8) as u8) as char);
        s.push(((97 + to.0 % 8) as u8) as char);
        s.push(((49 + to.0 / 8) as u8) as char);
        match self.promotion_piece() {
            Some(p) => s.push(p.to_char()),
            None => {},
        }
        assert(s@ =~= uci_text(self));
        s
    }
}

impl Board {
    /// Parse a UCI move string in the context of this position, returning the
    /// matching legal move (or `None` if illegal / malformed).
    pub fn parse_uci(&self, s: &str) -> (r: Option<Move>)
        requires
            self.valid(),
            uci_slices_ok(s@),
        ensures
            match r {
                Some(m) => legal(self@, m) && (uci_request(s@) matches Some(q) && uci_names(m, q)),
                None => forall|m: Move|
                    legal(self@, m) ==> !(uci_request(s@) matches Some(q) && uci_names(m, q)),
            },
    {
        let cs = chars_of(s);
        if cs.len() < 4 {
            return None;
        }
        let from = match square_from_chars(cs[0], cs[1]) {
            Some(f) => f,
            None => {
                return None;
            },
        };
        let to = match square_from_chars(cs[2], cs[3]) {
            Some(t) => t,
            None => {
                return None;
            },
        };
        let promo = if cs.len() >= 5 {
            match PieceType::from_char(cs[4]) {
                Some(p) => Some(p),
                None => {
                    return None;
                },
            }
        } else {
            None
        };
        let ghost q = (from.0 as int, to.0 as int, promo);
        assert(uci_request(s@) == Some(q));
        let moves = self.legal_moves();
        let mut i: usize = 0;
        while i < moves.len()
            invariant
                i <= moves@.len(),
                forall|m: Move| #[trigger] moves@.contains(m) == legal(self@, m),
                forall|j: int| 0 <= j < i ==> !uci_names(#[trigger] moves@[j], q),
                q == (from.0 as int, to.0 as int, promo),
                uci_request(s@) == Some(q),
            decreases moves@.len() - i,
        {
            let mv = moves.get(i);
            if mv.from().0 == from.0 && mv.to().0 == to.0 && same_promo(mv.promotion_piece(), promo) {
                assert(moves@.contains(mv));
                return Some(mv);
            }
            i += 1;
        }
        assert forall|m: Move| legal(self@, m) implies !uci_names(m, q) by {
            assert(moves@.contains(m));
            let j = choose|j: int| 0 <= j < moves@.len() && moves@[j] == m;
            assert(!uci_names(moves@[j], q));
        }
        None
    }
}

/// The UCI text of a legal move names that move and no other legal move.
pub proof fn lemma_uci_roundtrip(v: crate::board::BoardState, m: Move)
    requires
        legal(v, m),
    ensures
        uci_request(uci_text(m)) == Some((mfrom(m), mto(m), promo_of_flag(mflag(m)))),
        forall|m2: Move|
            legal(v, m2) && uci_names(m2, (mfrom(m), mto(m), promo_of_flag(mflag(m)))) ==> m2
                == m,
{
    crate::moves::lemma_move_ranges(m);
    let t = uci_text(m);
    assert(t[0] == file_char(sq_file(mfrom(m))));
    assert(square_of_chars(t[0], t[1]) == Some(mfrom(m)));
    assert(square_of_chars(t[2], t[3]) == Some(mto(m)));
    match promo_of_flag(mflag(m)) {
        Some(p) => {
            assert(t.len() == 5);
            assert(t[4] == pt_char(p));
        },
        None => {
            assert(t.len() == 4);
        },
    }
    assert forall|m2: Move|
        legal(v, m2) && uci_names(m2, (mfrom(m), mto(m), promo_of_flag(mflag(m)))) implies m2
        == m by {
        lemma_pseudo_unique(v, m, m2);
    }
}

} // verus!
