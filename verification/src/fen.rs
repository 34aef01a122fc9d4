//! Forsyth-Edwards Notation: [`Board::from_fen`] and [`Board::to_fen`].
//!
//! The piece-placement, side, castling, and en-passant fields are required; the
//! half-move clock and full-move number default to `0` and `1` when omitted
//! (so 4-field "EPD-style" position strings parse too).
use crate::bitboard::lemma_zero_iff_empty;
use crate::http::{push_str, push_u64};
use crate::board::{Board, BoardState, has_king, has_piece, pc};
use crate::text::{
    chars_of, holds_seqs, is_just, split_char, split_on, split_words, string_of, words,
};
use crate::types::{CastlingRights, Color, Piece, PieceType, Square, piece_char, piece_of_char};
use vstd::prelude::*;

verus! {

/// An error encountered while parsing a FEN string.
#[derive(Debug, Clone, PartialEq, Eq)]
pub enum FenError {
    WrongFieldCount(usize),
    BadRankCount(usize),
    BadPlacement(String),
    BadSide(String),
    BadCastling(String),
    BadEnPassant(String),
    BadNumber(String),
    MissingKing(Color),
}

/// The mathematical content of a [`FenError`]: the offending count, field
/// text or color.
pub enum FenFault {
    WrongFieldCount(int),
    BadRankCount(int),
    BadPlacement(Seq<char>),
    BadSide(Seq<char>),
    BadCastling(Seq<char>),
    BadEnPassant(Seq<char>),
    BadNumber(Seq<char>),
    MissingKing(Color),
}

/// The text `{:?}` gives for a string: the characters in double quotes,
/// with Rust's debug escapes.
pub uninterp spec fn debug_quoted(s: Seq<char>) -> Seq<char>;

/// `<str as Debug>::fmt`, through `format!("{:?}", s)`: the quoted, escaped
/// form of `s`.
#[verifier::external_body]
fn debug_str(s: &str) -> (r: String)
    ensures
        r@ == debug_quoted(s@),
{
    format!("{:?}", s)
}

/// The debug text of a FEN error: the variant's name and its payload in
/// brackets, as `#[derive(Debug)]` writes them.
pub open spec fn fault_text(f: FenFault) -> Seq<char> {
    match f {
        FenFault::WrongFieldCount(n) => "WrongFieldCount("@ + decimal(n as nat) + ")"@,
        FenFault::BadRankCount(n) => "BadRankCount("@ + decimal(n as nat) + ")"@,
        FenFault::BadPlacement(t) => "BadPlacement("@ + debug_quoted(t) + ")"@,
        FenFault::BadSide(t) => "BadSide("@ + debug_quoted(t) + ")"@,
        FenFault::BadCastling(t) => "BadCastling("@ + debug_quoted(t) + ")"@,
        FenFault::BadEnPassant(t) => "BadEnPassant("@ + debug_quoted(t) + ")"@,
        FenFault::BadNumber(t) => "BadNumber("@ + debug_quoted(t) + ")"@,
        FenFault::MissingKing(c) => "MissingKing("@ + (if c == Color::White {
            "White"@
        } else {
            "Black"@
        }) + ")"@,
    }
}

impl FenError {
    /// The debug text of the error (what `{:?}` prints).
    pub fn debug_text(&self) -> (r: String)
        ensures
            r@ == fault_text(self@),
    {
        let mut out = String::new();
        match self {
            FenError::WrongFieldCount(n) => {
                push_str(&mut out, "WrongFieldCount(");
                push_u64(&mut out, *n as u64);
            },
            FenError::BadRankCount(n) => {
                push_str(&mut out, "BadRankCount(");
                push_u64(&mut out, *n as u64);
            },
            FenError::BadPlacement(t) => {
                push_str(&mut out, "BadPlacement(");
                push_str(&mut out, debug_str(t.as_str()).as_str());
            },
            FenError::BadSide(t) => {
                push_str(&mut out, "BadSide(");
                push_str(&mut out, debug_str(t.as_str()).as_str());
            },
            FenError::BadCastling(t) => {
                push_str(&mut out, "BadCastling(");
                push_str(&mut out, debug_str(t.as_str()).as_str());
            },
            FenError::BadEnPassant(t) => {
                push_str(&mut out, "BadEnPassant(");
                push_str(&mut out, debug_str(t.as_str()).as_str());
            },
            FenError::BadNumber(t) => {
                push_str(&mut out, "BadNumber(");
                push_str(&mut out, debug_str(t.as_str()).as_str());
            },
            FenError::MissingKing(c) => {
                push_str(&mut out, "MissingKing(");
                match c {
                    Color::White => push_str(&mut out, "White"),
                    Color::Black => push_str(&mut out, "Black"),
                }
            },
        }
        push_str(&mut out, ")");
        out
    }
}

impl View for FenError {
    type V = FenFault;

    open spec fn view(&self) -> FenFault {
        match self {
            FenError::WrongFieldCount(n) => FenFault::WrongFieldCount(*n as int),
            FenError::BadRankCount(n) => FenFault::BadRankCount(*n as int),
            FenError::BadPlacement(s) => FenFault::BadPlacement(s@),
            FenError::BadSide(s) => FenFault::BadSide(s@),
            FenError::BadCastling(s) => FenFault::BadCastling(s@),
            FenError::BadEnPassant(s) => FenFault::BadEnPassant(s@),
            FenError::BadNumber(s) => FenFault::BadNumber(s@),
            FenError::MissingKing(c) => FenFault::MissingKing(*c),
        }
    }
}

/// An ASCII decimal digit.
pub open spec fn is_digit(c: char) -> bool {
    48 <= (c as u32) <= 57
}

/// The value of an ASCII decimal digit.
pub open spec fn digit_val(c: char) -> int {
    (c as u32) - 48
}

/// The squares one placement character stands for: a digit `d` for `d`
/// empty squares, a piece letter for one occupied square.
pub open spec fn cell_run(c: char) -> Option<Seq<Option<Piece>>> {
    if is_digit(c) {
        Some(Seq::new(digit_val(c) as nat, |i: int| None::<Piece>))
    } else {
        match piece_of_char(c) {
            Some(p) => Some(seq![Some(p)]),
            None => None,
        }
    }
}

/// The squares a placement row describes, from the a-file on; `None` if it
/// holds a character that is neither a digit nor a piece letter.
pub open spec fn row_cells(row: Seq<char>) -> Option<Seq<Option<Piece>>>
    decreases row.len(),
{
    if row.len() == 0 {
        Some(Seq::empty())
    } else {
        match (row_cells(row.drop_last()), cell_run(row.last())) {
            (Some(a), Some(b)) => Some(a + b),
            _ => None,
        }
    }
}

/// A placement row that describes exactly eight squares.
pub open spec fn row_ok(row: Seq<char>) -> bool {
    row_cells(row) matches Some(c) && c.len() == 8
}

/// The 64 squares described by eight rows, rank 8 first.
pub open spec fn fen_placement(rows: Seq<Seq<char>>) -> Seq<Option<Piece>> {
    Seq::new(64, |s: int| row_cells(rows[7 - s / 8]).unwrap()[s % 8])
}

/// The castling bit a FEN castling letter stands for.
pub open spec fn castle_char_bit(c: char) -> Option<u8> {
    if c == 'K' {
        Some(1u8)
    } else if c == 'Q' {
        Some(2u8)
    } else if c == 'k' {
        Some(4u8)
    } else if c == 'q' {
        Some(8u8)
    } else {
        None
    }
}

/// The union of the castling bits named by `cs`, if every letter is one.
pub open spec fn castle_letters(cs: Seq<char>) -> Option<u8>
    decreases cs.len(),
{
    if cs.len() == 0 {
        Some(0u8)
    } else {
        match (castle_letters(cs.drop_last()), castle_char_bit(cs.last())) {
            (Some(a), Some(b)) => Some(a | b),
            _ => None,
        }
    }
}

/// The castling field: `-` for none, else letters from `KQkq`.
pub open spec fn castling_field(cs: Seq<char>) -> Option<u8> {
    if cs == seq!['-'] {
        Some(0u8)
    } else {
        castle_letters(cs)
    }
}

/// The en-passant field: `-` for none, else a square name like `e3`.
pub open spec fn ep_field(cs: Seq<char>) -> Option<Option<int>> {
    if cs == seq!['-'] {
        Some(None)
    } else if cs.len() == 2 && 97 <= (cs[0] as u32) <= 104 && 49 <= (cs[1] as u32) <= 56 {
        Some(Some(((cs[1] as u32) - 49) * 8 + ((cs[0] as u32) - 97)))
    } else {
        None
    }
}

/// The decimal value of a digit string.
pub open spec fn dec_value(cs: Seq<char>) -> int
    decreases cs.len(),
{
    if cs.len() == 0 {
        0
    } else {
        dec_value(cs.drop_last()) * 10 + digit_val(cs.last())
    }
}

/// Every character is an ASCII digit.
pub open spec fn all_digits(cs: Seq<char>) -> bool {
    forall|i: int| 0 <= i < cs.len() ==> #[trigger] is_digit(cs[i])
}

/// The digits of an unsigned number: a leading `+` is allowed.
pub open spec fn unsigned_digits(cs: Seq<char>) -> Seq<char> {
    if cs.len() > 0 && cs[0] == '+' {
        cs.drop_first()
    } else {
        cs
    }
}

/// A `u16` in decimal, as `str::parse::<u16>` accepts it.
pub open spec fn parse_u16_spec(cs: Seq<char>) -> Option<u16> {
    let d = unsigned_digits(cs);
    if d.len() > 0 && all_digits(d) && dec_value(d) <= 0xffff {
        Some(dec_value(d) as u16)
    } else {
        None
    }
}

/// Two more words after the words of `cs`: `cs`, a space, `a`, a space, `b`
/// splits into the words of `cs` followed by `[a]` and `[b]`.
proof fn lemma_words_two_more(cs: Seq<char>, a: char, b: char)
    requires
        !crate::text::is_ws(a),
        !crate::text::is_ws(b),
    ensures
        words(cs.push(' ').push(a).push(' ').push(b)) == words(cs).push(seq![a]).push(seq![b]),
{
    let t1 = cs.push(' ');
    let t2 = t1.push(a);
    let t3 = t2.push(' ');
    let t4 = t3.push(b);
    assert(t1.drop_last() =~= cs);
    assert(t2.drop_last() =~= t1);
    assert(t3.drop_last() =~= t2);
    assert(t4.drop_last() =~= t3);
    assert(crate::text::is_ws(' '));
    let (f, cur) = crate::text::ws_scan(cs);
    assert(crate::text::ws_scan(t1) == (words(cs), Seq::<char>::empty()));
    assert(crate::text::ws_scan(t2) == (words(cs), seq![a])) by {
        assert(Seq::<char>::empty().push(a) =~= seq![a]);
    }
    assert(crate::text::ws_scan(t3) == (words(cs).push(seq![a]), Seq::<char>::empty()));
    assert(crate::text::ws_scan(t4) == (words(cs).push(seq![a]), seq![b])) by {
        assert(Seq::<char>::empty().push(b) =~= seq![b]);
    }
}

/// A FEN of four fields reads as the same FEN with the clocks `0 1`
/// appended: a halfmove clock of 0 and move number 1 (the same position,
/// or the same error).
pub proof fn lemma_four_fields_default_clocks(cs: Seq<char>)
    requires
        words(cs).len() == 4,
    ensures
        fen_spec(cs + " 0 1"@) == fen_spec(cs),
{
    reveal_strlit(" 0 1");
    assert(cs + " 0 1"@ =~= cs.push(' ').push('0').push(' ').push('1'));
    lemma_words_two_more(cs, '0', '1');
    let w = words(cs);
    let w6 = words(cs + " 0 1"@);
    assert(w6 == w.push(seq!['0']).push(seq!['1']));
    assert(w6.len() == 6);
    assert(w6[0] == w[0] && w6[1] == w[1] && w6[2] == w[2] && w6[3] == w[3]);
    assert(w6[4] == seq!['0'] && w6[5] == seq!['1']);
    assert(unsigned_digits(seq!['0']) == seq!['0']);
    assert(unsigned_digits(seq!['1']) == seq!['1']);
    assert(seq!['0'].drop_last() =~= Seq::<char>::empty());
    assert(seq!['1'].drop_last() =~= Seq::<char>::empty());
    assert(dec_value(Seq::<char>::empty()) == 0);
    assert(seq!['0'].last() == '0' && seq!['1'].last() == '1');
    assert(digit_val('0') == 0 && digit_val('1') == 1);
    assert(dec_value(seq!['0']) == 0);
    assert(dec_value(seq!['1']) == 1);
    assert(all_digits(seq!['0']));
    assert(all_digits(seq!['1']));
    assert(parse_u16_spec(w6[4]) == Some(0u16));
    assert(parse_u16_spec(w6[5]) == Some(1u16));
}

/// What parsing `cs` as FEN gives: the position, or the first error met.
pub open spec fn fen_spec(cs: Seq<char>) -> Result<BoardState, FenFault> {
    let w = words(cs);
    let rows = split_on(w[0], '/');
    if w.len() != 6 && w.len() != 4 {
        Err(FenFault::WrongFieldCount(w.len() as int))
    } else if rows.len() != 8 {
        Err(FenFault::BadRankCount(rows.len() as int))
    } else if !(forall|i: int| 0 <= i < 8 ==> #[trigger] row_ok(rows[i])) {
        Err(FenFault::BadPlacement(w[0]))
    } else if w[1] != seq!['w'] && w[1] != seq!['b'] {
        Err(FenFault::BadSide(w[1]))
    } else if castling_field(w[2]) is None {
        Err(FenFault::BadCastling(w[2]))
    } else if ep_field(w[3]) is None {
        Err(FenFault::BadEnPassant(w[3]))
    } else if w.len() == 6 && parse_u16_spec(w[4]) is None {
        Err(FenFault::BadNumber(w[4]))
    } else if w.len() == 6 && parse_u16_spec(w[5]) is None {
        Err(FenFault::BadNumber(w[5]))
    } else {
        let v = BoardState {
            placement: fen_placement(rows),
            side: if w[1] == seq!['w'] {
                Color::White
            } else {
                Color::Black
            },
            castling: castling_field(w[2]).unwrap(),
            ep: ep_field(w[3]).unwrap(),
            halfmove: if w.len() == 6 {
                parse_u16_spec(w[4]).unwrap() as int
            } else {
                0
            },
            fullmove: if w.len() == 6 {
                parse_u16_spec(w[5]).unwrap() as int
            } else {
                1
            },
        };
        if !has_king(v, Color::White) {
            Err(FenFault::MissingKing(Color::White))
        } else if !has_king(v, Color::Black) {
            Err(FenFault::MissingKing(Color::Black))
        } else {
            Ok(v)
        }
    }
}

/// A prefix of a row that parses also parses, to no more squares.
proof fn lemma_row_prefix(row: Seq<char>, k: int)
    requires
        0 <= k <= row.len(),
        row_cells(row) is Some,
    ensures
        row_cells(row.take(k)) is Some,
        row_cells(row.take(k)).unwrap().len() <= row_cells(row).unwrap().len(),
    decreases row.len(),
{
    if k == row.len() {
        assert(row.take(k) =~= row);
    } else {
        lemma_row_prefix(row.drop_last(), k);
        assert(row.drop_last().take(k) =~= row.take(k));
    }
}

/// A prefix of a digit string has no larger value.
proof fn lemma_dec_prefix(d: Seq<char>, k: int)
    requires
        0 <= k <= d.len(),
        all_digits(d),
    ensures
        0 <= dec_value(d.take(k)) <= dec_value(d),
    decreases d.len(),
{
    if k == d.len() {
        assert(d.take(k) =~= d);
        if d.len() > 0 {
            lemma_dec_prefix(d.drop_last(), 0);
            assert(is_digit(d[d.len() - 1]));
        }
    } else {
        lemma_dec_prefix(d.drop_last(), k);
        assert(d.drop_last().take(k) =~= d.take(k));
        assert(is_digit(d[d.len() - 1]));
    }
}

/// Whether `c` is an ASCII digit.
fn digit_char(c: char) -> (r: bool)
    ensures
        r == is_digit(c),
{
    let u = c as u32;
    48 <= u && u <= 57
}

/// Expand one placement row into its squares.
fn parse_row(row: &Vec<char>) -> (r: Option<Vec<Option<Piece>>>)
    ensures
        match r {
            Some(v) => row_ok(row@) && v@ == row_cells(row@).unwrap(),
            None => !row_ok(row@),
        },
{
    let mut cells: Vec<Option<Piece>> = Vec::new();
    let mut i: usize = 0;
    while i < row.len()
        invariant
            i <= row.len(),
            row_cells(row@.take(i as int)) == Some(cells@),
            cells.len() <= 8,
        decreases row.len() - i,
    {
        let c = row[i];
        proof {
            assert(row@.take(i + 1).drop_last() =~= row@.take(i as int));
            assert(row@.take(i + 1).last() == c);
            if row_cells(row@) is Some {
                lemma_row_prefix(row@, i + 1);
            }
        }
        if digit_char(c) {
            let d = (c as u32 - 48) as usize;
            if cells.len() + d > 8 {
                return None;
            }
            let ghost base = cells@;
            let mut k: usize = 0;
            while k < d
                invariant
                    k <= d,
                    base.len() + d <= 8,
                    cells@ == base + Seq::new(k as nat, |j: int| None::<Piece>),
                decreases d - k,
            {
                cells.push(None);
                k += 1;
                assert(cells@ =~= base + Seq::new(k as nat, |j: int| None::<Piece>));
            }
            assert(d == digit_val(c));
        } else {
            match Piece::from_char(c) {
                Some(p) => {
                    if cells.len() >= 8 {
                        return None;
                    }
                    cells.push(Some(p));
                },
                None => {
                    return None;
                },
            }
        }
        i += 1;
    }
    assert(row@.take(row.len() as int) =~= row@);
    if cells.len() != 8 {
        return None;
    }
    Some(cells)
}

/// Parse the castling field.
fn parse_castling(cs: &Vec<char>) -> (r: Option<u8>)
    ensures
        r == castling_field(cs@),
{
    if is_just(cs, '-') {
        return Some(0);
    }
    let mut acc: u8 = 0;
    let mut i: usize = 0;
    while i < cs.len()
        invariant
            i <= cs.len(),
            castle_letters(cs@.take(i as int)) == Some(acc),
            cs@ != seq!['-'],
        decreases cs.len() - i,
    {
        let c = cs[i];
        proof {
            assert(cs@.take(i + 1).drop_last() =~= cs@.take(i as int));
        }
        let bit: u8 = if c == 'K' {
            1
        } else if c == 'Q' {
            2
        } else if c == 'k' {
            4
        } else if c == 'q' {
            8
        } else {
            proof {
                assert(castle_char_bit(c) is None);
                assert(castle_letters(cs@.take(i + 1)) is None);
                lemma_letters_prefix(cs@, i + 1);
            }
            return None;
        };
        acc = acc | bit;
        i += 1;
    }
    assert(cs@.take(cs.len() as int) =~= cs@);
    Some(acc)
}

/// A castling field with a bad letter has a bad prefix.
proof fn lemma_letters_prefix(cs: Seq<char>, k: int)
    requires
        0 <= k <= cs.len(),
        castle_letters(cs.take(k)) is None,
    ensures
        castle_letters(cs) is None,
    decreases cs.len(),
{
    if k == cs.len() {
        assert(cs.take(k) =~= cs);
    } else {
        assert(cs.drop_last().take(k) =~= cs.take(k));
        lemma_letters_prefix(cs.drop_last(), k);
    }
}

/// The castling letters only name the four low bits.
proof fn lemma_castling_small(cs: Seq<char>)
    requires
        castling_field(cs) is Some,
    ensures
        castling_field(cs).unwrap() < 16,
{
    if cs != seq!['-'] {
        lemma_letters_small(cs);
    }
}

proof fn lemma_letters_small(cs: Seq<char>)
    requires
        castle_letters(cs) is Some,
    ensures
        castle_letters(cs).unwrap() < 16,
    decreases cs.len(),
{
    if cs.len() > 0 {
        lemma_letters_small(cs.drop_last());
        let a = castle_letters(cs.drop_last()).unwrap();
        let b = castle_char_bit(cs.last()).unwrap();
        crate::fen_round_trip::lemma_castle_bits(0u8, a, b);
    }
}

/// Parse the en-passant field.
fn parse_ep(cs: &Vec<char>) -> (r: Option<Option<Square>>)
    ensures
        match r {
            Some(Some(s)) => s.wf() && ep_field(cs@) == Some(Some(s.0 as int)),
            Some(None) => ep_field(cs@) == Some(None::<int>),
            None => ep_field(cs@) is None,
        },
{
    if is_just(cs, '-') {
        return Some(None);
    }
    if cs.len() != 2 {
        return None;
    }
    let f = cs[0] as u32;
    let k = cs[1] as u32;
    if 97 <= f && f <= 104 && 49 <= k && k <= 56 {
        Some(Some(Square(((k - 49) * 8 + (f - 97)) as u8)))
    } else {
        None
    }
}

/// Parse a `u16` as `str::parse` does.
fn parse_u16(cs: &Vec<char>) -> (r: Option<u16>)
    ensures
        r == parse_u16_spec(cs@),
{
    let start: usize = if cs.len() > 0 && cs[0] == '+' {
        1
    } else {
        0
    };
    let ghost d = unsigned_digits(cs@);
    assert(d =~= cs@.subrange(start as int, cs.len() as int));
    if start == cs.len() {
        return None;
    }
    let mut acc: u32 = 0;
    let mut j: usize = start;
    while j < cs.len()
        invariant
            start <= j <= cs.len(),
            d == cs@.subrange(start as int, cs.len() as int),
            d == unsigned_digits(cs@),
            all_digits(d.take(j - start)),
            acc == dec_value(d.take(j - start)),
            acc <= 0xffff,
        decreases cs.len() - j,
    {
        let c = cs[j];
        let ghost k = j - start;
        proof {
            assert(d.take(k + 1).drop_last() =~= d.take(k));
            assert(d[k] == c);
        }
        if !digit_char(c) {
            assert(!all_digits(d)) by {
                assert(!is_digit(d[k]));
            }
            return None;
        }
        let nv = acc * 10 + (c as u32 - 48);
        assert(all_digits(d.take(k + 1))) by {
            assert forall|i: int| 0 <= i < k + 1 implies #[trigger] is_digit(d.take(k + 1)[i]) by {
                if i < k {
                    assert(d.take(k + 1)[i] == d.take(k)[i]);
                }
            }
        }
        if nv > 0xffff {
            proof {
                if all_digits(d) {
                    lemma_dec_prefix(d, k + 1);
                }
            }
            return None;
        }
        acc = nv;
        j += 1;
    }
    assert(d.take(d.len() as int) =~= d);
    Some(acc as u16)
}

/// The character of a decimal digit `0..10`.
pub open spec fn digit_of(n: int) -> char {
    (48 + n) as char
}

/// The decimal text of `n`, without leading zeros.
pub open spec fn decimal(n: nat) -> Seq<char>
    decreases n,
{
    if n < 10 {
        seq![digit_of(n as int)]
    } else {
        decimal(n / 10).push(digit_of((n % 10) as int))
    }
}

/// The pending count of empty squares, as text.
pub open spec fn gap_text(empty: int) -> Seq<char> {
    if empty > 0 {
        seq![digit_of(empty)]
    } else {
        Seq::empty()
    }
}

/// FEN text of rank `rank` from file `f` on, with `empty` empty squares
/// still to be written before it.
pub open spec fn rank_text(pl: Seq<Option<Piece>>, rank: int, f: int, empty: int) -> Seq<char>
    decreases 8 - f,
{
    if f >= 8 {
        gap_text(empty)
    } else {
        match pl[rank * 8 + f] {
            Some(p) => gap_text(empty) + seq![piece_char(p)] + rank_text(pl, rank, f + 1, 0),
            None => rank_text(pl, rank, f + 1, empty + 1),
        }
    }
}

/// FEN placement text of ranks `rank` down to 1, separated by `/`.
pub open spec fn placement_text(pl: Seq<Option<Piece>>, rank: int) -> Seq<char>
    decreases rank,
{
    if rank <= 0 {
        rank_text(pl, 0, 0, 0)
    } else {
        rank_text(pl, rank, 0, 0) + seq!['/'] + placement_text(pl, rank - 1)
    }
}

/// FEN castling text: `-`, or the held rights in the order `KQkq`.
pub open spec fn castling_text(c: u8) -> Seq<char> {
    if c == 0 {
        seq!['-']
    } else {
        (if c & 1 != 0 {
            seq!['K']
        } else {
            Seq::empty()
        }) + (if c & 2 != 0 {
            seq!['Q']
        } else {
            Seq::empty()
        }) + (if c & 4 != 0 {
            seq!['k']
        } else {
            Seq::empty()
        }) + (if c & 8 != 0 {
            seq!['q']
        } else {
            Seq::empty()
        })
    }
}

/// FEN en-passant text: `-`, or the square's name.
pub open spec fn ep_text(ep: Option<int>) -> Seq<char> {
    match ep {
        Some(s) => seq![(97 + s % 8) as char, (49 + s / 8) as char],
        None => seq!['-'],
    }
}

/// The 6-field FEN text of a position.
pub open spec fn fen_text(v: BoardState) -> Seq<char> {
    placement_text(v.placement, 7) + seq![
        ' ',
        if v.side == Color::White {
            'w'
        } else {
            'b'
        },
        ' ',
    ] + castling_text(v.castling) + seq![' '] + ep_text(v.ep) + seq![' '] + decimal(
        v.halfmove as nat,
    ) + seq![' '] + decimal(v.fullmove as nat)
}

/// Append the decimal text of `n`.
fn push_decimal(s: &mut String, n: u16)
    ensures
        final(s)@ == old(s)@ + decimal(n as nat),
    decreases n,
{
    if n >= 10 {
        push_decimal(s, n / 10);
    }
    let d = n % 10;
    s.push(((48 + d) as u8) as char);
    assert(old(s)@ + decimal(n as nat) =~= s@);
}

/// Append `chars`.
fn push_all(s: &mut String, chars: &[char])
    ensures
        final(s)@ == old(s)@ + chars@,
{
    let mut i: usize = 0;
    while i < chars.len()
        invariant
            i <= chars.len(),
            s@ == old(s)@ + chars@.take(i as int),
        decreases chars.len() - i,
    {
        s.push(chars[i]);
        i += 1;
        assert(s@ =~= old(s)@ + chars@.take(i as int));
    }
    assert(chars@.take(chars.len() as int) =~= chars@);
}

/// The piece type standing on file `f` of a home rank in the initial position.
pub open spec fn back_rank_type(f: int) -> PieceType {
    if f == 0 || f == 7 {
        PieceType::Rook
    } else if f == 1 || f == 6 {
        PieceType::Knight
    } else if f == 2 || f == 5 {
        PieceType::Bishop
    } else if f == 3 {
        PieceType::Queen
    } else {
        PieceType::King
    }
}

/// The initial position.
pub open spec fn start_state() -> BoardState {
    BoardState {
        placement: Seq::new(
            64,
            |s: int|
                if s / 8 == 0 {
                    Some(pc(Color::White, back_rank_type(s % 8)))
                } else if s / 8 == 1 {
                    Some(pc(Color::White, PieceType::Pawn))
                } else if s / 8 == 6 {
                    Some(pc(Color::Black, PieceType::Pawn))
                } else if s / 8 == 7 {
                    Some(pc(Color::Black, back_rank_type(s % 8)))
                } else {
                    None
                },
        ),
        side: Color::White,
        castling: 15,
        ep: None,
        halfmove: 0,
        fullmove: 1,
    }
}

/// The piece type on file `f` of a home rank.
fn back_rank_piece(f: u8) -> (r: PieceType)
    ensures
        r == back_rank_type(f as int),
{
    if f == 0 || f == 7 {
        PieceType::Rook
    } else if f == 1 || f == 6 {
        PieceType::Knight
    } else if f == 2 || f == 5 {
        PieceType::Bishop
    } else if f == 3 {
        PieceType::Queen
    } else {
        PieceType::King
    }
}

impl Board {
    /// Parse a position from FEN (or 4-field EPD position).
    pub fn from_fen(fen: &str) -> (r: Result<Board, FenError>)
        ensures
            match r {
                Ok(b) => b.valid() && fen_spec(fen@) == Ok::<BoardState, FenFault>(b@),
                Err(e) => fen_spec(fen@) == Err::<BoardState, FenFault>(e@),
            },
    {
        let cs = chars_of(fen);
        let fields = split_words(&cs);
        let ghost w = words(fen@);
        let n = fields.len();
        if n != 6 && n != 4 {
            return Err(FenError::WrongFieldCount(n));
        }
        let rows = split_char(&fields[0], '/');
        let ghost rs = split_on(w[0], '/');
        if rows.len() != 8 {
            return Err(FenError::BadRankCount(rows.len()));
        }
        let mut parsed: Vec<Vec<Option<Piece>>> = Vec::new();
        let mut i: usize = 0;
        while i < 8
            invariant
                i <= 8,
                holds_seqs(fields@, w),
                w.len() == 6 || w.len() == 4,
                w == words(fen@),
                rs == split_on(w[0], '/'),
                holds_seqs(rows@, rs),
                rs.len() == 8,
                parsed.len() == i,
                forall|j: int| 0 <= j < i ==> #[trigger] row_ok(rs[j]),
                forall|j: int| 0 <= j < i ==> (#[trigger] parsed@[j])@ == row_cells(rs[j]).unwrap(),
            decreases 8 - i,
        {
            match parse_row(&rows[i]) {
                Some(v) => {
                    let ghost before = parsed@;
                    proof {
                        assert(rows@[i as int]@ == rs[i as int]);
                    }
                    parsed.push(v);
                    proof {
                        assert(parsed@[i as int] == v);
                        assert forall|j: int| 0 <= j < i + 1 implies (#[trigger] parsed@[j])@
                            == row_cells(rs[j]).unwrap() by {
                            if j < i {
                                assert(parsed@[j] == before[j]);
                            }
                        }
                    }
                },
                None => {
                    assert(!row_ok(rs[i as int]));
                    return Err(FenError::BadPlacement(string_of(&fields[0])));
                },
            }
            i += 1;
        }
        assert(forall|j: int| 0 <= j < 8 ==> #[trigger] row_ok(rs[j]));
        let white = is_just(&fields[1], 'w');
        if !white && !is_just(&fields[1], 'b') {
            return Err(FenError::BadSide(string_of(&fields[1])));
        }
        let side = if white {
            Color::White
        } else {
            Color::Black
        };
        let castling = match parse_castling(&fields[2]) {
            Some(c) => c,
            None => {
                return Err(FenError::BadCastling(string_of(&fields[2])));
            },
        };
        let ep = match parse_ep(&fields[3]) {
            Some(e) => e,
            None => {
                return Err(FenError::BadEnPassant(string_of(&fields[3])));
            },
        };
        let mut halfmove: u16 = 0;
        let mut fullmove: u16 = 1;
        if n == 6 {
            halfmove = match parse_u16(&fields[4]) {
                Some(h) => h,
                None => {
                    return Err(FenError::BadNumber(string_of(&fields[4])));
                },
            };
            fullmove = match parse_u16(&fields[5]) {
                Some(f) => f,
                None => {
                    return Err(FenError::BadNumber(string_of(&fields[5])));
                },
            };
        }
        let mut board = Board::empty();
        let ghost cells = fen_placement(rs);
        let mut s: usize = 0;
        while s < 64
            invariant
                s <= 64,
                board.wf(),
                parsed.len() == 8,
                forall|j: int| 0 <= j < 8 ==> #[trigger] row_ok(rs[j]),
                forall|j: int| 0 <= j < 8 ==> (#[trigger] parsed@[j])@ == row_cells(rs[j]).unwrap(),
                cells == fen_placement(rs),
                board@.placement == Seq::new(
                    64,
                    |t: int|
                        if t < s {
                            cells[t]
                        } else {
                            None
                        },
                ),
                board@.castling == 0,
                board@.ep is None,
            decreases 64 - s,
        {
            let ghost before = board@.placement;
            let r = 7 - s / 8;
            assert(row_ok(rs[r as int]));
            assert(parsed@[r as int].len() == 8);
            let cell = parsed[r][s % 8];
            assert(cell == cells[s as int]);
            match cell {
                Some(p) => {
                    board.set_square(Square(s as u8), p);
                },
                None => {},
            }
            s += 1;
            assert(board@.placement =~= Seq::new(
                64,
                |t: int|
                    if t < s {
                        cells[t]
                    } else {
                        None
                    },
            ));
        }
        assert(board@.placement =~= cells);
        assert(castling < 16) by {
            lemma_castling_small(w[2]);
        }
        board.set_state(side, CastlingRights(castling), ep, halfmove, fullmove);
        let wk = board.pieces_colored(PieceType::King, Color::White);
        proof {
            lemma_zero_iff_empty(wk.0);
        }
        if wk.is_empty() {
            assert(!has_king(board@, Color::White)) by {
                if has_king(board@, Color::White) {
                    let s = choose|s: int| #[trigger] has_piece(board@, s, Color::White, PieceType::King);
                    assert(crate::bitboard::mem(wk.0, s));
                }
            }
            return Err(FenError::MissingKing(Color::White));
        }
        let bk = board.pieces_colored(PieceType::King, Color::Black);
        proof {
            lemma_zero_iff_empty(bk.0);
        }
        if bk.is_empty() {
            assert(!has_king(board@, Color::Black)) by {
                if has_king(board@, Color::Black) {
                    let s = choose|s: int| #[trigger] has_piece(board@, s, Color::Black, PieceType::King);
                    assert(crate::bitboard::mem(bk.0, s));
                }
            }
            return Err(FenError::MissingKing(Color::Black));
        }
        proof {
            let s1 = choose|s: int| #[trigger] crate::bitboard::mem(wk.0, s);
            assert(has_piece(board@, s1, Color::White, PieceType::King));
            let s2 = choose|s: int| #[trigger] crate::bitboard::mem(bk.0, s);
            assert(has_piece(board@, s2, Color::Black, PieceType::King));
        }
        board.refresh_hash();
        proof {
            assert(board@.placement == fen_placement(rs));
            assert(board@.ep == ep_field(w[3]).unwrap());
            assert(w.len() == 6 || w.len() == 4);
            assert(rs.len() == 8);
            assert(forall|j: int| 0 <= j < 8 ==> #[trigger] row_ok(rs[j]));
            assert(w[1] == seq!['w'] || w[1] == seq!['b']);
            assert(castling_field(w[2]) == Some(castling));
            assert(board@.castling == castling);
            assert(w.len() == 6 ==> parse_u16_spec(w[4]) == Some(halfmove));
            assert(w.len() == 6 ==> parse_u16_spec(w[5]) == Some(fullmove));
            assert(board@.side == (if w[1] == seq!['w'] { Color::White } else { Color::Black }));
            assert(board@.halfmove == (if w.len() == 6 { parse_u16_spec(w[4]).unwrap() as int } else { 0 }));
            assert(board@.fullmove == (if w.len() == 6 { parse_u16_spec(w[5]).unwrap() as int } else { 1 }));
            assert(has_king(board@, Color::White));
            assert(has_king(board@, Color::Black));
            board.lemma_inv_wf();
            assert(board.valid());
            assert(w == words(fen@));
            assert(rs == split_on(w[0], '/'));
        }
        Ok(board)
    }

    /// Append the FEN text of one rank.
    fn push_rank(&self, s: &mut String, rank: u8)
        requires
            self.wf(),
            rank < 8,
        ensures
            final(s)@ == old(s)@ + rank_text(self@.placement, rank as int, 0, 0),
    {
        let ghost pl = self@.placement;
        let ghost start = s@;
        let mut empty: u8 = 0;
        let mut file: u8 = 0;
        while file < 8
            invariant
                file <= 8,
                empty <= file,
                rank < 8,
                self.wf(),
                pl == self@.placement,
                s@ + rank_text(pl, rank as int, file as int, empty as int) == start + rank_text(
                    pl,
                    rank as int,
                    0,
                    0,
                ),
            decreases 8 - file,
        {
            let sq = Square(rank * 8 + file);
            let ghost before = s@;
            let ghost e0 = empty;
            match self.piece_at(sq) {
                Some(p) => {
                    if empty > 0 {
                        s.push(((48 + empty) as u8) as char);
                        empty = 0;
                    }
                    s.push(p.to_char());
                    assert(s@ =~= before + gap_text(e0 as int) + seq![piece_char(p)]);
                    assert(before + rank_text(pl, rank as int, file as int, e0 as int) =~= s@
                        + rank_text(pl, rank as int, file + 1, 0));
                },
                None => {
                    empty += 1;
                },
            }
            file += 1;
        }
        if empty > 0 {
            s.push(((48 + empty) as u8) as char);
        }
        assert(s@ =~= start + rank_text(pl, rank as int, 0, 0));
    }

    /// Append the FEN placement field.
    fn push_placement(&self, s: &mut String)
        requires
            self.wf(),
        ensures
            final(s)@ == old(s)@ + placement_text(self@.placement, 7),
    {
        let ghost pl = self@.placement;
        let ghost start = s@;
        let mut k: u8 = 0;
        while k < 8
            invariant
                k <= 8,
                self.wf(),
                pl == self@.placement,
                k < 8 ==> s@ + placement_text(pl, 7 - k) == start + placement_text(pl, 7),
                k == 8 ==> s@ == start + placement_text(pl, 7),
            decreases 8 - k,
        {
            let rank = 7 - k;
            let ghost before = s@;
            self.push_rank(s, rank);
            if rank > 0 {
                s.push('/');
                assert(before + placement_text(pl, rank as int) =~= s@ + placement_text(
                    pl,
                    rank - 1,
                ));
            } else {
                assert(s@ =~= before + placement_text(pl, rank as int));
            }
            k += 1;
        }
    }

    /// Serialize the position to a 6-field FEN string.
    #[verifier::rlimit(40)]
    pub fn to_fen(&self) -> (r: String)
        requires
            self.wf(),
        ensures
            r@ == fen_text(self@),
    {
        let mut s = String::new();
        self.push_placement(&mut s);
        let ghost p0 = s@;
        s.push(' ');
        s.push(
            match self.side_to_move() {
                Color::White => 'w',
                Color::Black => 'b',
            },
        );
        s.push(' ');
        let ghost p1 = s@;
        push_castling(&mut s, self.castling_rights().0);
        s.push(' ');
        let ghost p2 = s@;
        match self.en_passant_square() {
            Some(sq) => {
                let a = sq.to_algebraic();
                s.push(a[0] as char);
                s.push(a[1] as char);
            },
            None => s.push('-'),
        }
        assert(s@ =~= p2 + ep_text(self@.ep));
        s.push(' ');
        push_decimal(&mut s, self.halfmove_clock());
        s.push(' ');
        push_decimal(&mut s, self.fullmove_number());
        assert(s@ =~= fen_text(self@));
        s
    }
}

/// Append the FEN castling field.
pub(crate) fn push_castling(s: &mut String, c: u8)
    ensures
        final(s)@ == old(s)@ + castling_text(c),
{
    let ghost start = s@;
    if c == 0 {
        s.push('-');
    } else {
        if c & 1 != 0 {
            s.push('K');
        }
        let ghost a = s@;
        if c & 2 != 0 {
            s.push('Q');
        }
        let ghost b = s@;
        if c & 4 != 0 {
            s.push('k');
        }
        let ghost d = s@;
        if c & 8 != 0 {
            s.push('q');
        }
        assert(a =~= start + (if c & 1 != 0 { seq!['K'] } else { Seq::empty() }));
        assert(b =~= a + (if c & 2 != 0 { seq!['Q'] } else { Seq::empty() }));
        assert(d =~= b + (if c & 4 != 0 { seq!['k'] } else { Seq::empty() }));
    }
    assert(s@ =~= start + castling_text(c));
}

impl Board {
    /// The standard initial position.
    pub fn startpos() -> (r: Board)
        ensures
            r.valid(),
            r@ == start_state(),
    {
        let ghost pl = start_state().placement;
        let mut board = Board::empty();
        let mut s: u8 = 0;
        while s < 64
            invariant
                s <= 64,
                board.wf(),
                pl == start_state().placement,
                board@.placement == Seq::new(
                    64,
                    |t: int|
                        if t < s {
                            pl[t]
                        } else {
                            None
                        },
                ),
                board@.castling == 0,
                board@.ep is None,
            decreases 64 - s,
        {
            let r = s / 8;
            let f = s % 8;
            let cell: Option<Piece> = if r == 0 {
                Some(Piece::new(Color::White, back_rank_piece(f)))
            } else if r == 1 {
                Some(Piece::new(Color::White, PieceType::Pawn))
            } else if r == 6 {
                Some(Piece::new(Color::Black, PieceType::Pawn))
            } else if r == 7 {
                Some(Piece::new(Color::Black, back_rank_piece(f)))
            } else {
                None
            };
            assert(cell == pl[s as int]);
            match cell {
                Some(p) => {
                    board.set_square(Square(s), p);
                },
                None => {},
            }
            s += 1;
            assert(board@.placement =~= Seq::new(
                64,
                |t: int|
                    if t < s {
                        pl[t]
                    } else {
                        None
                    },
            ));
        }
        assert(board@.placement =~= pl);
        board.set_state(Color::White, CastlingRights(15), None, 0, 1);
        board.refresh_hash();
        proof {
            board.lemma_inv_wf();
            assert(has_piece(board@, 4, Color::White, PieceType::King));
            assert(has_piece(board@, 60, Color::Black, PieceType::King));
        }
        board
    }
}

} // verus!
