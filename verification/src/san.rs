//! Standard Algebraic Notation: [`Board::san`] (render) and
//! [`Board::parse_san`] (read).
//!
//! Rendering computes disambiguation and check/checkmate suffixes exactly.
//! Parsing is done by generating the SAN of every legal move and matching the
//! normalized input — robust against spelling variants (`0-0`, trailing
//! `+`/`#`/`!`/`?`, `e.p.`) and never accepts an illegal move.
use crate::board::{Board, BoardState, has_king, in_check_spec, make_view};
use crate::movegen::{legal, lemma_king_survives, lemma_pseudo_applicable, unclocked};
use crate::moves::{Move, is_capture_flag, mflag, mfrom, mto, promo_of_flag};
use crate::text::{chars_of, is_whitespace, same_chars, trim, trim_chars};
use crate::types::{
    Color, Piece, PieceType, Square, file_char, opposite, pt_char, rank_char, sq_file, sq_rank,
    upper,
};
use crate::uci::square_text;
use vstd::prelude::*;

verus! {

/// Another legal move of a piece of the same type to the same square.
pub open spec fn rival(v: BoardState, m: Move, m2: Move) -> bool {
    &&& legal(v, m2)
    &&& mto(m2) == mto(m)
    &&& mfrom(m2) != mfrom(m)
    &&& v.placement[mfrom(m2)] matches Some(p)
    &&& p.piece_type == v.placement[mfrom(m)].unwrap().piece_type
}

/// The disambiguating origin text of a piece move: nothing, the file, the
/// rank, or both, as few as tell the move apart from its rivals.
pub open spec fn disambiguation(v: BoardState, m: Move) -> Seq<char> {
    let from = mfrom(m);
    if !(exists|m2: Move| #[trigger] rival(v, m, m2)) {
        Seq::empty()
    } else if !(exists|m2: Move| #[trigger] rival(v, m, m2) && sq_file(mfrom(m2)) == sq_file(from)) {
        seq![file_char(sq_file(from))]
    } else if !(exists|m2: Move| #[trigger] rival(v, m, m2) && sq_rank(mfrom(m2)) == sq_rank(from)) {
        seq![rank_char(sq_rank(from))]
    } else {
        seq![file_char(sq_file(from)), rank_char(sq_rank(from))]
    }
}

/// SAN of a move without the check suffix.
pub open spec fn san_base(v: BoardState, m: Move) -> Seq<char> {
    let f = mflag(m);
    let from = mfrom(m);
    let to = mto(m);
    let pt = v.placement[from].unwrap().piece_type;
    if f == 2 {
        seq!['O', '-', 'O']
    } else if f == 3 {
        seq!['O', '-', 'O', '-', 'O']
    } else if pt == PieceType::Pawn {
        (if is_capture_flag(f) {
            seq![file_char(sq_file(from)), 'x']
        } else {
            Seq::empty()
        }) + square_text(to) + match promo_of_flag(f) {
            Some(p) => seq!['=', upper(pt_char(p))],
            None => Seq::empty(),
        }
    } else {
        seq![upper(pt_char(pt))] + disambiguation(v, m) + (if is_capture_flag(f) {
            seq!['x']
        } else {
            Seq::empty()
        }) + square_text(to)
    }
}

/// How SAN names the origin of a piece move when other pieces of its kind
/// could also go to its target (its rivals): not at all without rivals; by
/// the origin file whenever no rival stands on that file; by the origin rank
/// when a rival shares the file but none shares the rank; by both file and
/// rank otherwise. (So with knights on b8 and f6 both able to reach d7, the
/// knight from f6 reads `Nfd7`.)
pub proof fn lemma_san_names_origin(v: BoardState, m: Move)
    requires
        mflag(m) != 2,
        mflag(m) != 3,
        v.placement[mfrom(m)] matches Some(p) && p.piece_type != PieceType::Pawn,
    ensures
        ({
            let from = mfrom(m);
            let head = seq![upper(pt_char(v.placement[from].unwrap().piece_type))];
            let tail = (if is_capture_flag(mflag(m)) {
                seq!['x']
            } else {
                Seq::empty()
            }) + square_text(mto(m));
            let file = file_char(sq_file(from));
            let rank = rank_char(sq_rank(from));
            &&& !(exists|m2: Move| #[trigger] rival(v, m, m2)) ==> san_base(v, m) == head + tail
            &&& (exists|m2: Move| #[trigger] rival(v, m, m2)) && (forall|m2: Move|
                #[trigger] rival(v, m, m2) ==> sq_file(mfrom(m2)) != sq_file(from))
                ==> san_base(v, m) == head + seq![file] + tail
            &&& (exists|m2: Move| #[trigger] rival(v, m, m2) && sq_file(mfrom(m2)) == sq_file(from))
                && (forall|m2: Move| #[trigger] rival(v, m, m2) ==> sq_rank(mfrom(m2)) != sq_rank(from))
                ==> san_base(v, m) == head + seq![rank] + tail
            &&& (exists|m2: Move| #[trigger] rival(v, m, m2) && sq_file(mfrom(m2)) == sq_file(from))
                && (exists|m2: Move| #[trigger] rival(v, m, m2) && sq_rank(mfrom(m2)) == sq_rank(from))
                ==> san_base(v, m) == head + seq![file, rank] + tail
        }),
{
}

/// The check suffix: `+` for check, `#` for mate, nothing otherwise.
pub open spec fn san_suffix(v: BoardState, m: Move) -> Seq<char> {
    let w = make_view(unclocked(v), m);
    if in_check_spec(w) {
        if exists|m2: Move| #[trigger] legal(w, m2) {
            seq!['+']
        } else {
            seq!['#']
        }
    } else {
        Seq::empty()
    }
}

/// The full SAN of a move.
pub open spec fn san_text(v: BoardState, m: Move) -> Seq<char> {
    san_base(v, m) + san_suffix(v, m)
}

/// The first occurrence of `e.p.` in `cs` ends the text.
pub open spec fn ep_marker_at(cs: Seq<char>, i: int) -> bool {
    0 <= i && i + 4 <= cs.len() && cs.subrange(i, i + 4) == seq!['e', '.', 'p', '.']
}

/// `cs` with a trailing `e.p.` removed, when that is its first `e.p.`.
pub open spec fn strip_ep(cs: Seq<char>) -> Seq<char> {
    if cs.len() >= 4 && ep_marker_at(cs, cs.len() - 4) && forall|j: int|
        0 <= j < cs.len() - 4 ==> !#[trigger] ep_marker_at(cs, j) {
        cs.take(cs.len() - 4)
    } else {
        cs
    }
}

/// Digit zeros read as letter O (castling written `0-0`).
pub open spec fn zeros_to_o(cs: Seq<char>) -> Seq<char> {
    cs.map_values(|c: char| if c == '0' { 'O' } else { c })
}

/// A trailing check, mate or annotation glyph.
pub open spec fn is_glyph(c: char) -> bool {
    c == '+' || c == '#' || c == '!' || c == '?' || c == ' '
}

/// `cs` without trailing glyphs.
pub open spec fn trim_glyphs(cs: Seq<char>) -> Seq<char>
    decreases cs.len(),
{
    if cs.len() > 0 && is_glyph(cs.last()) {
        trim_glyphs(cs.drop_last())
    } else {
        cs
    }
}

/// A SAN spelling with its decorations removed, so that equivalent
/// spellings compare equal.
pub open spec fn normalize(cs: Seq<char>) -> Seq<char> {
    trim(trim_glyphs(zeros_to_o(strip_ep(trim(cs)))))
}

proof fn lemma_trim_start_zeros(cs: Seq<char>)
    ensures
        crate::text::trim_start(zeros_to_o(cs)) == zeros_to_o(crate::text::trim_start(cs)),
    decreases cs.len(),
{
    let z = zeros_to_o(cs);
    assert(!crate::text::is_ws('O') && !crate::text::is_ws('0'));
    if cs.len() > 0 {
        assert(z[0] == (if cs[0] == '0' { 'O' } else { cs[0] }));
        if crate::text::is_ws(cs[0]) {
            assert(z.drop_first() =~= zeros_to_o(cs.drop_first()));
            lemma_trim_start_zeros(cs.drop_first());
        }
    }
}

proof fn lemma_trim_end_zeros(cs: Seq<char>)
    ensures
        crate::text::trim_end(zeros_to_o(cs)) == zeros_to_o(crate::text::trim_end(cs)),
    decreases cs.len(),
{
    let z = zeros_to_o(cs);
    assert(!crate::text::is_ws('O') && !crate::text::is_ws('0'));
    if cs.len() > 0 {
        assert(z.last() == (if cs.last() == '0' { 'O' } else { cs.last() }));
        if crate::text::is_ws(cs.last()) {
            assert(z.drop_last() =~= zeros_to_o(cs.drop_last()));
            lemma_trim_end_zeros(cs.drop_last());
        }
    }
}

proof fn lemma_strip_ep_zeros(t: Seq<char>)
    ensures
        strip_ep(zeros_to_o(t)) == zeros_to_o(strip_ep(t)),
{
    let z = zeros_to_o(t);
    assert forall|i: int| #[trigger] ep_marker_at(z, i) == ep_marker_at(t, i) by {
        if 0 <= i && i + 4 <= t.len() {
            let a = z.subrange(i, i + 4);
            let b = t.subrange(i, i + 4);
            let m = seq!['e', '.', 'p', '.'];
            if a == m {
                assert forall|k: int| 0 <= k < 4 implies b[k] == m[k] by {
                    assert(a[k] == z[i + k]);
                    assert(b[k] == t[i + k]);
                }
                assert(b =~= m);
            }
            if b == m {
                assert forall|k: int| 0 <= k < 4 implies a[k] == m[k] by {
                    assert(a[k] == z[i + k]);
                    assert(b[k] == t[i + k]);
                }
                assert(a =~= m);
            }
        }
    }
    if t.len() >= 4 && ep_marker_at(t, t.len() - 4) && forall|j: int|
        0 <= j < t.len() - 4 ==> !#[trigger] ep_marker_at(t, j) {
        assert(z.take(z.len() - 4) =~= zeros_to_o(t.take(t.len() - 4)));
    } else {
        if z.len() >= 4 && ep_marker_at(z, z.len() - 4) && forall|j: int|
            0 <= j < z.len() - 4 ==> !#[trigger] ep_marker_at(z, j) {
            assert(ep_marker_at(t, t.len() - 4));
            assert forall|j: int| 0 <= j < t.len() - 4 implies !#[trigger] ep_marker_at(t, j) by {
                assert(!ep_marker_at(z, j));
            }
        }
    }
}

/// Castling written with zeros reads as with the letter O: a spelling and
/// the same spelling with every `0` made `O` normalize alike (so
/// `parse_san` treats `0-0` as `O-O`, and `0-0-0` as `O-O-O`).
pub proof fn lemma_zeros_read_as_o(cs: Seq<char>)
    ensures
        normalize(zeros_to_o(cs)) == normalize(cs),
{
    lemma_trim_start_zeros(cs);
    lemma_trim_end_zeros(crate::text::trim_start(cs));
    let t = trim(cs);
    lemma_strip_ep_zeros(t);
    assert(zeros_to_o(zeros_to_o(strip_ep(t))) =~= zeros_to_o(strip_ep(t)));
}

proof fn lemma_trim_start_push(cs: Seq<char>, g: char)
    requires
        !crate::text::is_ws(g),
        forall|i: int| 0 <= i < cs.len() ==> (#[trigger] crate::text::is_ws(cs[i]) ==> cs[i] == ' '),
    ensures
        crate::text::trim_start(cs.push(g)) == crate::text::trim_start(cs).push(g),
        forall|i: int|
            0 <= i < crate::text::trim_start(cs).len() ==> (#[trigger] crate::text::is_ws(
                crate::text::trim_start(cs)[i],
            ) ==> crate::text::trim_start(cs)[i] == ' '),
    decreases cs.len(),
{
    if cs.len() > 0 && crate::text::is_ws(cs[0]) {
        assert(cs.push(g).drop_first() =~= cs.drop_first().push(g));
        let d = cs.drop_first();
        assert forall|i: int| 0 <= i < d.len() implies (#[trigger] crate::text::is_ws(d[i]) ==> d[i] == ' ') by {
            assert(d[i] == cs[i + 1]);
        }
        lemma_trim_start_push(d, g);
    } else if cs.len() == 0 {
        assert(cs.push(g)[0] == g);
    } else {
        assert(cs.push(g)[0] == cs[0]);
    }
}

proof fn lemma_trailing_spaces(y: Seq<char>)
    requires
        forall|i: int| 0 <= i < y.len() ==> (#[trigger] crate::text::is_ws(y[i]) ==> y[i] == ' '),
    ensures
        trim_glyphs(zeros_to_o(y)) == trim_glyphs(zeros_to_o(crate::text::trim_end(y))),
    decreases y.len(),
{
    if y.len() > 0 && crate::text::is_ws(y.last()) {
        let d = y.drop_last();
        assert(y.last() == ' ');
        assert(zeros_to_o(y).drop_last() =~= zeros_to_o(d));
        assert(zeros_to_o(y).last() == ' ');
        assert forall|i: int| 0 <= i < d.len() implies (#[trigger] crate::text::is_ws(d[i]) ==> d[i] == ' ') by {
            assert(d[i] == y[i]);
        }
        lemma_trailing_spaces(d);
    }
}

/// A trailing check, mate or annotation glyph does not change how a SAN
/// spelling reads: `cs` followed by `+`, `#`, `!` or `?` normalizes like
/// `cs`, for spellings whose only whitespace is the space and whose trimmed
/// text has no trailing `e.p.` to strip.
pub proof fn lemma_glyph_suffix(cs: Seq<char>, g: char)
    requires
        g == '+' || g == '#' || g == '!' || g == '?',
        forall|i: int| 0 <= i < cs.len() ==> (#[trigger] crate::text::is_ws(cs[i]) ==> cs[i] == ' '),
        strip_ep(trim(cs)) == trim(cs),
    ensures
        normalize(cs.push(g)) == normalize(cs),
{
    assert(!crate::text::is_ws(g));
    lemma_trim_start_push(cs, g);
    let y = crate::text::trim_start(cs);
    let yg = y.push(g);
    assert(yg.drop_last() =~= y);
    assert(crate::text::trim_end(yg) == yg);
    assert(trim(cs.push(g)) == yg);
    if yg.len() >= 4 && ep_marker_at(yg, yg.len() - 4) {
        assert(yg.subrange(yg.len() - 4, yg.len() as int)[3] == g);
        assert(seq!['e', '.', 'p', '.'][3] == '.');
    }
    assert(strip_ep(yg) == yg);
    assert(zeros_to_o(yg) =~= zeros_to_o(y).push(g));
    assert(zeros_to_o(y).push(g).drop_last() =~= zeros_to_o(y));
    assert(trim_glyphs(zeros_to_o(yg)) == trim_glyphs(zeros_to_o(y)));
    lemma_trailing_spaces(y);
}

/// Strip decorations so equivalent spellings compare equal.
fn normalize_chars(cs: &Vec<char>) -> (r: Vec<char>)
    ensures
        r@ == normalize(cs@),
{
    let t = trim_chars(cs);
    let n = t.len();
    // Position of the first `e.p.`, if any.
    let mut found: Option<usize> = None;
    if n >= 4 {
        let mut i: usize = 0;
        while i <= n - 4
            invariant
                n == t.len(),
                n >= 4,
                i <= n - 3,
                found matches Some(x) ==> x < i && ep_marker_at(t@, x as int) && forall|j: int|
                    0 <= j < x ==> !#[trigger] ep_marker_at(t@, j),
                found is None ==> forall|j: int| 0 <= j < i ==> !#[trigger] ep_marker_at(t@, j),
            decreases n - 3 - i,
        {
            if found.is_none() && t[i] == 'e' && t[i + 1] == '.' && t[i + 2] == 'p' && t[i + 3]
                == '.' {
                assert(t@.subrange(i as int, i + 4) =~= seq!['e', '.', 'p', '.']);
                found = Some(i);
            } else if found.is_none() {
                assert(!ep_marker_at(t@, i as int));
            }
            i += 1;
        }
    }
    let keep: usize = match found {
        Some(i) => if i + 4 == n {
            i
        } else {
            n
        },
        None => n,
    };
    assert(t@.take(keep as int) == strip_ep(t@)) by {
        if keep == n {
            assert(t@.take(n as int) =~= t@);
        }
    }
    let mut u: Vec<char> = Vec::new();
    let mut k: usize = 0;
    while k < keep
        invariant
            k <= keep <= n,
            n == t.len(),
            u@ == zeros_to_o(t@.take(k as int)),
        decreases keep - k,
    {
        let c = t[k];
        u.push(
            if c == '0' {
                'O'
            } else {
                c
            },
        );
        k += 1;
        assert(u@ =~= zeros_to_o(t@.take(k as int)));
    }
    let ghost z = u@;
    while u.len() > 0 && is_glyph_char(u[u.len() - 1])
        invariant
            trim_glyphs(z) == trim_glyphs(u@),
        decreases u.len(),
    {
        u.pop();
    }
    trim_chars(&u)
}

/// Whether `c` is a trailing glyph.
fn is_glyph_char(c: char) -> (r: bool)
    ensures
        r == is_glyph(c),
{
    c == '+' || c == '#' || c == '!' || c == '?' || c == ' '
}

/// Whether `a` is the piece type `pt`.
fn is_type(a: Option<PieceType>, pt: PieceType) -> (r: bool)
    ensures
        r == (a == Some(pt)),
{
    match a {
        Some(x) => x == pt,
        None => false,
    }
}

/// Append the name of a square.
fn push_square(s: &mut Vec<char>, sq: Square)
    requires
        sq.wf(),
    ensures
        final(s)@ == old(s)@ + square_text(sq.0 as int),
{
    s.push(((97 + sq.0 % 8) as u8) as char);
    s.push(((49 + sq.0 / 8) as u8) as char);
    assert(s@ =~= old(s)@ + square_text(sq.0 as int));
}

impl Board {
    /// The disambiguation flags of a piece move: whether any rival exists,
    /// whether one shares the file, whether one shares the rank.
    fn rivals(&self, mv: Move) -> (r: (bool, bool, bool))
        requires
            self.valid(),
            legal(self@, mv),
        ensures
            r.0 == exists|m2: Move| #[trigger] rival(self@, mv, m2),
            r.1 == exists|m2: Move| #[trigger] rival(self@, mv, m2) && sq_file(mfrom(m2)) == sq_file(
                mfrom(mv),
            ),
            r.2 == exists|m2: Move| #[trigger] rival(self@, mv, m2) && sq_rank(mfrom(m2)) == sq_rank(
                mfrom(mv),
            ),
    {
        let from = mv.from();
        let to = mv.to();
        let pt = match self.piece_type_at(from) {
            Some(p) => p,
            None => {
                return (false, false, false);
            },
        };
        let moves = self.legal_moves();
        let mut ambiguous = false;
        let mut same_file = false;
        let mut same_rank = false;
        let mut i: usize = 0;
        while i < moves.len()
            invariant
                i <= moves@.len(),
                self.valid(),
                from.0 == mfrom(mv),
                to.0 == mto(mv),
                self@.placement[mfrom(mv)] matches Some(p) && p.piece_type == pt,
                forall|m: Move| #[trigger] moves@.contains(m) == legal(self@, m),
                ambiguous == exists|j: int| 0 <= j < i && #[trigger] rival(self@, mv, moves@[j]),
                same_file == exists|j: int|
                    0 <= j < i && #[trigger] rival(self@, mv, moves@[j]) && sq_file(
                        mfrom(moves@[j]),
                    ) == sq_file(mfrom(mv)),
                same_rank == exists|j: int|
                    0 <= j < i && #[trigger] rival(self@, mv, moves@[j]) && sq_rank(
                        mfrom(moves@[j]),
                    ) == sq_rank(mfrom(mv)),
            decreases moves@.len() - i,
        {
            let other = moves.get(i);
            proof {
                assert(moves@.contains(other));
            }
            let of = other.from();
            if other.to().0 == to.0 && of.0 != from.0 && is_type(self.piece_type_at(of), pt) {
                assert(rival(self@, mv, moves@[i as int]));
                ambiguous = true;
                if of.0 % 8 == from.0 % 8 {
                    same_file = true;
                }
                if of.0 / 8 == from.0 / 8 {
                    same_rank = true;
                }
            } else {
                assert(!rival(self@, mv, moves@[i as int]));
            }
            i += 1;
        }
        proof {
            if exists|m2: Move| #[trigger] rival(self@, mv, m2) {
                let m2 = choose|m2: Move| #[trigger] rival(self@, mv, m2);
                assert(moves@.contains(m2));
                let j = choose|j: int| 0 <= j < moves@.len() && moves@[j] == m2;
                assert(rival(self@, mv, moves@[j]));
            }
            if exists|m2: Move| #[trigger] rival(self@, mv, m2) && sq_file(mfrom(m2)) == sq_file(
                mfrom(mv),
            ) {
                let m2 = choose|m2: Move| #[trigger] rival(self@, mv, m2) && sq_file(mfrom(m2))
                    == sq_file(mfrom(mv));
                assert(moves@.contains(m2));
                let j = choose|j: int| 0 <= j < moves@.len() && moves@[j] == m2;
                assert(rival(self@, mv, moves@[j]));
            }
            if exists|m2: Move| #[trigger] rival(self@, mv, m2) && sq_rank(mfrom(m2)) == sq_rank(
                mfrom(mv),
            ) {
                let m2 = choose|m2: Move| #[trigger] rival(self@, mv, m2) && sq_rank(mfrom(m2))
                    == sq_rank(mfrom(mv));
                assert(moves@.contains(m2));
                let j = choose|j: int| 0 <= j < moves@.len() && moves@[j] == m2;
                assert(rival(self@, mv, moves@[j]));
            }
        }
        (ambiguous, same_file, same_rank)
    }

    /// SAN of a legal move without the check suffix.
    fn san_no_suffix(&self, mv: Move) -> (r: Vec<char>)
        requires
            self.valid(),
            legal(self@, mv),
        ensures
            r@ == san_base(self@, mv),
    {
        let mut s: Vec<char> = Vec::new();
        if mv.is_king_castle() {
            s.push('O');
            s.push('-');
            s.push('O');
            assert(s@ =~= seq!['O', '-', 'O']);
            return s;
        }
        if mv.is_queen_castle() {
            s.push('O');
            s.push('-');
            s.push('O');
            s.push('-');
            s.push('O');
            assert(s@ =~= seq!['O', '-', 'O', '-', 'O']);
            return s;
        }
        let from = mv.from();
        let to = mv.to();
        let pt = match self.piece_type_at(from) {
            Some(p) => p,
            None => {
                return s;
            },
        };
        if pt == PieceType::Pawn {
            if mv.is_capture() {
                s.push(((97 + from.0 % 8) as u8) as char);
                s.push('x');
            }
            let ghost a = s@;
            push_square(&mut s, to);
            let ghost b = s@;
            match mv.promotion_piece() {
                Some(promo) => {
                    s.push('=');
                    s.push(Piece::new(Color::White, promo).to_char());
                },
                None => {},
            }
            assert(s@ =~= san_base(self@, mv));
            return s;
        }
        s.push(Piece::new(Color::White, pt).to_char());
        let (ambiguous, same_file, same_rank) = self.rivals(mv);
        let ghost a = s@;
        if ambiguous {
            if !same_file {
                s.push(((97 + from.0 % 8) as u8) as char);
            } else if !same_rank {
                s.push(((49 + from.0 / 8) as u8) as char);
            } else {
                s.push(((97 + from.0 % 8) as u8) as char);
                s.push(((49 + from.0 / 8) as u8) as char);
            }
        }
        assert(s@ =~= a + disambiguation(self@, mv));
        if mv.is_capture() {
            s.push('x');
        }
        push_square(&mut s, to);
        assert(s@ =~= san_base(self@, mv));
        s
    }

    /// Standard Algebraic Notation for a legal move in this position.
    pub fn san(&self, mv: Move) -> (r: String)
        requires
            self.valid(),
            legal(self@, mv),
            has_king(make_view(unclocked(self@), mv), opposite(self@.side)),
        ensures
            r@ == san_text(self@, mv),
    {
        let mut s = self.san_no_suffix(mv);
        let ghost base = s@;
        let mut after = self.without_clocks();
        proof {
            self.lemma_state_wf();
            lemma_pseudo_applicable(self@, mv);
            lemma_king_survives(self@, mv);
            assert(after@ == unclocked(self@));
        }
        after.make_move(mv);
        proof {
            after.lemma_inv_wf();
            reveal(make_view);
            assert(after@.side == opposite(self@.side));
            if self@.side == Color::White {
                assert(has_king(after@, Color::White));
                assert(has_king(after@, Color::Black));
            } else {
                assert(has_king(after@, Color::White));
                assert(has_king(after@, Color::Black));
            }
        }
        if after.in_check() {
            if after.has_legal_move() {
                s.push('+');
            } else {
                s.push('#');
            }
        }
        assert(s@ =~= san_text(self@, mv));
        crate::text::string_of(&s)
    }

    /// Parse a SAN move in the context of this position.
    pub fn parse_san(&self, san: &str) -> (r: Option<Move>)
        requires
            self.valid(),
        ensures
            match r {
                Some(m) => legal(self@, m) && normalize(san_base(self@, m)) == normalize(san@),
                None => forall|m: Move|
                    legal(self@, m) ==> normalize(san_base(self@, m)) != normalize(san@),
            },
    {
        let want = normalize_chars(&chars_of(san));
        let moves = self.legal_moves();
        let mut i: usize = 0;
        while i < moves.len()
            invariant
                i <= moves@.len(),
                self.valid(),
                want@ == normalize(san@),
                forall|m: Move| #[trigger] moves@.contains(m) == legal(self@, m),
                forall|j: int|
                    0 <= j < i ==> normalize(san_base(self@, #[trigger] moves@[j])) != want@,
            decreases moves@.len() - i,
        {
            let mv = moves.get(i);
            proof {
                assert(moves@.contains(mv));
            }
            let text = normalize_chars(&self.san_no_suffix(mv));
            if same_chars(&text, &want) {
                return Some(mv);
            }
            i += 1;
        }
        proof {
            assert forall|m: Move| legal(self@, m) implies normalize(san_base(self@, m)) != normalize(
                san@,
            ) by {
                assert(moves@.contains(m));
                let j = choose|j: int| 0 <= j < moves@.len() && moves@[j] == m;
                assert(normalize(san_base(self@, moves@[j])) != want@);
            }
        }
        None
    }
}

} // verus!

verus! {

/// Two legal pawn moves to the same square that agree on capturing, and
/// for captures on the origin file, start on the same square.
proof fn lemma_pawn_same_origin(v: BoardState, m1: Move, m2: Move)
    requires
        legal(v, m1),
        legal(v, m2),
        v.placement[mfrom(m1)].unwrap().piece_type == PieceType::Pawn,
        v.placement[mfrom(m2)].unwrap().piece_type == PieceType::Pawn,
        mto(m1) == mto(m2),
        is_capture_flag(mflag(m1)) == is_capture_flag(mflag(m2)),
        is_capture_flag(mflag(m1)) ==> sq_file(mfrom(m1)) == sq_file(mfrom(m2)),
    ensures
        mfrom(m1) == mfrom(m2),
{
    crate::moves::lemma_move_ranges(m1);
    crate::moves::lemma_move_ranges(m2);
}

/// A piece letter is never a file letter, a rank digit or a castling `O`.
proof fn lemma_letters(pt: PieceType)
    requires
        pt != PieceType::Pawn,
    ensures
        !(97 <= (upper(pt_char(pt)) as u32) <= 104),
        !(49 <= (upper(pt_char(pt)) as u32) <= 56),
        upper(pt_char(pt)) != 'O',
{
}

/// Distinct piece types have distinct SAN letters.
proof fn lemma_letter_injective(a: PieceType, b: PieceType)
    requires
        upper(pt_char(a)) == upper(pt_char(b)),
    ensures
        a == b,
{
    let ca = upper(pt_char(a)) as u32;
    let cb = upper(pt_char(b)) as u32;
    assert(ca == match a {
        PieceType::Pawn => 80u32,
        PieceType::Knight => 78u32,
        PieceType::Bishop => 66u32,
        PieceType::Rook => 82u32,
        PieceType::Queen => 81u32,
        PieceType::King => 75u32,
    });
    assert(cb == match b {
        PieceType::Pawn => 80u32,
        PieceType::Knight => 78u32,
        PieceType::Bishop => 66u32,
        PieceType::Rook => 82u32,
        PieceType::Queen => 81u32,
        PieceType::King => 75u32,
    });
}

/// Distinct squares have distinct names.
proof fn lemma_square_text(a: int, b: int)
    requires
        0 <= a < 64,
        0 <= b < 64,
        square_text(a) == square_text(b),
    ensures
        a == b,
{
    assert(square_text(a)[0] == square_text(b)[0]);
    assert(square_text(a)[1] == square_text(b)[1]);
}

/// Distinct legal moves have distinct SAN.
#[verifier::spinoff_prover]
pub proof fn lemma_san_injective(v: BoardState, m1: Move, m2: Move)
    requires
        legal(v, m1),
        legal(v, m2),
        san_base(v, m1) == san_base(v, m2),
    ensures
        m1 == m2,
{
    crate::moves::lemma_move_ranges(m1);
    crate::moves::lemma_move_ranges(m2);
    let f1 = mflag(m1);
    let f2 = mflag(m2);
    let s = san_base(v, m1);
    let pt1 = v.placement[mfrom(m1)].unwrap().piece_type;
    let pt2 = v.placement[mfrom(m2)].unwrap().piece_type;
    let c1 = f1 == 2 || f1 == 3;
    let c2 = f2 == 2 || f2 == 3;
    if c1 || c2 {
        if c1 && c2 {
            assert(s.len() == if f1 == 2 {
                3int
            } else {
                5int
            });
            assert(san_base(v, m2).len() == if f2 == 2 {
                3int
            } else {
                5int
            });
            assert(f1 == f2);
        } else if c1 {
            assert(s[0] == 'O');
            if pt2 != PieceType::Pawn {
                lemma_letters(pt2);
            } else if is_capture_flag(f2) {
                assert(san_base(v, m2)[0] == file_char(sq_file(mfrom(m2))));
            } else {
                assert(san_base(v, m2)[0] == file_char(sq_file(mto(m2))));
            }
        } else {
            assert(san_base(v, m2)[0] == 'O');
            if pt1 != PieceType::Pawn {
                lemma_letters(pt1);
            } else if is_capture_flag(f1) {
                assert(s[0] == file_char(sq_file(mfrom(m1))));
            } else {
                assert(s[0] == file_char(sq_file(mto(m1))));
            }
        }
        lemma_pseudo_unique_castle(v, m1, m2);
    } else if pt1 == PieceType::Pawn || pt2 == PieceType::Pawn {
        if pt1 != PieceType::Pawn {
            lemma_letters(pt1);
            if is_capture_flag(f2) {
                assert(san_base(v, m2)[0] == file_char(sq_file(mfrom(m2))));
            } else {
                assert(san_base(v, m2)[0] == file_char(sq_file(mto(m2))));
            }
            assert(s[0] == upper(pt_char(pt1)));
        } else if pt2 != PieceType::Pawn {
            lemma_letters(pt2);
            if is_capture_flag(f1) {
                assert(s[0] == file_char(sq_file(mfrom(m1))));
            } else {
                assert(s[0] == file_char(sq_file(mto(m1))));
            }
            assert(san_base(v, m2)[0] == upper(pt_char(pt2)));
        } else {
            lemma_pawn_sans(v, m1, m2);
        }
    } else {
        lemma_piece_sans(v, m1, m2);
    }
}

/// Castling moves with the same flag are the same move.
proof fn lemma_pseudo_unique_castle(v: BoardState, m1: Move, m2: Move)
    requires
        legal(v, m1),
        legal(v, m2),
        mflag(m1) == 2 || mflag(m1) == 3,
        mflag(m1) == mflag(m2),
    ensures
        m1 == m2,
{
    crate::moves::lemma_move_ranges(m1);
    crate::moves::lemma_move_ranges(m2);
    if crate::movegen::castle_ok(v, m1) && crate::movegen::castle_ok(v, m2) {
        crate::moves::lemma_move_ext(m1, m2);
    } else {
        // A non-castling king move never carries a castling flag.
        crate::movegen::lemma_pseudo_unique(v, m1, m2);
    }
}

/// Two legal pawn moves with the same SAN are the same move.
#[verifier::rlimit(50)]
#[verifier::spinoff_prover]
proof fn lemma_pawn_sans(v: BoardState, m1: Move, m2: Move)
    requires
        legal(v, m1),
        legal(v, m2),
        mflag(m1) != 2 && mflag(m1) != 3,
        mflag(m2) != 2 && mflag(m2) != 3,
        v.placement[mfrom(m1)].unwrap().piece_type == PieceType::Pawn,
        v.placement[mfrom(m2)].unwrap().piece_type == PieceType::Pawn,
        san_base(v, m1) == san_base(v, m2),
    ensures
        m1 == m2,
{
    crate::moves::lemma_move_ranges(m1);
    crate::moves::lemma_move_ranges(m2);
    let f1 = mflag(m1);
    let f2 = mflag(m2);
    let s1 = san_base(v, m1);
    let s2 = san_base(v, m2);
    let p1: Seq<char> = match promo_of_flag(f1) {
        Some(p) => seq!['=', upper(pt_char(p))],
        None => Seq::empty(),
    };
    let p2: Seq<char> = match promo_of_flag(f2) {
        Some(p) => seq!['=', upper(pt_char(p))],
        None => Seq::empty(),
    };
    let k1: Seq<char> = if is_capture_flag(f1) {
        seq![file_char(sq_file(mfrom(m1))), 'x']
    } else {
        Seq::empty()
    };
    let k2: Seq<char> = if is_capture_flag(f2) {
        seq![file_char(sq_file(mfrom(m2))), 'x']
    } else {
        Seq::empty()
    };
    assert(s1 == k1 + square_text(mto(m1)) + p1);
    assert(s2 == k2 + square_text(mto(m2)) + p2);
    if is_capture_flag(f1) != is_capture_flag(f2) {
        if is_capture_flag(f1) {
            assert(s1[1] == 'x');
            assert(s2[1] == square_text(mto(m2))[1]);
        } else {
            assert(s2[1] == 'x');
            assert(s1[1] == square_text(mto(m1))[1]);
        }
        assert(s1[1] != s2[1]);
    }
    assert(k1.len() == k2.len());
    assert(square_text(mto(m1)) =~= s1.subrange(k1.len() as int, k1.len() as int + 2));
    assert(square_text(mto(m2)) =~= s2.subrange(k2.len() as int, k2.len() as int + 2));
    lemma_square_text(mto(m1), mto(m2));
    assert(p1 =~= s1.subrange(k1.len() as int + 2, s1.len() as int));
    assert(p2 =~= s2.subrange(k2.len() as int + 2, s2.len() as int));
    if promo_of_flag(f1) != promo_of_flag(f2) {
        if promo_of_flag(f1) is Some && promo_of_flag(f2) is Some {
            assert(p1[1] != p2[1]);
        } else {
            assert(p1.len() != p2.len());
        }
    }
    if is_capture_flag(f1) {
        assert(s1[0] == k1[0]);
        assert(s2[0] == k2[0]);
        assert(k1[0] == k2[0]);
        assert(sq_file(mfrom(m1)) == sq_file(mfrom(m2)));
    }
    lemma_pawn_same_origin(v, m1, m2);
    crate::movegen::lemma_pseudo_unique(v, m1, m2);
}

/// Two legal piece moves with the same SAN are the same move.
#[verifier::rlimit(50)]
#[verifier::spinoff_prover]
proof fn lemma_piece_sans(v: BoardState, m1: Move, m2: Move)
    requires
        legal(v, m1),
        legal(v, m2),
        mflag(m1) != 2 && mflag(m1) != 3,
        mflag(m2) != 2 && mflag(m2) != 3,
        v.placement[mfrom(m1)].unwrap().piece_type != PieceType::Pawn,
        v.placement[mfrom(m2)].unwrap().piece_type != PieceType::Pawn,
        san_base(v, m1) == san_base(v, m2),
    ensures
        m1 == m2,
{
    crate::moves::lemma_move_ranges(m1);
    crate::moves::lemma_move_ranges(m2);
    let f1 = mflag(m1);
    let f2 = mflag(m2);
    let s1 = san_base(v, m1);
    let s2 = san_base(v, m2);
    let pt1 = v.placement[mfrom(m1)].unwrap().piece_type;
    let pt2 = v.placement[mfrom(m2)].unwrap().piece_type;
    let d1 = disambiguation(v, m1);
    let d2 = disambiguation(v, m2);
    let x1: Seq<char> = if is_capture_flag(f1) {
        seq!['x']
    } else {
        Seq::empty()
    };
    let x2: Seq<char> = if is_capture_flag(f2) {
        seq!['x']
    } else {
        Seq::empty()
    };
    assert(s1 == seq![upper(pt_char(pt1))] + d1 + x1 + square_text(mto(m1)));
    assert(s2 == seq![upper(pt_char(pt2))] + d2 + x2 + square_text(mto(m2)));
    assert(s1[0] == s2[0]);
    lemma_letter_injective(pt1, pt2);
    assert(pt1 == pt2);
    let n = s1.len() as int;
    assert(square_text(mto(m1)) =~= s1.subrange(n - 2, n));
    assert(square_text(mto(m2)) =~= s2.subrange(n - 2, n));
    lemma_square_text(mto(m1), mto(m2));
    // Capturing is decided by the target square.
    assert(is_capture_flag(f1) == is_capture_flag(f2));
    assert(d1 =~= s1.subrange(1, 1 + d1.len() as int));
    assert(d1.len() == d2.len());
    assert(d2 =~= s2.subrange(1, 1 + d2.len() as int));
    if mfrom(m1) != mfrom(m2) {
        assert(rival(v, m1, m2));
        assert(rival(v, m2, m1));
        let fr1 = mfrom(m1);
        let fr2 = mfrom(m2);
        if !(exists|m3: Move| #[trigger] rival(v, m1, m3) && sq_file(mfrom(m3)) == sq_file(fr1)) {
            // `d1` is the file of `fr1`, so `d2` is a letter: the file of `fr2`.
            assert(d1 == seq![file_char(sq_file(fr1))]);
            assert(d2[0] == d1[0]);
            assert(sq_file(fr2) == sq_file(fr1));
        } else if !(exists|m3: Move|
            #[trigger] rival(v, m1, m3) && sq_rank(mfrom(m3)) == sq_rank(fr1)) {
            assert(d1 == seq![rank_char(sq_rank(fr1))]);
            assert(d2[0] == d1[0]);
            assert(sq_rank(fr2) == sq_rank(fr1));
        } else {
            assert(d1 == seq![file_char(sq_file(fr1)), rank_char(sq_rank(fr1))]);
            assert(d2[0] == d1[0] && d2[1] == d1[1]);
            assert(fr1 == fr2);
        }
    }
    crate::movegen::lemma_pseudo_unique(v, m1, m2);
}

} // verus!

verus! {

/// A character that SAN text may hold: no whitespace, zero, dot or glyph.
pub open spec fn plain_char(c: char) -> bool {
    !crate::text::is_ws(c) && c != '0' && c != '.' && !is_glyph(c)
}

/// Every character of a SAN is plain, and there is at least one.
proof fn lemma_san_plain(v: BoardState, m: Move)
    ensures
        san_base(v, m).len() > 0,
        forall|i: int| 0 <= i < san_base(v, m).len() ==> #[trigger] plain_char(san_base(v, m)[i]),
{
    crate::moves::lemma_move_ranges(m);
    let s = san_base(v, m);
    let f = mflag(m);
    let from = mfrom(m);
    let to = mto(m);
    let pt = v.placement[from].unwrap().piece_type;
    assert forall|i: int| 0 <= i < s.len() implies #[trigger] plain_char(s[i]) by {
        if f != 2 && f != 3 {
            let sq = square_text(to);
            assert(plain_char(sq[0]) && plain_char(sq[1]));
            assert(plain_char(file_char(sq_file(from))) && plain_char(rank_char(sq_rank(from))));
            assert(plain_char('x') && plain_char('='));
            if pt != PieceType::Pawn {
                assert(plain_char(upper(pt_char(pt))));
                let d = disambiguation(v, m);
                assert(forall|j: int| 0 <= j < d.len() ==> plain_char(#[trigger] d[j]));
            } else {
                match promo_of_flag(f) {
                    Some(p) => {
                        assert(plain_char(upper(pt_char(p))));
                    },
                    None => {},
                }
            }
        }
    }
}

/// Normalizing plain text followed by at most a check glyph gives the text.
proof fn lemma_normalize_plain(cs: Seq<char>, suffix: Seq<char>)
    requires
        cs.len() > 0,
        forall|i: int| 0 <= i < cs.len() ==> #[trigger] plain_char(cs[i]),
        suffix == Seq::<char>::empty() || suffix == seq!['+'] || suffix == seq!['#'],
    ensures
        normalize(cs + suffix) == cs,
{
    let t = cs + suffix;
    assert(plain_char(cs[0]));
    assert(plain_char(cs.last()));
    assert(t[0] == cs[0]);
    assert(crate::text::trim_start(t) == t);
    assert(crate::text::trim_end(t) == t);
    assert(crate::text::trim(t) == t);
    assert forall|j: int| 0 <= j < t.len() - 4 implies !#[trigger] ep_marker_at(t, j) by {
        if ep_marker_at(t, j) {
            assert(t.subrange(j, j + 4)[1] == '.');
            assert(t[j + 1] == '.');
            if j + 1 < cs.len() {
                assert(plain_char(cs[j + 1]));
            }
        }
    }
    assert(!ep_marker_at(t, t.len() - 4)) by {
        if t.len() >= 4 && ep_marker_at(t, t.len() - 4) {
            let j = t.len() - 4;
            assert(t.subrange(j, j + 4)[1] == '.');
            assert(t[j + 1] == '.');
            if j + 1 < cs.len() {
                assert(plain_char(cs[j + 1]));
            }
        }
    }
    assert(strip_ep(t) == t);
    assert forall|i: int| 0 <= i < t.len() implies t[i] != '0' by {
        if i < cs.len() {
            assert(plain_char(cs[i]));
        }
    }
    assert(zeros_to_o(t) =~= t);
    if suffix.len() > 0 {
        assert(t.drop_last() =~= cs);
    } else {
        assert(t =~= cs);
    }
    assert(trim_glyphs(cs) == cs);
    assert(trim_glyphs(t) == cs);
    assert(crate::text::trim_start(cs) == cs);
    assert(crate::text::trim_end(cs) == cs);
}

/// The SAN of a legal move, check suffix included, parses back to that move
/// and to no other legal move.
pub proof fn lemma_san_round_trip(v: BoardState, m: Move)
    requires
        legal(v, m),
    ensures
        normalize(san_text(v, m)) == san_base(v, m),
        normalize(san_base(v, m)) == san_base(v, m),
        forall|m2: Move|
            legal(v, m2) && normalize(san_base(v, m2)) == normalize(san_text(v, m)) ==> m2 == m,
{
    lemma_san_plain(v, m);
    lemma_normalize_plain(san_base(v, m), san_suffix(v, m));
    lemma_normalize_plain(san_base(v, m), Seq::empty());
    assert(san_base(v, m) + Seq::<char>::empty() =~= san_base(v, m));
    assert forall|m2: Move|
        legal(v, m2) && normalize(san_base(v, m2)) == normalize(san_text(v, m)) implies m2
        == m by {
        lemma_san_plain(v, m2);
        lemma_normalize_plain(san_base(v, m2), Seq::empty());
        assert(san_base(v, m2) + Seq::<char>::empty() =~= san_base(v, m2));
        lemma_san_injective(v, m, m2);
    }
}

} // verus!
