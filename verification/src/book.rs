//! A small embedded opening book: named main lines of the most common
//! openings, used to drive the *opponent* (the side the trainee is not
//! playing) along real theory.
//!
//! Lines are authored in SAN and compiled to UCI. Matching is by move-sequence
//! prefix: the opponent always answers with the next move of the
//! earliest-listed line still consistent with the game, so play follows a
//! single coherent main line that narrows into a specific opening as the
//! trainee makes choices.
use crate::board::{Board, BoardState, has_king, make_view};
use crate::fen::start_state;
use crate::game::clocks_ok;
use crate::movegen::{legal, unclocked};
use crate::moves::Move;
use crate::san::{normalize, san_base};
use crate::text::{chars_of, holds_seqs, split_words, string_of, words};
use crate::types::{Color, PieceType, opposite};
use crate::uci::uci_text;
use vstd::prelude::*;

verus! {

/// (display name, SAN main line). Earlier entries are treated as "more main":
/// when several lines share the moves played so far, the opponent follows the
/// first one listed.
pub open spec fn book_table() -> Seq<(Seq<char>, Seq<char>)> {
    seq![
        ("Ruy Lopez"@, "e4 e5 Nf3 Nc6 Bb5 a6 Ba4 Nf6 O-O Be7 Re1 b5 Bb3 d6 c3 O-O h3 Na5 Bc2 c5 d4 Qc7"@),
        ("Italian Game"@, "e4 e5 Nf3 Nc6 Bc4 Bc5 c3 Nf6 d3 d6 O-O O-O Re1 a6 a4 Ba7 h3 h6"@),
        ("Scotch Game"@, "e4 e5 Nf3 Nc6 d4 exd4 Nxd4 Nf6 Nxc6 bxc6 e5 Qe7 Qe2 Nd5 c4 Ba6"@),
        ("Petrov Defense"@, "e4 e5 Nf3 Nf6 Nxe5 d6 Nf3 Nxe4 d4 d5 Bd3 Nc6 O-O Be7 c4 Nb4"@),
        ("Sicilian Najdorf"@, "e4 c5 Nf3 d6 d4 cxd4 Nxd4 Nf6 Nc3 a6 Be2 e5 Nb3 Be7 O-O O-O Be3 Be6"@),
        ("Sicilian Sveshnikov"@, "e4 c5 Nf3 Nc6 d4 cxd4 Nxd4 Nf6 Nc3 e5 Ndb5 d6 Bg5 a6 Na3 b5 Nd5 Be7"@),
        ("Sicilian Taimanov"@, "e4 c5 Nf3 e6 d4 cxd4 Nxd4 Nc6 Nc3 Qc7 Be2 a6 O-O Nf6 Be3 Bb4"@),
        ("French Defense"@, "e4 e6 d4 d5 Nc3 Nf6 Bg5 Be7 e5 Nfd7 Bxe7 Qxe7 f4 O-O Nf3 c5"@),
        ("Caro-Kann Defense"@, "e4 c6 d4 d5 Nc3 dxe4 Nxe4 Bf5 Ng3 Bg6 h4 h6 Nf3 Nd7 h5 Bh7 Bd3 Bxd3"@),
        ("Scandinavian Defense"@, "e4 d5 exd5 Qxd5 Nc3 Qa5 d4 Nf6 Nf3 c6 Bc4 Bf5 Bd2 e6"@),
        ("Pirc Defense"@, "e4 d6 d4 Nf6 Nc3 g6 Nf3 Bg7 Be2 O-O O-O c6 a4 Nbd7"@),
        ("Alekhine Defense"@, "e4 Nf6 e5 Nd5 d4 d6 Nf3 Bg4 Be2 e6 O-O Be7 c4 Nb6"@),
        ("Queen's Gambit Declined"@, "d4 d5 c4 e6 Nc3 Nf6 Bg5 Be7 e3 O-O Nf3 h6 Bh4 b6 cxd5 Nxd5"@),
        ("Slav Defense"@, "d4 d5 c4 c6 Nf3 Nf6 Nc3 dxc4 a4 Bf5 e3 e6 Bxc4 Bb4 O-O O-O"@),
        ("Queen's Gambit Accepted"@, "d4 d5 c4 dxc4 Nf3 Nf6 e3 e6 Bxc4 c5 O-O a6 dxc5 Qxd1"@),
        ("King's Indian Defense"@, "d4 Nf6 c4 g6 Nc3 Bg7 e4 d6 Nf3 O-O Be2 e5 O-O Nc6 d5 Ne7"@),
        ("Nimzo-Indian Defense"@, "d4 Nf6 c4 e6 Nc3 Bb4 e3 O-O Bd3 d5 Nf3 c5 O-O Nc6 a3 Bxc3"@),
        ("Queen's Indian Defense"@, "d4 Nf6 c4 e6 Nf3 b6 g3 Ba6 b3 Bb4 Bd2 Be7 Bg2 c6 Nc3 d5"@),
        ("Grunfeld Defense"@, "d4 Nf6 c4 g6 Nc3 d5 cxd5 Nxd5 e4 Nxc3 bxc3 Bg7 Nf3 c5 Rb1 O-O"@),
        ("English Opening"@, "c4 e5 Nc3 Nf6 Nf3 Nc6 g3 d5 cxd5 Nxd5 Bg2 Nb6 O-O Be7 a3 O-O"@),
        ("Reti Opening"@, "Nf3 d5 c4 c6 b3 Nf6 g3 Bf5 Bg2 e6 O-O Nbd7 Bb2 Bd6"@),
    ]
}

/// The book table as text.
fn book_lines() -> (r: Vec<(&'static str, &'static str)>)
    ensures
        r@.len() == book_table().len(),
        forall|i: int|
            0 <= i < r@.len() ==> (#[trigger] r@[i]).0@ == book_table()[i].0 && r@[i].1@
                == book_table()[i].1,
{
    let mut v: Vec<(&'static str, &'static str)> = Vec::new();
    v.push(("Ruy Lopez", "e4 e5 Nf3 Nc6 Bb5 a6 Ba4 Nf6 O-O Be7 Re1 b5 Bb3 d6 c3 O-O h3 Na5 Bc2 c5 d4 Qc7"));
    v.push(("Italian Game", "e4 e5 Nf3 Nc6 Bc4 Bc5 c3 Nf6 d3 d6 O-O O-O Re1 a6 a4 Ba7 h3 h6"));
    v.push(("Scotch Game", "e4 e5 Nf3 Nc6 d4 exd4 Nxd4 Nf6 Nxc6 bxc6 e5 Qe7 Qe2 Nd5 c4 Ba6"));
    v.push(("Petrov Defense", "e4 e5 Nf3 Nf6 Nxe5 d6 Nf3 Nxe4 d4 d5 Bd3 Nc6 O-O Be7 c4 Nb4"));
    v.push(("Sicilian Najdorf", "e4 c5 Nf3 d6 d4 cxd4 Nxd4 Nf6 Nc3 a6 Be2 e5 Nb3 Be7 O-O O-O Be3 Be6"));
    v.push(("Sicilian Sveshnikov", "e4 c5 Nf3 Nc6 d4 cxd4 Nxd4 Nf6 Nc3 e5 Ndb5 d6 Bg5 a6 Na3 b5 Nd5 Be7"));
    v.push(("Sicilian Taimanov", "e4 c5 Nf3 e6 d4 cxd4 Nxd4 Nc6 Nc3 Qc7 Be2 a6 O-O Nf6 Be3 Bb4"));
    v.push(("French Defense", "e4 e6 d4 d5 Nc3 Nf6 Bg5 Be7 e5 Nfd7 Bxe7 Qxe7 f4 O-O Nf3 c5"));
    v.push(("Caro-Kann Defense", "e4 c6 d4 d5 Nc3 dxe4 Nxe4 Bf5 Ng3 Bg6 h4 h6 Nf3 Nd7 h5 Bh7 Bd3 Bxd3"));
    v.push(("Scandinavian Defense", "e4 d5 exd5 Qxd5 Nc3 Qa5 d4 Nf6 Nf3 c6 Bc4 Bf5 Bd2 e6"));
    v.push(("Pirc Defense", "e4 d6 d4 Nf6 Nc3 g6 Nf3 Bg7 Be2 O-O O-O c6 a4 Nbd7"));
    v.push(("Alekhine Defense", "e4 Nf6 e5 Nd5 d4 d6 Nf3 Bg4 Be2 e6 O-O Be7 c4 Nb6"));
    v.push(("Queen's Gambit Declined", "d4 d5 c4 e6 Nc3 Nf6 Bg5 Be7 e3 O-O Nf3 h6 Bh4 b6 cxd5 Nxd5"));
    v.push(("Slav Defense", "d4 d5 c4 c6 Nf3 Nf6 Nc3 dxc4 a4 Bf5 e3 e6 Bxc4 Bb4 O-O O-O"));
    v.push(("Queen's Gambit Accepted", "d4 d5 c4 dxc4 Nf3 Nf6 e3 e6 Bxc4 c5 O-O a6 dxc5 Qxd1"));
    v.push(("King's Indian Defense", "d4 Nf6 c4 g6 Nc3 Bg7 e4 d6 Nf3 O-O Be2 e5 O-O Nc6 d5 Ne7"));
    v.push(("Nimzo-Indian Defense", "d4 Nf6 c4 e6 Nc3 Bb4 e3 O-O Bd3 d5 Nf3 c5 O-O Nc6 a3 Bxc3"));
    v.push(("Queen's Indian Defense", "d4 Nf6 c4 e6 Nf3 b6 g3 Ba6 b3 Bb4 Bd2 Be7 Bg2 c6 Nc3 d5"));
    v.push(("Grunfeld Defense", "d4 Nf6 c4 g6 Nc3 d5 cxd5 Nxd5 e4 Nxc3 bxc3 Bg7 Nf3 c5 Rb1 O-O"));
    v.push(("English Opening", "c4 e5 Nc3 Nf6 Nf3 Nc6 g3 d5 cxd5 Nxd5 Bg2 Nb6 O-O Be7 a3 O-O"));
    v.push(("Reti Opening", "Nf3 d5 c4 c6 b3 Nf6 g3 Bf5 Bg2 e6 O-O Nbd7 Bb2 Bd6"));
    v
}

/// A named line of theory, as UCI moves from the initial position.
pub struct Opening {
    pub name: String,
    pub ucis: Vec<String>,
}

/// The opponent's book move and the opening it belongs to.
pub struct BookReply {
    pub uci: String,
    pub name: String,
}

/// The texts of a sequence of strings.
pub open spec fn texts(v: Seq<String>) -> Seq<Seq<char>> {
    v.map_values(|s: String| s@)
}

/// A SAN token without trailing check, mate and annotation marks.
pub open spec fn trim_marks(cs: Seq<char>) -> Seq<char>
    decreases cs.len(),
{
    if cs.len() > 0 && (cs.last() == '+' || cs.last() == '#' || cs.last() == '!' || cs.last()
        == '?') {
        trim_marks(cs.drop_last())
    } else {
        cs
    }
}

/// `m` is the legal move of `v` that the SAN token `tok` names.
pub open spec fn names_move(v: BoardState, tok: Seq<char>, m: Move) -> bool {
    legal(v, m) && normalize(san_base(v, m)) == normalize(trim_marks(tok))
}

/// The move `tok` names in `v` can be played without overflowing the clocks
/// or removing the last enemy king.
pub open spec fn playable(v: BoardState, tok: Seq<char>) -> bool {
    &&& exists|m: Move| #[trigger] names_move(v, tok, m)
    &&& clocks_ok(v)
    &&& has_king(make_view(v, choose|m: Move| #[trigger] names_move(v, tok, m)), opposite(v.side))
}

/// The UCI moves a SAN line compiles to from `v`: as far as its tokens name
/// playable legal moves.
#[verifier::opaque]
pub open spec fn compile_line(v: BoardState, toks: Seq<Seq<char>>) -> Seq<Seq<char>>
    decreases toks.len(),
{
    if toks.len() == 0 || !playable(v, toks[0]) {
        Seq::empty()
    } else {
        let m = choose|m: Move| #[trigger] names_move(v, toks[0], m);
        seq![uci_text(m)] + compile_line(make_view(v, m), toks.drop_first())
    }
}

/// The book: each line's name and its UCI moves.
pub open spec fn book_spec() -> Seq<(Seq<char>, Seq<Seq<char>>)> {
    book_table().map_values(
        |e: (Seq<char>, Seq<char>)| (e.0, compile_line(start_state(), words(e.1))),
    )
}

/// `a` is a prefix of (or equal to) `b`.
pub open spec fn prefix_of(a: Seq<Seq<char>>, b: Seq<Seq<char>>) -> bool {
    a.len() <= b.len() && b.take(a.len() as int) == a
}

/// Drop trailing check, mate and annotation marks.
fn trim_marks_chars(cs: &Vec<char>) -> (r: Vec<char>)
    ensures
        r@ == trim_marks(cs@),
{
    let mut n = cs.len();
    assert(cs@.take(n as int) =~= cs@);
    while n > 0 && (cs[n - 1] == '+' || cs[n - 1] == '#' || cs[n - 1] == '!' || cs[n - 1] == '?')
        invariant
            n <= cs.len(),
            trim_marks(cs@) == trim_marks(cs@.take(n as int)),
        decreases n,
    {
        assert(cs@.take(n as int).drop_last() =~= cs@.take(n - 1));
        n -= 1;
    }
    let mut out: Vec<char> = Vec::new();
    let mut i: usize = 0;
    while i < n
        invariant
            i <= n <= cs.len(),
            out@ == cs@.take(i as int),
        decreases n - i,
    {
        out.push(cs[i]);
        i += 1;
        assert(out@ =~= cs@.take(i as int));
    }
    out
}

/// The legal move a normalized SAN names is unique.
proof fn lemma_names_unique(v: BoardState, tok: Seq<char>, m1: Move, m2: Move)
    requires
        names_move(v, tok, m1),
        names_move(v, tok, m2),
    ensures
        m1 == m2,
{
    crate::san::lemma_san_round_trip(v, m1);
    crate::san::lemma_san_round_trip(v, m2);
    crate::san::lemma_san_injective(v, m1, m2);
}

/// The playable move that `tok` names on `board`, if there is one.
fn playable_move(board: &Board, tok: &Vec<char>) -> (r: Option<Move>)
    requires
        board.valid(),
    ensures
        match r {
            Some(m) => playable(board@, tok@) && m == choose|m: Move| #[trigger] names_move(
                board@,
                tok@,
                m,
            ),
            None => !playable(board@, tok@),
        },
{
    let ghost v = board@;
    let t = trim_marks_chars(tok);
    let s = string_of(&t);
    let mv = match board.parse_san(s.as_str()) {
        Some(m) => m,
        None => {
            return None;
        },
    };
    proof {
        assert(names_move(v, tok@, mv));
        let c = choose|m: Move| #[trigger] names_move(v, tok@, m);
        lemma_names_unique(v, tok@, mv, c);
    }
    let side = board.side_to_move();
    if !(board.halfmove_clock() < 65535 && (side == Color::White || board.fullmove_number()
        < 65535)) {
        return None;
    }
    let mut after = board.without_clocks();
    proof {
        board.lemma_state_wf_valid();
        crate::movegen::lemma_pseudo_applicable(v, mv);
        crate::game::lemma_unclocked_same(v, mv);
    }
    after.make_move(mv);
    proof {
        after.lemma_inv_wf();
    }
    let kings = after.pieces_colored(PieceType::King, side.flip());
    proof {
        crate::bitboard::lemma_zero_iff_empty(kings.0);
    }
    if kings.is_empty() {
        assert(!has_king(make_view(v, mv), opposite(v.side))) by {
            if has_king(make_view(v, mv), opposite(v.side)) {
                let k = choose|k: int|
                    #[trigger] crate::board::has_piece(
                        make_view(v, mv),
                        k,
                        opposite(v.side),
                        PieceType::King,
                    );
                assert(crate::bitboard::mem(kings.0, k));
            }
        }
        return None;
    }
    proof {
        let k = choose|k: int| #[trigger] crate::bitboard::mem(kings.0, k);
        assert(crate::board::has_piece(make_view(v, mv), k, opposite(v.side), PieceType::King));
    }
    Some(mv)
}

/// A line stops where its next token names no playable move.
proof fn lemma_compile_stop(v: BoardState, toks: Seq<Seq<char>>)
    requires
        toks.len() == 0 || !playable(v, toks[0]),
    ensures
        compile_line(v, toks) == Seq::<Seq<char>>::empty(),
{
    reveal(compile_line);
}

/// A line continues with the move its next token names.
proof fn lemma_compile_step(v: BoardState, toks: Seq<Seq<char>>, m: Move)
    requires
        toks.len() > 0,
        playable(v, toks[0]),
        m == choose|m: Move| #[trigger] names_move(v, toks[0], m),
    ensures
        compile_line(v, toks) == seq![uci_text(m)] + compile_line(make_view(v, m), toks.drop_first()),
{
    reveal(compile_line);
}

/// Play the move a token named, keeping the board playable.
fn advance(board: &mut Board, tok: Ghost<Seq<char>>, mv: Move)
    requires
        old(board).valid(),
        playable(old(board)@, tok@),
        mv == choose|m: Move| #[trigger] names_move(old(board)@, tok@, m),
    ensures
        final(board).valid(),
        final(board)@ == make_view(old(board)@, mv),
{
    let ghost v = board@;
    proof {
        board.lemma_state_wf_valid();
        crate::movegen::lemma_pseudo_applicable(v, mv);
        crate::game::lemma_unclocked_same(v, mv);
        crate::movegen::lemma_king_survives(v, mv);
        let w = make_view(unclocked(v), mv);
        let k = choose|s: int| #[trigger] crate::board::has_piece(w, s, v.side, PieceType::King);
        assert(crate::board::has_piece(make_view(v, mv), k, v.side, PieceType::King));
        let k2 = choose|s: int|
            #[trigger] crate::board::has_piece(make_view(v, mv), s, opposite(v.side), PieceType::King);
        assert(crate::board::has_piece(make_view(v, mv), k2, opposite(v.side), PieceType::King));
    }
    board.make_move(mv);
    proof {
        board.lemma_inv_wf();
    }
}

/// Compile one SAN line to UCI moves from the initial position.
fn compile(sans: &str) -> (r: Vec<String>)
    ensures
        texts(r@) == compile_line(start_state(), words(sans@)),
{
    let toks = split_words(&chars_of(sans));
    let ghost all = words(sans@);
    let mut board = Board::startpos();
    let mut ucis: Vec<String> = Vec::new();
    let mut j: usize = 0;
    let mut done = false;
    proof {
        assert(all.skip(0) =~= all);
        assert(texts(ucis@) =~= Seq::<Seq<char>>::empty());
        assert(texts(ucis@) + compile_line(board@, all.skip(0)) =~= compile_line(board@, all));
    }
    while j < toks.len() && !done
        invariant
            j <= toks@.len(),
            holds_seqs(toks@, all),
            board.valid(),
            done ==> texts(ucis@) == compile_line(start_state(), all),
            !done ==> texts(ucis@) + compile_line(board@, all.skip(j as int)) == compile_line(
                start_state(),
                all,
            ),
        decreases toks@.len() - j + if done {
            0int
        } else {
            1int
        },
    {
        let ghost v = board@;
        let ghost rest = all.skip(j as int);
        assert(rest[0] == all[j as int]);
        assert(rest.drop_first() =~= all.skip(j + 1));
        match playable_move(&board, &toks[j]) {
            None => {
                proof {
                    lemma_compile_stop(v, rest);
                }
                assert(texts(ucis@) + compile_line(v, rest) =~= texts(ucis@));
                done = true;
            },
            Some(mv) => {
                let ghost before = texts(ucis@);
                ucis.push(mv.to_uci());
                assert(texts(ucis@) =~= before.push(uci_text(mv)));
                proof {
                    lemma_compile_step(v, rest, mv);
                }
                advance(&mut board, Ghost(rest[0]), mv);
                assert(texts(ucis@) + compile_line(board@, all.skip(j + 1)) =~= before
                    + compile_line(v, rest));
                j += 1;
            },
        }
    }
    proof {
        if !done {
            assert(all.skip(j as int) =~= Seq::<Seq<char>>::empty());
            lemma_compile_stop(board@, all.skip(j as int));
            assert(texts(ucis@) + Seq::<Seq<char>>::empty() =~= texts(ucis@));
        }
    }
    ucis
}

/// Compile the SAN lines into UCI sequences. A line stops at the first token
/// that names no playable legal move.
pub fn openings() -> (r: Vec<Opening>)
    ensures
        r@.len() == book_spec().len(),
        forall|i: int|
            0 <= i < r@.len() ==> (#[trigger] r@[i]).name@ == book_spec()[i].0 && texts(
                r@[i].ucis@,
            ) == book_spec()[i].1,
{
    let lines = book_lines();
    let mut out: Vec<Opening> = Vec::new();
    let mut i: usize = 0;
    while i < lines.len()
        invariant
            i <= lines@.len(),
            lines@.len() == book_table().len(),
            forall|k: int|
                0 <= k < lines@.len() ==> (#[trigger] lines@[k]).0@ == book_table()[k].0
                    && lines@[k].1@ == book_table()[k].1,
            out@.len() == i,
            forall|k: int|
                0 <= k < i ==> (#[trigger] out@[k]).name@ == book_spec()[k].0 && texts(
                    out@[k].ucis@,
                ) == book_spec()[k].1,
        decreases lines@.len() - i,
    {
        let (name, sans) = lines[i];
        let o = Opening { name: name.to_owned(), ucis: compile(sans) };
        out.push(o);
        i += 1;
    }
    out
}

/// The line `o` continues past the moves `ms`.
pub open spec fn continues(o: (Seq<char>, Seq<Seq<char>>), ms: Seq<Seq<char>>) -> bool {
    o.1.len() > ms.len() && prefix_of(ms, o.1)
}

/// The first line from index `k` on that continues past `ms`.
pub open spec fn find_line(book: Seq<(Seq<char>, Seq<Seq<char>>)>, ms: Seq<Seq<char>>, k: int) -> Option<int>
    decreases book.len() - k,
{
    if k < 0 || k >= book.len() {
        None
    } else if continues(book[k], ms) {
        Some(k)
    } else {
        find_line(book, ms, k + 1)
    }
}

/// Length of the common prefix of two move sequences.
pub open spec fn common_len(a: Seq<Seq<char>>, b: Seq<Seq<char>>) -> nat
    decreases a.len(),
{
    if a.len() == 0 || b.len() == 0 || a[0] != b[0] {
        0
    } else {
        1 + common_len(a.drop_first(), b.drop_first())
    }
}

/// The earliest line with the longest common prefix among the first `n`
/// lines, and that length.
pub open spec fn best_line(book: Seq<(Seq<char>, Seq<Seq<char>>)>, ms: Seq<Seq<char>>, n: int) -> (int, nat)
    decreases n,
{
    if n <= 1 {
        (0, common_len(book[0].1, ms))
    } else {
        let (b, c) = best_line(book, ms, n - 1);
        let cl = common_len(book[n - 1].1, ms);
        if cl > c {
            (n - 1, cl)
        } else {
            (b, c)
        }
    }
}

/// The opening named by the moves played: the best-matching line, once it
/// shares at least two moves with them.
pub open spec fn opening_name_spec(book: Seq<(Seq<char>, Seq<Seq<char>>)>, ms: Seq<Seq<char>>) -> Option<Seq<char>> {
    if book.len() == 0 {
        None
    } else {
        let (b, c) = best_line(book, ms, book.len() as int);
        if c >= 2 {
            Some(book[b].0)
        } else {
            None
        }
    }
}

/// `prefix` is the leading subsequence of `seq` (or equal).
fn is_prefix(prefix: &[String], seq: &[String]) -> (r: bool)
    ensures
        r == prefix_of(texts(prefix@), texts(seq@)),
{
    if seq.len() < prefix.len() {
        return false;
    }
    let mut i: usize = 0;
    while i < prefix.len()
        invariant
            i <= prefix@.len() <= seq@.len(),
            forall|j: int| 0 <= j < i ==> prefix@[j]@ == seq@[j]@,
        decreases prefix@.len() - i,
    {
        if prefix[i] != seq[i] {
            assert(texts(seq@).take(prefix@.len() as int)[i as int] != texts(prefix@)[i as int]);
            return false;
        }
        i += 1;
    }
    assert(texts(seq@).take(prefix@.len() as int) =~= texts(prefix@));
    true
}

/// Length of the common prefix of two move sequences.
fn common_prefix_len(a: &[String], b: &[String]) -> (r: usize)
    ensures
        r == common_len(texts(a@), texts(b@)),
{
    let mut k: usize = 0;
    assert(texts(a@).skip(0) =~= texts(a@));
    assert(texts(b@).skip(0) =~= texts(b@));
    while k < a.len() && k < b.len() && a[k] == b[k]
        invariant
            k <= a@.len(),
            k <= b@.len(),
            common_len(texts(a@), texts(b@)) == k + common_len(
                texts(a@).skip(k as int),
                texts(b@).skip(k as int),
            ),
        decreases a@.len() - k,
    {
        let ghost ta = texts(a@).skip(k as int);
        let ghost tb = texts(b@).skip(k as int);
        assert(ta.drop_first() =~= texts(a@).skip(k + 1));
        assert(tb.drop_first() =~= texts(b@).skip(k + 1));
        k += 1;
    }
    let ghost ta = texts(a@).skip(k as int);
    let ghost tb = texts(b@).skip(k as int);
    if k < a.len() && k < b.len() {
        assert(ta[0] != tb[0]);
    }
    k
}

/// The book lines as data.
pub open spec fn book_lines_of(book: Seq<Opening>) -> Seq<(Seq<char>, Seq<Seq<char>>)> {
    book.map_values(|o: Opening| (o.name@, texts(o.ucis@)))
}

/// The opponent's reply for the line played so far: the next move of the
/// earliest-listed opening that the game still follows. `None` once the game
/// has left the book.
pub fn book_reply(moves: &[String]) -> (r: Option<BookReply>)
    ensures
        match r {
            Some(b) => find_line(book_spec(), texts(moves@), 0) matches Some(i) && b.uci@
                == book_spec()[i].1[moves@.len() as int] && b.name@ == book_spec()[i].0,
            None => find_line(book_spec(), texts(moves@), 0) is None,
        },
{
    let book = openings();
    let ghost bs = book_spec();
    assert(book_lines_of(book@) =~= bs);
    let mut i: usize = 0;
    while i < book.len()
        invariant
            i <= book@.len(),
            book@.len() == bs.len(),
            bs == book_spec(),
            book_lines_of(book@) == bs,
            find_line(bs, texts(moves@), 0) == find_line(bs, texts(moves@), i as int),
        decreases book@.len() - i,
    {
        let o = &book[i];
        assert(bs[i as int] == (o.name@, texts(o.ucis@)));
        if o.ucis.len() > moves.len() && is_prefix(moves, o.ucis.as_slice()) {
            let uci = o.ucis[moves.len()].clone();
            let name = o.name.clone();
            return Some(BookReply { uci, name });
        }
        i += 1;
    }
    None
}

/// Whether playing `played` after `moves` keeps the game inside some book line
/// (i.e. the trainee found a theory move).
pub fn is_book_line(moves: &[String], played: &str) -> (r: bool)
    ensures
        r == exists|i: int|
            0 <= i < book_spec().len() && prefix_of(
                texts(moves@).push(played@),
                #[trigger] book_spec()[i].1,
            ),
{
    let mut seq: Vec<String> = Vec::new();
    let mut k: usize = 0;
    while k < moves.len()
        invariant
            k <= moves@.len(),
            seq@.len() == k,
            texts(seq@) == texts(moves@).take(k as int),
        decreases moves@.len() - k,
    {
        let ghost before = seq@;
        let item = moves[k].clone();
        seq.push(item);
        assert(seq@ == before.push(item));
        assert(item@ == moves@[k as int]@);
        assert forall|j: int| 0 <= j < k + 1 implies #[trigger] texts(seq@)[j] == texts(
            moves@,
        ).take(k + 1)[j] by {
            if j < k {
                assert(texts(before)[j] == texts(moves@).take(k as int)[j]);
                assert(seq@[j] == before[j]);
            } else {
                assert(seq@[j] == item);
                assert(texts(seq@)[j] == seq@[j]@);
                assert(texts(moves@)[j] == moves@[j]@);
            }
        }
        k += 1;
        assert(texts(seq@) =~= texts(moves@).take(k as int));
    }
    let ghost before = seq@;
    let last = played.to_owned();
    seq.push(last);
    assert(seq@ == before.push(last));
    assert(texts(moves@).take(moves@.len() as int) =~= texts(moves@));
    assert forall|j: int| 0 <= j < seq@.len() implies #[trigger] texts(seq@)[j] == texts(
        moves@,
    ).push(played@)[j] by {
        if j < moves@.len() {
            assert(texts(before)[j] == texts(moves@)[j]);
        }
    }
    assert(texts(seq@) =~= texts(moves@).push(played@));
    let book = openings();
    let ghost bs = book_spec();
    assert(book_lines_of(book@) =~= bs);
    let mut i: usize = 0;
    while i < book.len()
        invariant
            i <= book@.len(),
            book@.len() == bs.len(),
            bs == book_spec(),
            book_lines_of(book@) == bs,
            texts(seq@) == texts(moves@).push(played@),
            forall|j: int| 0 <= j < i ==> !prefix_of(texts(seq@), #[trigger] bs[j].1),
        decreases book@.len() - i,
    {
        let o = &book[i];
        assert(bs[i as int] == (o.name@, texts(o.ucis@)));
        if is_prefix(seq.as_slice(), o.ucis.as_slice()) {
            assert(prefix_of(texts(moves@).push(played@), book_spec()[i as int].1));
            return true;
        }
        i += 1;
    }
    false
}

/// The name of the opening best matching the moves played (by longest common
/// prefix). Returns `None` until at least two moves identify something — and
/// keeps naming the opening even a move or two after the trainee leaves book.
pub fn opening_name(moves: &[String]) -> (r: Option<String>)
    ensures
        match r {
            Some(n) => opening_name_spec(book_spec(), texts(moves@)) == Some(n@),
            None => opening_name_spec(book_spec(), texts(moves@)) is None,
        },
{
    let book = openings();
    let ghost bs = book_spec();
    let ghost ms = texts(moves@);
    assert(book_lines_of(book@) =~= bs);
    if book.len() == 0 {
        return None;
    }
    let mut best: usize = 0;
    let mut best_len: usize = common_prefix_len(book[0].ucis.as_slice(), moves);
    assert(bs[0] == (book@[0].name@, texts(book@[0].ucis@)));
    let mut i: usize = 1;
    while i < book.len()
        invariant
            1 <= i <= book@.len(),
            book@.len() == bs.len(),
            bs == book_spec(),
            ms == texts(moves@),
            book_lines_of(book@) == bs,
            best_line(bs, ms, i as int) == (best as int, best_len as nat),
            best < book@.len(),
        decreases book@.len() - i,
    {
        let o = &book[i];
        assert(bs[i as int] == (o.name@, texts(o.ucis@)));
        let cl = common_prefix_len(o.ucis.as_slice(), moves);
        if cl > best_len {
            best = i;
            best_len = cl;
        }
        i += 1;
    }
    if best_len >= 2 {
        assert(bs[best as int] == (book@[best as int].name@, texts(book@[best as int].ucis@)));
        Some(book[best].name.clone())
    } else {
        None
    }
}

} // verus!
