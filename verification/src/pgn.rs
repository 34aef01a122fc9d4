//! Reading the first game of a PGN text: its optional FEN tag and its
//! cleaned SAN tokens. Tag pairs, `{...}` comments (over several lines),
//! `(...)` variations (nested), `;` line comments, `%` escape lines, NAGs,
//! move numbers and results are dropped.
use crate::book::texts;
use crate::text::{chars_of, holds_seqs, is_whitespace, is_ws, split_char, split_on, split_words, string_of, words};
use crate::web::{clean_token, clean_token_spec};
use vstd::prelude::*;

verus! {

/// A line without the carriage return of a `\r\n` ending.
pub open spec fn strip_cr(l: Seq<char>) -> Seq<char> {
    if l.len() > 0 && l.last() == '\r' {
        l.drop_last()
    } else {
        l
    }
}

/// The lines of a text, as `str::lines` yields them: split at `\n` or
/// `\r\n`, the last line ending being optional.
pub open spec fn text_lines(cs: Seq<char>) -> Seq<Seq<char>> {
    let pieces = split_on(cs, '\n');
    let n: int = if pieces.last().len() == 0 {
        pieces.len() - 1
    } else {
        pieces.len() as int
    };
    Seq::new(
        n as nat,
        |i: int|
            if i < pieces.len() - 1 {
                strip_cr(pieces[i])
            } else {
                pieces[i]
            },
    )
}

/// `cs` without its leading whitespace.
pub open spec fn skip_ws(cs: Seq<char>) -> Seq<char>
    decreases cs.len(),
{
    if cs.len() > 0 && is_ws(cs[0]) {
        skip_ws(cs.drop_first())
    } else {
        cs
    }
}

/// The index of the first `"` of `cs` at or after `k`.
pub open spec fn quote_from(cs: Seq<char>, k: int) -> Option<int>
    decreases cs.len() - k,
{
    if k < 0 || k >= cs.len() {
        None
    } else if cs[k] == '"' {
        Some(k)
    } else {
        quote_from(cs, k + 1)
    }
}

/// The index of the last `"` of `cs` at or before `k`.
pub open spec fn quote_back(cs: Seq<char>, k: int) -> Option<int>
    decreases k + 1,
{
    if k < 0 || k >= cs.len() {
        None
    } else if cs[k] == '"' {
        Some(k)
    } else {
        quote_back(cs, k - 1)
    }
}

/// The value of a `[FEN "..."]` tag line: the text between the first and
/// the last double quote after `[FEN`.
pub open spec fn fen_tag(t: Seq<char>) -> Option<Seq<char>> {
    if t.len() >= 4 && t.take(4) == "[FEN"@ {
        let rest = t.skip(4);
        match (quote_from(rest, 0), quote_back(rest, rest.len() - 1)) {
            (Some(first), Some(last)) => if last > first {
                Some(rest.subrange(first + 1, last))
            } else {
                None
            },
            _ => None,
        }
    } else {
        None
    }
}

/// The depth of `{...}` comments after a `{`: one more, held at the
/// largest count a text can reach.
pub open spec fn deeper(b: int) -> int {
    if b < usize::MAX {
        b + 1
    } else {
        b
    }
}

/// The characters of one line, from comment depth `b0` with moves seen
/// `s0`: the depth and seen flag after it, the movetext it adds, and whether
/// a `;` cut it short.
pub open spec fn line_chars(b0: int, s0: bool, cs: Seq<char>) -> (int, bool, Seq<char>, bool)
    decreases cs.len(),
{
    if cs.len() == 0 {
        (b0, s0, Seq::empty(), false)
    } else {
        let (b, s, out, cut) = line_chars(b0, s0, cs.drop_last());
        let c = cs.last();
        if cut {
            (b, s, out, cut)
        } else if c == '{' {
            (deeper(b), s, out, false)
        } else if c == '}' {
            (if b > 0 {
                b - 1
            } else {
                0
            }, s, out, false)
        } else if c == ';' && b == 0 {
            (b, s, out.push(' '), true)
        } else if b == 0 {
            (b, s || !is_ws(c), out.push(c), false)
        } else {
            (b, s, out, false)
        }
    }
}

/// What the reader has gathered: the FEN tag, the movetext, whether a move
/// has been seen, the comment depth, and whether the next game began.
pub struct PgnScan {
    pub fen: Option<Seq<char>>,
    pub text: Seq<char>,
    pub seen: bool,
    pub brace: int,
    pub done: bool,
}

/// Reading one more line.
pub open spec fn scan_line(st: PgnScan, raw: Seq<char>) -> PgnScan {
    let t = skip_ws(raw);
    if st.done {
        st
    } else if st.brace == 0 && t.len() > 0 && t[0] == '%' {
        st
    } else if st.brace == 0 && t.len() > 0 && t[0] == '[' {
        if st.seen {
            PgnScan { done: true, ..st }
        } else {
            PgnScan {
                fen: match fen_tag(t) {
                    Some(f) => Some(f),
                    None => st.fen,
                },
                ..st
            }
        }
    } else {
        let (b, s, out, cut) = line_chars(st.brace, st.seen, raw);
        PgnScan {
            text: st.text + out + if cut {
                Seq::empty()
            } else {
                seq![' ']
            },
            seen: s,
            brace: b,
            ..st
        }
    }
}

/// Reading the lines in order.
pub open spec fn pgn_scan(lines: Seq<Seq<char>>) -> PgnScan
    decreases lines.len(),
{
    if lines.len() == 0 {
        PgnScan { fen: None, text: Seq::empty(), seen: false, brace: 0, done: false }
    } else {
        scan_line(pgn_scan(lines.drop_last()), lines.last())
    }
}

/// The movetext without `(...)` variations: the depth and the kept text.
pub open spec fn strip_vars(cs: Seq<char>) -> (int, Seq<char>)
    decreases cs.len(),
{
    if cs.len() == 0 {
        (0, Seq::empty())
    } else {
        let (d, out) = strip_vars(cs.drop_last());
        let c = cs.last();
        if c == '(' {
            (deeper(d), out)
        } else if c == ')' {
            (if d > 0 {
                d - 1
            } else {
                0
            }, out)
        } else if d == 0 {
            (d, out.push(c))
        } else {
            (d, out)
        }
    }
}

/// The SAN moves among movetext words.
pub open spec fn clean_all(ws: Seq<Seq<char>>) -> Seq<Seq<char>>
    decreases ws.len(),
{
    if ws.len() == 0 {
        Seq::empty()
    } else {
        let rest = clean_all(ws.drop_last());
        match clean_token_spec(ws.last()) {
            Some(t) => rest.push(t),
            None => rest,
        }
    }
}

/// The first game of a PGN text: its FEN tag and its SAN tokens.
pub open spec fn pgn_game(cs: Seq<char>) -> (Option<Seq<char>>, Seq<Seq<char>>) {
    let st = pgn_scan(text_lines(cs));
    (st.fen, clean_all(words(strip_vars(st.text).1)))
}

/// The lines of a text.
fn split_lines(cs: &Vec<char>) -> (r: Vec<Vec<char>>)
    ensures
        holds_seqs(r@, text_lines(cs@)),
{
    let pieces = split_char(cs, '\n');
    let ghost ps = split_on(cs@, '\n');
    let total = pieces.len();
    let n = if pieces[total - 1].len() == 0 {
        total - 1
    } else {
        total
    };
    let mut out: Vec<Vec<char>> = Vec::new();
    let mut i: usize = 0;
    while i < n
        invariant
            i <= n <= total,
            ps == split_on(cs@, '\n'),
            total == ps.len(),
            holds_seqs(pieces@, ps),
            n == text_lines(cs@).len(),
            holds_seqs(out@, text_lines(cs@).take(i as int)),
        decreases n - i,
    {
        let p = &pieces[i];
        let line: Vec<char> = if i + 1 < total && p.len() > 0 && p[p.len() - 1] == '\r' {
            let mut l: Vec<char> = Vec::new();
            let mut j: usize = 0;
            let m = p.len() - 1;
            while j < m
                invariant
                    j <= m,
                    m + 1 == p@.len(),
                    l@ == p@.take(j as int),
                decreases p@.len() - j,
            {
                l.push(p[j]);
                j += 1;
                assert(l@ =~= p@.take(j as int));
            }
            assert(l@ =~= p@.drop_last());
            l
        } else {
            let mut l: Vec<char> = Vec::new();
            let mut j: usize = 0;
            while j < p.len()
                invariant
                    j <= p@.len(),
                    l@ == p@.take(j as int),
                decreases p@.len() - j,
            {
                l.push(p[j]);
                j += 1;
                assert(l@ =~= p@.take(j as int));
            }
            assert(l@ =~= p@);
            l
        };
        proof {
            assert(p@ == ps[i as int]);
            assert(text_lines(cs@)[i as int] == if i < ps.len() - 1 {
                strip_cr(ps[i as int])
            } else {
                ps[i as int]
            });
            assert(line@ == text_lines(cs@)[i as int]);
        }
        out.push(line);
        i += 1;
        proof {
            assert(text_lines(cs@).take(i as int) =~= text_lines(cs@).take(i - 1).push(
                text_lines(cs@)[i - 1],
            ));
        }
    }
    assert(text_lines(cs@).take(n as int) =~= text_lines(cs@));
    out
}

/// `cs` without its leading whitespace.
fn skip_leading_ws(cs: &Vec<char>) -> (r: Vec<char>)
    ensures
        r@ == skip_ws(cs@),
{
    let mut a: usize = 0;
    assert(cs@.subrange(0, cs@.len() as int) =~= cs@);
    while a < cs.len() && is_whitespace(cs[a])
        invariant
            a <= cs@.len(),
            skip_ws(cs@) == skip_ws(cs@.subrange(a as int, cs@.len() as int)),
        decreases cs@.len() - a,
    {
        assert(cs@.subrange(a as int, cs@.len() as int).drop_first() =~= cs@.subrange(
            a + 1,
            cs@.len() as int,
        ));
        a += 1;
    }
    let mut out: Vec<char> = Vec::new();
    let mut i: usize = a;
    while i < cs.len()
        invariant
            a <= i <= cs@.len(),
            out@ == cs@.subrange(a as int, i as int),
        decreases cs@.len() - i,
    {
        out.push(cs[i]);
        i += 1;
        assert(out@ =~= cs@.subrange(a as int, i as int));
    }
    out
}

/// The value of a FEN tag line, if it is one.
fn read_fen_tag(t: &Vec<char>) -> (r: Option<Vec<char>>)
    ensures
        match r {
            Some(f) => fen_tag(t@) == Some(f@),
            None => fen_tag(t@) is None,
        },
{
    proof {
        reveal_strlit("[FEN");
    }
    if !(t.len() >= 4 && t[0] == '[' && t[1] == 'F' && t[2] == 'E' && t[3] == 'N') {
        proof {
            if t@.len() >= 4 && t@.take(4) == "[FEN"@ {
                assert(t@[0] == t@.take(4)[0]);
                assert(t@[1] == t@.take(4)[1]);
                assert(t@[2] == t@.take(4)[2]);
                assert(t@[3] == t@.take(4)[3]);
            }
        }
        return None;
    }
    assert(t@.take(4) =~= "[FEN"@);
    let ghost rest = t@.skip(4);
    let n = t.len();
    let mut first: usize = 4;
    while first < n && t[first] != '"'
        invariant
            4 <= first <= n,
            n == t@.len(),
            rest == t@.skip(4),
            quote_from(rest, 0) == quote_from(rest, first - 4),
        decreases n - first,
    {
        first += 1;
    }
    if first == n {
        return None;
    }
    let mut last: usize = n - 1;
    while last > first && t[last] != '"'
        invariant
            first < n,
            first <= last < n,
            n == t@.len(),
            rest == t@.skip(4),
            quote_back(rest, rest.len() - 1) == quote_back(rest, last - 4),
        decreases last,
    {
        last -= 1;
    }
    if last == first {
        proof {
            assert(quote_back(rest, last - 4) == Some((first - 4) as int));
        }
        return None;
    }
    let mut out: Vec<char> = Vec::new();
    let mut i: usize = first + 1;
    while i < last
        invariant
            first < i <= last < n,
            n == t@.len(),
            out@ == t@.subrange(first + 1, i as int),
        decreases last - i,
    {
        out.push(t[i]);
        i += 1;
        assert(out@ =~= t@.subrange(first + 1, i as int));
    }
    proof {
        assert(rest.subrange(first - 3, last - 4) =~= t@.subrange(first + 1, last as int));
    }
    Some(out)
}

/// Read one line's characters into the movetext.
fn scan_chars(
    raw: &Vec<char>,
    brace: &mut usize,
    seen: &mut bool,
    movetext: &mut Vec<char>,
) -> (cut: bool)
    ensures
        ({
            let (b, s, out, c) = line_chars(*old(brace) as int, *old(seen), raw@);
            &&& *final(brace) == b
            &&& *final(seen) == s
            &&& final(movetext)@ == old(movetext)@ + out
            &&& cut == c
        }),
{
    let ghost b0 = *brace as int;
    let ghost s0 = *seen;
    let ghost m0 = movetext@;
    let mut i: usize = 0;
    proof {
        assert(raw@.take(0) =~= Seq::<char>::empty());
        assert(m0 + Seq::<char>::empty() =~= m0);
    }
    while i < raw.len()
        invariant
            i <= raw@.len(),
            b0 == *old(brace) as int,
            s0 == *old(seen),
            m0 == old(movetext)@,
            ({
                let (b, s, out, c) = line_chars(b0, s0, raw@.take(i as int));
                &&& *brace == b
                &&& *seen == s
                &&& movetext@ == m0 + out
                &&& !c
            }),
        decreases raw@.len() - i,
    {
        let c = raw[i];
        let ghost before = movetext@;
        proof {
            assert(raw@.take(i + 1).drop_last() =~= raw@.take(i as int));
        }
        if c == '{' {
            if *brace < usize::MAX {
                *brace = *brace + 1;
            }
        } else if c == '}' {
            if *brace > 0 {
                *brace = *brace - 1;
            }
        } else if c == ';' && *brace == 0 {
            movetext.push(' ');
            proof {
                let (b, s, out, cc) = line_chars(b0, s0, raw@.take(i as int));
                assert(raw@.take(i + 1).last() == c);
                assert(line_chars(b0, s0, raw@.take(i + 1)) == (b, s, out.push(' '), true));
                assert(movetext@ =~= m0 + out.push(' '));
                lemma_cut_stays(b0, s0, raw@, i as int + 1);
                assert(raw@.take(raw@.len() as int) =~= raw@);
            }
            return true;
        } else if *brace == 0 {
            if !is_whitespace(c) {
                *seen = true;
            }
            movetext.push(c);
            proof {
                let (b, s, out, cc) = line_chars(b0, s0, raw@.take(i as int));
                assert(movetext@ =~= m0 + out.push(c));
            }
        }
        i += 1;
    }
    proof {
        assert(raw@.take(raw@.len() as int) =~= raw@);
    }
    false
}

/// Once a `;` cut a line, its remaining characters change nothing.
proof fn lemma_cut_stays(b0: int, s0: bool, cs: Seq<char>, k: int)
    requires
        0 <= k <= cs.len(),
        line_chars(b0, s0, cs.take(k)).3,
    ensures
        line_chars(b0, s0, cs) == line_chars(b0, s0, cs.take(k)),
    decreases cs.len() - k,
{
    if k < cs.len() {
        assert(cs.take(k + 1).drop_last() =~= cs.take(k));
        lemma_cut_stays(b0, s0, cs, k + 1);
    } else {
        assert(cs.take(k) =~= cs);
    }
}

/// The movetext without its variations.
fn strip_variations(cs: &Vec<char>) -> (r: Vec<char>)
    ensures
        r@ == strip_vars(cs@).1,
{
    let mut depth: usize = 0;
    let mut out: Vec<char> = Vec::new();
    let mut i: usize = 0;
    while i < cs.len()
        invariant
            i <= cs@.len(),
            strip_vars(cs@.take(i as int)) == (depth as int, out@),
        decreases cs@.len() - i,
    {
        let c = cs[i];
        proof {
            assert(cs@.take(i + 1).drop_last() =~= cs@.take(i as int));
        }
        if c == '(' {
            if depth < usize::MAX {
                depth = depth + 1;
            }
        } else if c == ')' {
            if depth > 0 {
                depth = depth - 1;
            }
        } else if depth == 0 {
            out.push(c);
        }
        i += 1;
    }
    assert(cs@.take(cs@.len() as int) =~= cs@);
    out
}

/// First game of a PGN: optional FEN tag and cleaned SAN tokens.
pub fn parse_pgn_game(text: &str) -> (r: (Option<String>, Vec<String>))
    ensures
        (match r.0 {
            Some(f) => Some(f@),
            None => None,
        }, texts(r.1@)) == pgn_game(text@),
{
    let lines = split_lines(&chars_of(text));
    let ghost ls = text_lines(text@);
    let mut fen: Option<Vec<char>> = None;
    let mut movetext: Vec<char> = Vec::new();
    let mut seen = false;
    let mut brace: usize = 0;
    let mut k: usize = 0;
    let mut done = false;
    proof {
        assert(ls.take(0) =~= Seq::<Seq<char>>::empty());
    }
    while !done && k < lines.len()
        invariant
            k <= lines@.len(),
            holds_seqs(lines@, ls),
            ({
                let st = pgn_scan(ls.take(k as int));
                &&& st.fen == match fen {
                    Some(f) => Some(f@),
                    None => None::<Seq<char>>,
                }
                &&& st.text == movetext@
                &&& st.seen == seen
                &&& st.brace == brace
                &&& st.done == done
            }),
        decreases lines@.len() - k,
    {
        let raw = &lines[k];
        proof {
            assert(ls.take(k + 1).drop_last() =~= ls.take(k as int));
            assert(raw@ == ls[k as int]);
        }
        let t = skip_leading_ws(raw);
        if brace == 0 && t.len() > 0 && t[0] == '%' {
        } else if brace == 0 && t.len() > 0 && t[0] == '[' {
            if seen {
                done = true;
            } else {
                match read_fen_tag(&t) {
                    Some(f) => {
                        fen = Some(f);
                    },
                    None => {},
                }
            }
        } else {
            let cut = scan_chars(raw, &mut brace, &mut seen, &mut movetext);
            if !cut {
                movetext.push(' ');
            }
            proof {
                let st = pgn_scan(ls.take(k as int));
                let (b, s, out, c) = line_chars(st.brace, st.seen, raw@);
                assert(movetext@ =~= st.text + out + if c {
                    Seq::<char>::empty()
                } else {
                    seq![' ']
                });
            }
        }
        k += 1;
    }
    proof {
        if done {
            lemma_scan_done(ls, k as int);
        } else {
            assert(ls.take(lines@.len() as int) =~= ls);
        }
    }
    let cleaned = strip_variations(&movetext);
    let ws = split_words(&cleaned);
    let mut tokens: Vec<String> = Vec::new();
    let ghost wsv = words(cleaned@);
    let mut i: usize = 0;
    proof {
        assert(wsv.take(0) =~= Seq::<Seq<char>>::empty());
    }
    while i < ws.len()
        invariant
            i <= ws@.len(),
            holds_seqs(ws@, wsv),
            texts(tokens@) == clean_all(wsv.take(i as int)),
        decreases ws@.len() - i,
    {
        let w = string_of(&ws[i]);
        proof {
            assert(wsv.take(i + 1).drop_last() =~= wsv.take(i as int));
            assert(w@ == wsv[i as int]);
        }
        match clean_token(w.as_str()) {
            Some(t) => {
                let ghost before = tokens@;
                let ghost tv = t@;
                tokens.push(t);
                assert(texts(tokens@) =~= texts(before).push(tv));
            },
            None => {},
        }
        i += 1;
    }
    proof {
        assert(wsv.take(ws@.len() as int) =~= wsv);
    }
    let f = match fen {
        Some(f) => Some(string_of(&f)),
        None => None,
    };
    (f, tokens)
}

/// Once the next game begins, later lines change nothing.
proof fn lemma_scan_done(ls: Seq<Seq<char>>, k: int)
    requires
        0 <= k <= ls.len(),
        pgn_scan(ls.take(k)).done,
    ensures
        pgn_scan(ls) == pgn_scan(ls.take(k)),
    decreases ls.len() - k,
{
    if k < ls.len() {
        assert(ls.take(k + 1).drop_last() =~= ls.take(k));
        lemma_scan_done(ls, k + 1);
    } else {
        assert(ls.take(k) =~= ls);
    }
}

} // verus!
