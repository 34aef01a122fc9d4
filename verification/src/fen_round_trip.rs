//! The FEN a position is written as reads back as the same position.
use crate::board::{BoardState, has_king, state_wf};
use crate::fen::{
    FenFault, all_digits, castle_char_bit, castle_letters, castling_field, castling_text, cell_run,
    dec_value, decimal, digit_of, digit_val, ep_field, ep_text, fen_placement, fen_spec, fen_text,
    gap_text, is_digit, parse_u16_spec, placement_text, rank_text, row_cells, row_ok,
    unsigned_digits,
};
use crate::text::{is_ws, sep_scan, split_on, words, ws_scan};
use crate::types::{Color, Piece, PieceType, piece_char, piece_of_char};
use vstd::prelude::*;

verus! {

/// The facts about the four castling bits the round trip rests on.
pub proof fn lemma_castle_bits(c: u8, a: u8, b: u8)
    by (bit_vector)
    ensures
        a < 16 && b < 16 ==> a | b < 16,
        c < 16 ==> (c & 1u8 == 0u8 || c & 1u8 == 1u8) && (c & 2u8 == 0u8 || c & 2u8 == 2u8) && (c
            & 4u8 == 0u8 || c & 4u8 == 4u8) && (c & 8u8 == 0u8 || c & 8u8 == 8u8),
        c < 16 ==> (((0u8 | (c & 1u8)) | (c & 2u8)) | (c & 4u8)) | (c & 8u8) == c,
        a | 0u8 == a,
        c < 16 && c != 0u8 ==> (c & 1u8 != 0u8 || c & 2u8 != 0u8 || c & 4u8 != 0u8 || c & 8u8
            != 0u8),
{
}

/// A piece letter reads back as its piece, and is neither a digit, nor
/// whitespace, nor a rank separator.
proof fn lemma_piece_char(p: Piece)
    ensures
        piece_of_char(piece_char(p)) == Some(p),
        !is_digit(piece_char(p)),
        !is_ws(piece_char(p)),
        piece_char(p) != '/',
{
}

/// No character of `t` is whitespace.
pub open spec fn no_ws(t: Seq<char>) -> bool {
    forall|i: int| 0 <= i < t.len() ==> !is_ws(#[trigger] t[i])
}

/// No character of `t` is a rank separator.
pub open spec fn no_slash(t: Seq<char>) -> bool {
    forall|i: int| 0 <= i < t.len() ==> #[trigger] t[i] != '/'
}

/// Scanning a word after a completed prefix leaves the word in progress.
proof fn lemma_ws_token(a: Seq<char>, t: Seq<char>)
    requires
        ws_scan(a).1.len() == 0,
        no_ws(t),
    ensures
        ws_scan(a + t) == (ws_scan(a).0, t),
    decreases t.len(),
{
    if t.len() == 0 {
        assert(a + t =~= a);
    } else {
        assert((a + t).drop_last() =~= a + t.drop_last());
        lemma_ws_token(a, t.drop_last());
        assert(t.drop_last().push(t.last()) =~= t);
    }
}

/// Scanning `a`, the word `t` and a space completes `t`.
proof fn lemma_ws_field(a: Seq<char>, t: Seq<char>)
    requires
        ws_scan(a).1.len() == 0,
        no_ws(t),
        t.len() > 0,
    ensures
        ws_scan((a + t).push(' ')) == (ws_scan(a).0.push(t), Seq::<char>::empty()),
{
    lemma_ws_token(a, t);
    assert((a + t).push(' ').drop_last() =~= a + t);
}

/// Scanning a piece without `/` after a completed prefix.
proof fn lemma_sep_token(a: Seq<char>, t: Seq<char>)
    requires
        sep_scan(a, '/').1.len() == 0,
        no_slash(t),
    ensures
        sep_scan(a + t, '/') == (sep_scan(a, '/').0, t),
    decreases t.len(),
{
    if t.len() == 0 {
        assert(a + t =~= a);
    } else {
        assert((a + t).drop_last() =~= a + t.drop_last());
        lemma_sep_token(a, t.drop_last());
        assert(t.drop_last().push(t.last()) =~= t);
    }
}

/// The placement characters of a rank: digits and piece letters.
pub open spec fn rank_chars_ok(t: Seq<char>) -> bool {
    forall|i: int|
        0 <= i < t.len() ==> (is_digit(#[trigger] t[i]) || exists|p: Piece| piece_char(p) == t[i])
}

/// The text of rank `r` from file `f`, with `e` empty squares pending.
proof fn lemma_rank_text(pl: Seq<Option<Piece>>, r: int, f: int, e: int)
    requires
        pl.len() == 64,
        0 <= r < 8,
        0 <= f <= 8,
        0 <= e <= f,
    ensures
        row_cells(rank_text(pl, r, f, e)) == Some(
            Seq::new(e as nat, |i: int| None::<Piece>) + pl.subrange(r * 8 + f, r * 8 + 8),
        ),
        rank_chars_ok(rank_text(pl, r, f, e)),
        rank_text(pl, r, f, e).len() > 0 || (f == 8 && e == 0),
    decreases 8 - f,
{
    let nones = Seq::new(e as nat, |i: int| None::<Piece>);
    if f >= 8 {
        assert(pl.subrange(r * 8 + f, r * 8 + 8) =~= Seq::<Option<Piece>>::empty());
        assert(row_cells(Seq::<char>::empty()) == Some(Seq::<Option<Piece>>::empty()));
        if e > 0 {
            let d = digit_of(e);
            assert(gap_text(e) == seq![d]);
            assert(seq![d].drop_last() =~= Seq::<char>::empty());
            assert(is_digit(d) && digit_val(d) == e);
            assert(cell_run(d) == Some(nones));
            assert(row_cells(seq![d]) == Some(Seq::<Option<Piece>>::empty() + nones));
            assert(Seq::<Option<Piece>>::empty() + nones =~= nones);
            assert(nones + Seq::<Option<Piece>>::empty() =~= nones);
        } else {
            assert(nones =~= Seq::<Option<Piece>>::empty());
            assert(nones + Seq::<Option<Piece>>::empty() =~= Seq::<Option<Piece>>::empty());
        }
    } else {
        match pl[r * 8 + f] {
            Some(p) => {
                lemma_rank_text(pl, r, f + 1, 0);
                lemma_piece_char(p);
                let g = gap_text(e);
                let rest = rank_text(pl, r, f + 1, 0);
                let c = piece_char(p);
                assert(row_cells(Seq::<char>::empty()) == Some(Seq::<Option<Piece>>::empty()));
                assert(row_cells(g) == Some(nones)) by {
                    if e > 0 {
                        let d = digit_of(e);
                        assert(g == seq![d]);
                        assert(is_digit(d) && digit_val(d) == e);
                        assert(seq![d].drop_last() =~= Seq::<char>::empty());
                        assert(cell_run(d) == Some(nones));
                        assert(Seq::<Option<Piece>>::empty() + nones =~= nones);
                    } else {
                        assert(nones =~= Seq::<Option<Piece>>::empty());
                    }
                }
                assert(row_cells(seq![c]) == Some(seq![Some(p)])) by {
                    assert(cell_run(c) == Some(seq![Some(p)]));
                    assert(seq![c].drop_last() =~= Seq::<char>::empty());
                    assert(Seq::<Option<Piece>>::empty() + seq![Some(p)] =~= seq![Some(p)]);
                }
                lemma_row_cells_concat(g, seq![c]);
                lemma_row_cells_concat(g + seq![c], rest);
                let tail = pl.subrange(r * 8 + f + 1, r * 8 + 8);
                assert(nones + seq![Some(p)] + tail =~= nones + pl.subrange(r * 8 + f, r * 8 + 8));
                assert forall|i: int| 0 <= i < rank_text(pl, r, f, e).len() implies (is_digit(
                    #[trigger] rank_text(pl, r, f, e)[i],
                ) || exists|q: Piece| piece_char(q) == rank_text(pl, r, f, e)[i]) by {
                    let t = rank_text(pl, r, f, e);
                    assert(t == g + seq![c] + rest);
                    if i < g.len() {
                        assert(t[i] == digit_of(e));
                    } else if i == g.len() {
                        assert(t[i] == c);
                    } else {
                        assert(t[i] == rest[i - g.len() - 1]);
                    }
                }
            },
            None => {
                lemma_rank_text(pl, r, f + 1, e + 1);
                assert(Seq::new((e + 1) as nat, |i: int| None::<Piece>) + pl.subrange(
                    r * 8 + f + 1,
                    r * 8 + 8,
                ) =~= nones + pl.subrange(r * 8 + f, r * 8 + 8));
            },
        }
    }
}

/// The cells of two placement texts in a row.
proof fn lemma_row_cells_concat(a: Seq<char>, b: Seq<char>)
    requires
        row_cells(a) is Some,
        row_cells(b) is Some,
    ensures
        row_cells(a + b) == Some(row_cells(a).unwrap() + row_cells(b).unwrap()),
    decreases b.len(),
{
    if b.len() == 0 {
        assert(a + b =~= a);
        assert(row_cells(a).unwrap() + Seq::<Option<Piece>>::empty() =~= row_cells(a).unwrap());
    } else {
        assert((a + b).drop_last() =~= a + b.drop_last());
        lemma_row_cells_concat(a, b.drop_last());
        let x = row_cells(a).unwrap();
        let y = row_cells(b.drop_last()).unwrap();
        let z = cell_run(b.last()).unwrap();
        assert(x + y + z =~= x + (y + z));
    }
}

/// The ranks of a placement from rank `k` down to rank 0.
pub open spec fn ranks_from(pl: Seq<Option<Piece>>, k: int) -> Seq<Seq<char>> {
    Seq::new((k + 1) as nat, |i: int| rank_text(pl, k - i, 0, 0))
}

/// Splitting the placement text at `/` gives its ranks.
proof fn lemma_placement_split(a: Seq<char>, pl: Seq<Option<Piece>>, k: int)
    requires
        pl.len() == 64,
        0 <= k < 8,
        sep_scan(a, '/').1.len() == 0,
    ensures
        sep_scan(a + placement_text(pl, k), '/') == (
            sep_scan(a, '/').0 + ranks_from(pl, k).drop_last(),
            rank_text(pl, 0, 0, 0),
        ),
    decreases k,
{
    let f = sep_scan(a, '/').0;
    lemma_rank_text(pl, k, 0, 0);
    let rk = rank_text(pl, k, 0, 0);
    assert(no_slash(rk)) by {
        assert forall|i: int| 0 <= i < rk.len() implies #[trigger] rk[i] != '/' by {
            if !is_digit(rk[i]) {
                let p = choose|p: Piece| piece_char(p) == rk[i];
                lemma_piece_char(p);
            }
        }
    }
    lemma_sep_token(a, rk);
    if k == 0 {
        assert(ranks_from(pl, 0).drop_last() =~= Seq::<Seq<char>>::empty());
        assert(f + Seq::<Seq<char>>::empty() =~= f);
    } else {
        let a2 = (a + rk).push('/');
        assert(a2.drop_last() =~= a + rk);
        assert(sep_scan(a2, '/') == (f.push(rk), Seq::<char>::empty()));
        lemma_placement_split(a2, pl, k - 1);
        assert(a + placement_text(pl, k) =~= a2 + placement_text(pl, k - 1));
        assert(f.push(rk) + ranks_from(pl, k - 1).drop_last() =~= f + ranks_from(
            pl,
            k,
        ).drop_last());
    }
}

/// A decimal numeral reads back as its number.
proof fn lemma_decimal(n: nat)
    ensures
        decimal(n).len() > 0,
        all_digits(decimal(n)),
        dec_value(decimal(n)) == n,
        no_ws(decimal(n)),
    decreases n,
{
    if n >= 10 {
        lemma_decimal(n / 10);
        let d = decimal(n / 10);
        let k = digit_of((n % 10) as int);
        assert(decimal(n) == d.push(k));
        assert(decimal(n).drop_last() =~= d);
        assert(decimal(n).last() == k);
        assert(digit_val(k) == n % 10);
        assert(dec_value(decimal(n)) == dec_value(d) * 10 + digit_val(k));
        assert(forall|i: int| 0 <= i < d.len() ==> decimal(n)[i] == d[i]);
        assert((n / 10) * 10 + n % 10 == n) by (nonlinear_arith);
        assert(dec_value(d) == n / 10);
    } else {
        let k = digit_of(n as int);
        assert(seq![k].drop_last() =~= Seq::<char>::empty());
        assert(dec_value(Seq::<char>::empty()) == 0);
        assert(digit_val(k) == n);
        assert(dec_value(seq![k]) == dec_value(Seq::<char>::empty()) * 10 + digit_val(k));
    }
}

/// A clock written in decimal parses back.
proof fn lemma_clock(n: int)
    requires
        0 <= n < 65536,
    ensures
        parse_u16_spec(decimal(n as nat)) == Some(n as u16),
        decimal(n as nat).len() > 0,
        no_ws(decimal(n as nat)),
{
    lemma_decimal(n as nat);
    let d = decimal(n as nat);
    assert(is_digit(d[0]));
    assert(unsigned_digits(d) == d);
}

/// The castling text reads back as the castling rights.
proof fn lemma_castling(c: u8)
    requires
        c < 16,
    ensures
        castling_field(castling_text(c)) == Some(c),
        castling_text(c).len() > 0,
        no_ws(castling_text(c)),
{
    lemma_castle_bits(c, 0, 0);
    if c != 0 {
        let t1: Seq<char> = if c & 1 != 0 {
            seq!['K']
        } else {
            Seq::empty()
        };
        let t2: Seq<char> = if c & 2 != 0 {
            seq!['Q']
        } else {
            Seq::empty()
        };
        let t4: Seq<char> = if c & 4 != 0 {
            seq!['k']
        } else {
            Seq::empty()
        };
        let t8: Seq<char> = if c & 8 != 0 {
            seq!['q']
        } else {
            Seq::empty()
        };
        let l1 = 0u8 | (c & 1u8);
        let l2 = l1 | (c & 2u8);
        let l4 = l2 | (c & 4u8);
        let l8 = l4 | (c & 8u8);
        lemma_castle_bits(c, 0u8, 0u8);
        lemma_castle_bits(c, l1, 0u8);
        lemma_castle_bits(c, l2, 0u8);
        lemma_castle_bits(c, l4, 0u8);
        assert(castle_letters(Seq::<char>::empty()) == Some(0u8));
        assert(castle_letters(t1) == Some(l1)) by {
            if c & 1 != 0 {
                assert(castle_char_bit('K') == Some(1u8));
                assert(t1.drop_last() =~= Seq::<char>::empty());
            } else {
                assert(0u8 | 0u8 == 0u8) by {
                    lemma_castle_bits(c, 0u8, 0u8);
                }
            }
        }
        assert(castle_letters(t1 + t2) == Some(l2)) by {
            if c & 2 != 0 {
                assert((t1 + t2).drop_last() =~= t1);
            } else {
                assert(t1 + t2 =~= t1);
            }
        }
        assert(castle_letters(t1 + t2 + t4) == Some(l4)) by {
            if c & 4 != 0 {
                assert((t1 + t2 + t4).drop_last() =~= t1 + t2);
            } else {
                assert(t1 + t2 + t4 =~= t1 + t2);
            }
        }
        assert(castle_letters(t1 + t2 + t4 + t8) == Some(l8)) by {
            if c & 8 != 0 {
                assert((t1 + t2 + t4 + t8).drop_last() =~= t1 + t2 + t4);
            } else {
                assert(t1 + t2 + t4 + t8 =~= t1 + t2 + t4);
            }
        }
        let t = castling_text(c);
        assert(t == t1 + t2 + t4 + t8);
        assert(t.len() > 0);
        assert(t != seq!['-']) by {
            if t == seq!['-'] {
                assert(t[0] == '-');
                assert(t[0] == 'K' || t[0] == 'Q' || t[0] == 'k' || t[0] == 'q');
            }
        }
        assert forall|i: int| 0 <= i < t.len() implies !is_ws(#[trigger] t[i]) by {
            assert(t[i] == 'K' || t[i] == 'Q' || t[i] == 'k' || t[i] == 'q');
        }
    }
}

/// The en-passant text reads back as the target.
proof fn lemma_ep(ep: Option<int>)
    requires
        ep matches Some(e) ==> 0 <= e < 64,
    ensures
        ep_field(ep_text(ep)) == Some(ep),
        ep_text(ep).len() > 0,
        no_ws(ep_text(ep)),
{
    match ep {
        Some(e) => {
            let t = ep_text(ep);
            assert(t.len() == 2);
            assert(t != seq!['-']);
            assert(((t[1] as u32) - 49) * 8 + ((t[0] as u32) - 97) == e);
        },
        None => {},
    }
}

/// The placement text splits into eight well-formed ranks that read back as
/// the placement.
proof fn lemma_placement(pl: Seq<Option<Piece>>)
    requires
        pl.len() == 64,
    ensures
        split_on(placement_text(pl, 7), '/').len() == 8,
        forall|i: int| 0 <= i < 8 ==> #[trigger] row_ok(split_on(placement_text(pl, 7), '/')[i]),
        fen_placement(split_on(placement_text(pl, 7), '/')) == pl,
        placement_text(pl, 7).len() > 0,
        no_ws(placement_text(pl, 7)),
{
    let e = Seq::<char>::empty();
    assert(e + placement_text(pl, 7) =~= placement_text(pl, 7));
    lemma_placement_split(e, pl, 7);
    let rows = split_on(placement_text(pl, 7), '/');
    assert(rows =~= ranks_from(pl, 7)) by {
        assert(ranks_from(pl, 7).drop_last().push(rank_text(pl, 0, 0, 0)) =~= ranks_from(pl, 7));
        assert(Seq::<Seq<char>>::empty() + ranks_from(pl, 7).drop_last() =~= ranks_from(
            pl,
            7,
        ).drop_last());
    }
    assert forall|i: int| 0 <= i < 8 implies #[trigger] row_ok(rows[i]) by {
        lemma_rank_text(pl, 7 - i, 0, 0);
    }
    assert(fen_placement(rows) =~= pl) by {
        assert forall|s: int| 0 <= s < 64 implies #[trigger] fen_placement(rows)[s] == pl[s] by {
            lemma_rank_text(pl, s / 8, 0, 0);
            assert(rows[7 - s / 8] == rank_text(pl, s / 8, 0, 0));
        }
    }
    lemma_placement_chars(pl, 7);
}

/// The placement text from rank `k` down: not empty, no whitespace.
proof fn lemma_placement_chars(pl: Seq<Option<Piece>>, k: int)
    requires
        pl.len() == 64,
        0 <= k < 8,
    ensures
        placement_text(pl, k).len() > 0,
        no_ws(placement_text(pl, k)),
    decreases k,
{
    lemma_rank_text(pl, k, 0, 0);
    let rk = rank_text(pl, k, 0, 0);
    assert(no_ws(rk)) by {
        assert forall|i: int| 0 <= i < rk.len() implies !is_ws(#[trigger] rk[i]) by {
            if !is_digit(rk[i]) {
                let p = choose|p: Piece| piece_char(p) == rk[i];
                lemma_piece_char(p);
            }
        }
    }
    if k > 0 {
        lemma_placement_chars(pl, k - 1);
        let t = placement_text(pl, k);
        let rest = placement_text(pl, k - 1);
        assert forall|i: int| 0 <= i < t.len() implies !is_ws(#[trigger] t[i]) by {
            if i < rk.len() {
                assert(t[i] == rk[i]);
            } else if i == rk.len() {
                assert(t[i] == '/');
            } else {
                assert(t[i] == rest[i - rk.len() - 1]);
            }
        }
    }
}

/// The six fields of a FEN, separated by single spaces.
pub open spec fn fen_fields(v: BoardState) -> Seq<Seq<char>> {
    seq![
        placement_text(v.placement, 7),
        seq![
            if v.side == Color::White {
                'w'
            } else {
                'b'
            },
        ],
        castling_text(v.castling),
        ep_text(v.ep),
        decimal(v.halfmove as nat),
        decimal(v.fullmove as nat),
    ]
}

/// The FEN of a position splits into its six fields.
proof fn lemma_fen_words(v: BoardState)
    requires
        state_wf(v),
    ensures
        words(fen_text(v)) == fen_fields(v),
{
    let fs = fen_fields(v);
    lemma_placement(v.placement);
    lemma_castling(v.castling);
    lemma_ep(v.ep);
    lemma_clock(v.halfmove);
    lemma_clock(v.fullmove);
    assert(no_ws(fs[1]));
    let e = Seq::<char>::empty();
    let a1 = (e + fs[0]).push(' ');
    let a2 = (a1 + fs[1]).push(' ');
    let a3 = (a2 + fs[2]).push(' ');
    let a4 = (a3 + fs[3]).push(' ');
    let a5 = (a4 + fs[4]).push(' ');
    lemma_ws_field(e, fs[0]);
    lemma_ws_field(a1, fs[1]);
    lemma_ws_field(a2, fs[2]);
    lemma_ws_field(a3, fs[3]);
    lemma_ws_field(a4, fs[4]);
    lemma_ws_token(a5, fs[5]);
    assert(a5 + fs[5] =~= fen_text(v));
    assert(Seq::<Seq<char>>::empty().push(fs[0]).push(fs[1]).push(fs[2]).push(fs[3]).push(
        fs[4],
    ).push(fs[5]) =~= fs);
}

/// Reading back the FEN a position is written as gives the position: for
/// every well-formed position with both kings, `fen_spec(fen_text(v))` is
/// `Ok(v)`.
pub proof fn lemma_fen_round_trip(v: BoardState)
    requires
        state_wf(v),
        has_king(v, Color::White),
        has_king(v, Color::Black),
    ensures
        fen_spec(fen_text(v)) == Ok::<BoardState, FenFault>(v),
{
    lemma_fen_words(v);
    lemma_placement(v.placement);
    lemma_castling(v.castling);
    lemma_ep(v.ep);
    lemma_clock(v.halfmove);
    lemma_clock(v.fullmove);
    let w = words(fen_text(v));
    assert(w.len() == 6);
    let rows = split_on(w[0], '/');
    let v2 = BoardState {
        placement: fen_placement(rows),
        side: if w[1] == seq!['w'] {
            Color::White
        } else {
            Color::Black
        },
        castling: castling_field(w[2]).unwrap(),
        ep: ep_field(w[3]).unwrap(),
        halfmove: parse_u16_spec(w[4]).unwrap() as int,
        fullmove: parse_u16_spec(w[5]).unwrap() as int,
    };
    assert(w[1] == seq!['w'] || w[1] == seq!['b']);
    assert(v.side == Color::White ==> w[1] == seq!['w']);
    assert(v.side == Color::Black ==> w[1] != seq!['w']) by {
        if v.side == Color::Black {
            assert(w[1][0] == 'b');
            assert(seq!['w'][0] == 'w');
        }
    }
    assert(v2 == v);
}

} // verus!
