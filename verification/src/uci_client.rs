//! The text side of driving an external UCI engine: reading its `info`
//! lines and describing a `go` command's limits.
use crate::book::texts;
use crate::text::{chars_of, parse_int, parse_int_spec, same_chars, split_words, string_of, words};
use vstd::prelude::*;

verus! {

/// One parsed `info ... pv ...` line.
#[derive(Debug, Default, Clone, PartialEq)]
pub struct UciInfo {
    pub depth: i32,
    pub seldepth: i32,
    pub multipv: usize,
    /// Score from the engine's (side-to-move) perspective.
    pub cp: Option<i32>,
    pub mate: Option<i32>,
    pub nodes: u64,
    pub nps: u64,
    pub time_ms: u64,
    pub pv: Vec<String>,
}

/// What a `go` should be bounded by (all optional = infinite).
pub struct GoParams {
    pub multipv: usize,
    /// `0` = none.
    pub movetime: u64,
    /// `0` = none.
    pub depth: i32,
}

/// The content of an `info` line read so far.
pub struct InfoView {
    pub depth: int,
    pub seldepth: int,
    pub multipv: int,
    pub cp: Option<int>,
    pub mate: Option<int>,
    pub nodes: int,
    pub nps: int,
    pub time_ms: int,
    pub pv: Seq<Seq<char>>,
    pub has_pv: bool,
}

/// An `i32` token.
pub open spec fn int32(t: Seq<char>) -> Option<int> {
    parse_int_spec(t, true, -0x8000_0000, 0x7fff_ffff)
}

/// A `u64` token.
pub open spec fn nat64(t: Seq<char>) -> Option<int> {
    parse_int_spec(t, false, 0, 0xffff_ffff_ffff_ffff)
}

/// A `usize` token.
pub open spec fn natsize(t: Seq<char>) -> Option<int> {
    parse_int_spec(t, false, 0, usize::MAX as int)
}

/// The optional value after a keyword: the parsed next token (consumed even
/// when malformed, then `default`), or `default` when none follows.
pub open spec fn value_or(rest: Seq<Seq<char>>, v: Option<int>, default: int) -> int {
    if rest.len() == 0 {
        default
    } else {
        match v {
            Some(n) => n,
            None => default,
        }
    }
}

/// `rest` after an optional value.
pub open spec fn after_value(rest: Seq<Seq<char>>) -> Seq<Seq<char>> {
    if rest.len() == 0 {
        rest
    } else {
        rest.drop_first()
    }
}

/// Reading the tokens of an `info` line into `acc`; `None` when the line must
/// be skipped.
pub open spec fn info_scan(toks: Seq<Seq<char>>, acc: InfoView) -> Option<InfoView>
    decreases toks.len(),
{
    if toks.len() == 0 {
        Some(acc)
    } else {
        let t = toks[0];
        let rest = toks.drop_first();
        if t == "depth"@ {
            if rest.len() == 0 {
                None
            } else {
                match int32(rest[0]) {
                    Some(d) => info_scan(rest.drop_first(), InfoView { depth: d, ..acc }),
                    None => None,
                }
            }
        } else if t == "seldepth"@ {
            info_scan(
                after_value(rest),
                InfoView { seldepth: value_or(rest, int32(rest[0]), 0), ..acc },
            )
        } else if t == "multipv"@ {
            info_scan(
                after_value(rest),
                InfoView { multipv: value_or(rest, natsize(rest[0]), 1), ..acc },
            )
        } else if t == "score"@ {
            if rest.len() == 0 {
                None
            } else {
                let r2 = rest.drop_first();
                let v = if r2.len() == 0 {
                    None
                } else {
                    int32(r2[0])
                };
                if rest[0] == "cp"@ {
                    info_scan(after_value(r2), InfoView { cp: v, ..acc })
                } else if rest[0] == "mate"@ {
                    info_scan(after_value(r2), InfoView { mate: v, ..acc })
                } else {
                    None
                }
            }
        } else if t == "lowerbound"@ || t == "upperbound"@ || t == "string"@ {
            None
        } else if t == "nodes"@ {
            info_scan(after_value(rest), InfoView { nodes: value_or(rest, nat64(rest[0]), 0), ..acc })
        } else if t == "nps"@ {
            info_scan(after_value(rest), InfoView { nps: value_or(rest, nat64(rest[0]), 0), ..acc })
        } else if t == "time"@ {
            info_scan(
                after_value(rest),
                InfoView { time_ms: value_or(rest, nat64(rest[0]), 0), ..acc },
            )
        } else if t == "pv"@ {
            Some(InfoView { pv: rest, has_pv: true, ..acc })
        } else {
            info_scan(rest, acc)
        }
    }
}

/// No token of `toks` is the keyword `seldepth`.
pub open spec fn no_seldepth(toks: Seq<Seq<char>>) -> bool {
    forall|j: int| 0 <= j < toks.len() ==> #[trigger] toks[j] != "seldepth"@
}

proof fn lemma_no_seldepth_suffix(toks: Seq<Seq<char>>, k: int)
    requires
        no_seldepth(toks),
        0 <= k <= toks.len(),
    ensures
        no_seldepth(toks.skip(k)),
{
    assert forall|j: int| 0 <= j < toks.skip(k).len() implies #[trigger] toks.skip(k)[j] != "seldepth"@ by {
        assert(toks.skip(k)[j] == toks[j + k]);
    }
}

/// Reading tokens none of which is `seldepth` leaves the selective depth
/// where it was.
proof fn lemma_scan_keeps_seldepth(toks: Seq<Seq<char>>, acc: InfoView)
    requires
        no_seldepth(toks),
    ensures
        info_scan(toks, acc) matches Some(i) ==> i.seldepth == acc.seldepth,
    decreases toks.len(),
{
    if toks.len() > 0 {
        let t = toks[0];
        let rest = toks.drop_first();
        assert(rest =~= toks.skip(1));
        lemma_no_seldepth_suffix(toks, 1);
        assert(t != "seldepth"@);
        if rest.len() > 0 {
            assert(rest.drop_first() =~= toks.skip(2));
            lemma_no_seldepth_suffix(toks, 2);
        }
        if rest.len() > 1 {
            assert(rest.drop_first().drop_first() =~= toks.skip(3));
            lemma_no_seldepth_suffix(toks, 3);
        }
        if t == "depth"@ {
            if rest.len() > 0 {
                match int32(rest[0]) {
                    Some(d) => lemma_scan_keeps_seldepth(rest.drop_first(), InfoView { depth: d, ..acc }),
                    None => {},
                }
            }
        } else if t == "multipv"@ {
            lemma_scan_keeps_seldepth(after_value(rest), InfoView { multipv: value_or(rest, natsize(rest[0]), 1), ..acc });
        } else if t == "score"@ {
            if rest.len() > 0 {
                let r2 = rest.drop_first();
                let v = if r2.len() == 0 {
                    None
                } else {
                    int32(r2[0])
                };
                if rest[0] == "cp"@ {
                    lemma_scan_keeps_seldepth(after_value(r2), InfoView { cp: v, ..acc });
                } else if rest[0] == "mate"@ {
                    lemma_scan_keeps_seldepth(after_value(r2), InfoView { mate: v, ..acc });
                }
            }
        } else if t == "nodes"@ {
            lemma_scan_keeps_seldepth(after_value(rest), InfoView { nodes: value_or(rest, nat64(rest[0]), 0), ..acc });
        } else if t == "nps"@ {
            lemma_scan_keeps_seldepth(after_value(rest), InfoView { nps: value_or(rest, nat64(rest[0]), 0), ..acc });
        } else if t == "time"@ {
            lemma_scan_keeps_seldepth(after_value(rest), InfoView { time_ms: value_or(rest, nat64(rest[0]), 0), ..acc });
        } else if t == "pv"@ || t == "lowerbound"@ || t == "upperbound"@ || t == "string"@ {
        } else {
            lemma_scan_keeps_seldepth(rest, acc);
        }
    }
}

/// An `info` line reports the selective depth it gives: when `seldepth`
/// is followed by a valid `i32` `n` (and no later `seldepth` overrides it),
/// the parsed line's selective depth is `n`; when the value is malformed it
/// is 0.
pub proof fn lemma_seldepth_read(
    value: Seq<char>,
    after: Seq<Seq<char>>,
    acc: InfoView,
)
    requires
        no_seldepth(after),
    ensures
        info_scan(seq!["seldepth"@, value] + after, acc) matches Some(i) ==> i.seldepth == (
        match int32(value) {
            Some(n) => n,
            None => 0,
        }),
{
    let toks = seq!["seldepth"@, value] + after;
    let rest = toks.drop_first();
    assert(toks.len() > 0);
    assert(toks[0] == "seldepth"@);
    assert(rest.len() > 0);
    assert(rest[0] == value);
    assert(rest.drop_first() =~= after);
    assert(after_value(rest) == after);
    reveal_strlit("seldepth");
    reveal_strlit("depth");
    let a2 = InfoView { seldepth: value_or(rest, int32(rest[0]), 0), ..acc };
    assert(info_scan(toks, acc) == info_scan(after, a2));
    lemma_scan_keeps_seldepth(after, a2);
}

/// The same for a whole line: an `info` line that opens with `seldepth`
/// and a value, with no later `seldepth`, parses (if it parses) to that
/// value, or to 0 when the value is not a valid `i32`.
pub proof fn lemma_line_seldepth(line: Seq<char>, value: Seq<char>, after: Seq<Seq<char>>)
    requires
        words(line) == seq!["info"@, "seldepth"@, value] + after,
        no_seldepth(after),
    ensures
        parse_info_spec(line) matches Some(i) ==> i.seldepth == (match int32(value) {
            Some(n) => n,
            None => 0,
        }),
{
    let toks = words(line);
    assert(toks[0] == "info"@);
    assert(toks.drop_first() =~= seq!["seldepth"@, value] + after);
    let init = InfoView {
        depth: 0,
        seldepth: 0,
        multipv: 1,
        cp: None,
        mate: None,
        nodes: 0,
        nps: 0,
        time_ms: 0,
        pv: Seq::empty(),
        has_pv: false,
    };
    lemma_seldepth_read(value, after, init);
}

/// The reading of an `info` line, if it carries a PV and a score.
pub open spec fn parse_info_spec(line: Seq<char>) -> Option<InfoView> {
    let toks = words(line);
    if toks.len() == 0 || toks[0] != "info"@ {
        None
    } else {
        match info_scan(
            toks.drop_first(),
            InfoView {
                depth: 0,
                seldepth: 0,
                multipv: 1,
                cp: None,
                mate: None,
                nodes: 0,
                nps: 0,
                time_ms: 0,
                pv: Seq::empty(),
                has_pv: false,
            },
        ) {
            Some(i) => if i.has_pv && (i.cp is Some || i.mate is Some) {
                Some(i)
            } else {
                None
            },
            None => None,
        }
    }
}

/// The fields of a parsed line.
pub open spec fn info_view(i: UciInfo, has_pv: bool) -> InfoView {
    InfoView {
        depth: i.depth as int,
        seldepth: i.seldepth as int,
        multipv: i.multipv as int,
        cp: match i.cp {
            Some(c) => Some(c as int),
            None => None,
        },
        mate: match i.mate {
            Some(m) => Some(m as int),
            None => None,
        },
        nodes: i.nodes as int,
        nps: i.nps as int,
        time_ms: i.time_ms as int,
        pv: texts(i.pv@),
        has_pv,
    }
}

/// Whether `cs` is the text `w`.
fn is_word(cs: &Vec<char>, w: &str) -> (r: bool)
    ensures
        r == (cs@ == w@),
{
    same_chars(cs, &chars_of(w))
}

/// An `i32` token.
fn read_i32(t: &Vec<char>) -> (r: Option<i32>)
    ensures
        match r {
            Some(n) => int32(t@) == Some(n as int),
            None => int32(t@) is None,
        },
{
    match parse_int(t, true, -0x8000_0000, 0x7fff_ffff) {
        Some(n) => Some(n as i32),
        None => None,
    }
}

/// A `u64` token.
fn read_u64(t: &Vec<char>) -> (r: Option<u64>)
    ensures
        match r {
            Some(n) => nat64(t@) == Some(n as int),
            None => nat64(t@) is None,
        },
{
    match parse_int(t, false, 0, 0xffff_ffff_ffff_ffff) {
        Some(n) => Some(n as u64),
        None => None,
    }
}

/// Parse an `info` line carrying a PV. Returns `None` for periodic
/// (`currmove`, string, pv-less) lines and aspiration `lowerbound` /
/// `upperbound` reports, which would make the displayed score jump around.
pub fn parse_info(line: &str) -> (r: Option<UciInfo>)
    ensures
        match r {
            Some(i) => parse_info_spec(line@) == Some(info_view(i, true)),
            None => parse_info_spec(line@) is None,
        },
{
    let toks = split_words(&chars_of(line));
    let ghost all = words(line@);
    if toks.len() == 0 || !is_word(&toks[0], "info") {
        return None;
    }
    let mut info = UciInfo {
        depth: 0,
        seldepth: 0,
        multipv: 1,
        cp: None,
        mate: None,
        nodes: 0,
        nps: 0,
        time_ms: 0,
        pv: Vec::new(),
    };
    let mut has_pv = false;
    let mut k: usize = 1;
    assert(texts(info.pv@) =~= Seq::<Seq<char>>::empty());
    assert(all.skip(1) =~= all.drop_first());
    while k < toks.len()
        invariant
            1 <= k <= toks@.len(),
            crate::text::holds_seqs(toks@, all),
            all.len() > 0 && all[0] == "info"@,
            parse_info_spec(line@) == match info_scan(all.skip(k as int), info_view(info, has_pv)) {
                Some(i) => if i.has_pv && (i.cp is Some || i.mate is Some) {
                    Some(i)
                } else {
                    None
                },
                None => None,
            },
        decreases toks@.len() - k,
    {
        let ghost rest = all.skip(k + 1);
        let ghost cur = all.skip(k as int);
        assert(cur[0] == all[k as int]);
        assert(cur.drop_first() =~= rest);
        let t = &toks[k];
        let has_next = k + 1 < toks.len();
        if has_next {
            assert(rest[0] == all[k + 1]);
            assert(rest.drop_first() =~= all.skip(k + 2));
        } else {
            assert(rest.len() == 0);
        }
        let step: usize = if has_next {
            2
        } else {
            1
        };
        assert(after_value(rest) =~= all.skip(k + step));
        if is_word(t, "depth") {
            if !has_next {
                return None;
            }
            match read_i32(&toks[k + 1]) {
                Some(d) => {
                    info.depth = d;
                },
                None => {
                    return None;
                },
            }
            k += 2;
        } else if is_word(t, "seldepth") {
            info.seldepth = if has_next {
                match read_i32(&toks[k + 1]) {
                    Some(v) => v,
                    None => 0,
                }
            } else {
                0
            };
            k += step;
        } else if is_word(t, "multipv") {
            info.multipv = if has_next {
                match parse_int(&toks[k + 1], false, 0, usize::MAX as i128) {
                    Some(v) => v as usize,
                    None => 1,
                }
            } else {
                1
            };
            k += step;
        } else if is_word(t, "score") {
            if !has_next {
                return None;
            }
            let r2_next = k + 2 < toks.len();
            let ghost r2 = rest.drop_first();
            if r2_next {
                assert(r2[0] == all[k + 2]);
                assert(r2.drop_first() =~= all.skip(k + 3));
            } else {
                assert(r2.len() == 0);
            }
            let v: Option<i32> = if r2_next {
                read_i32(&toks[k + 2])
            } else {
                None
            };
            let adv: usize = if r2_next {
                3
            } else {
                2
            };
            assert(after_value(r2) =~= all.skip(k + adv));
            if is_word(&toks[k + 1], "cp") {
                info.cp = v;
            } else if is_word(&toks[k + 1], "mate") {
                info.mate = v;
            } else {
                return None;
            }
            k += adv;
        } else if is_word(t, "lowerbound") || is_word(t, "upperbound") || is_word(t, "string") {
            return None;
        } else if is_word(t, "nodes") {
            info.nodes = if has_next {
                match read_u64(&toks[k + 1]) {
                    Some(v) => v,
                    None => 0,
                }
            } else {
                0
            };
            k += step;
        } else if is_word(t, "nps") {
            info.nps = if has_next {
                match read_u64(&toks[k + 1]) {
                    Some(v) => v,
                    None => 0,
                }
            } else {
                0
            };
            k += step;
        } else if is_word(t, "time") {
            info.time_ms = if has_next {
                match read_u64(&toks[k + 1]) {
                    Some(v) => v,
                    None => 0,
                }
            } else {
                0
            };
            k += step;
        } else if is_word(t, "pv") {
            let mut pv: Vec<String> = Vec::new();
            let mut j: usize = k + 1;
            while j < toks.len()
                invariant
                    k + 1 <= j <= toks@.len(),
                    crate::text::holds_seqs(toks@, all),
                    texts(pv@) == all.subrange(k + 1, j as int),
                    pv@.len() == j - (k + 1),
                decreases toks@.len() - j,
            {
                let ghost before = pv@;
                let item = string_of(&toks[j]);
                pv.push(item);
                assert(pv@ == before.push(item));
                assert forall|i: int| 0 <= i < pv@.len() implies #[trigger] texts(pv@)[i]
                    == all.subrange(k + 1, j + 1)[i] by {
                    if i < before.len() {
                        assert(texts(before)[i] == all.subrange(k + 1, j as int)[i]);
                    }
                }
                j += 1;
                assert(texts(pv@) =~= all.subrange(k + 1, j as int));
            }
            assert(all.subrange(k + 1, toks@.len() as int) =~= rest);
            info.pv = pv;
            has_pv = true;
            k = toks.len();
            assert(all.skip(k as int) =~= Seq::<Seq<char>>::empty());
        } else {
            k += 1;
        }
    }
    assert(all.skip(k as int) =~= Seq::<Seq<char>>::empty());
    if has_pv && (info.cp.is_some() || info.mate.is_some()) {
        Some(info)
    } else {
        None
    }
}

} // verus!
