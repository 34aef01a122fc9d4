//! Character-level helpers shared by the text formats (FEN, SAN, UCI).
use vstd::prelude::*;

verus! {

/// `String::push` appends one character to the end of the string.
pub assume_specification[ String::push ](s: &mut String, ch: char)
    ensures
        final(s)@ == old(s)@.push(ch),
;

/// The characters of `s`, in order.
pub fn chars_of(s: &str) -> (r: Vec<char>)
    ensures
        r@ == s@,
{
    let mut out: Vec<char> = Vec::new();
    for c in it: s.chars()
        invariant
            out@ == it.seq().take(it.index() as int),
            it.seq() == s@,
    {
        out.push(c);
    }
    out
}

/// A string holding exactly the characters `cs`.
pub fn string_of(cs: &Vec<char>) -> (r: String)
    ensures
        r@ == cs@,
{
    let mut s = String::new();
    let mut i: usize = 0;
    while i < cs.len()
        invariant
            i <= cs.len(),
            s@ == cs@.take(i as int),
        decreases cs.len() - i,
    {
        s.push(cs[i]);
        proof {
            assert(cs@.take(i + 1) =~= cs@.take(i as int).push(cs@[i as int]));
        }
        i += 1;
    }
    proof {
        assert(cs@.take(cs.len() as int) =~= cs@);
    }
    s
}

/// Unicode `White_Space`, the set `char::is_whitespace` tests.
pub open spec fn is_ws(c: char) -> bool {
    let u = c as u32;
    (9 <= u <= 13) || u == 32 || u == 0x85 || u == 0xA0 || u == 0x1680 || (0x2000 <= u <= 0x200A)
        || u == 0x2028 || u == 0x2029 || u == 0x202F || u == 0x205F || u == 0x3000
}

/// Left-to-right scan behind [`words`]: the words completed so far and the
/// word in progress.
pub open spec fn ws_scan(cs: Seq<char>) -> (Seq<Seq<char>>, Seq<char>)
    decreases cs.len(),
{
    if cs.len() == 0 {
        (Seq::empty(), Seq::empty())
    } else {
        let (f, cur) = ws_scan(cs.drop_last());
        let c = cs.last();
        if is_ws(c) {
            if cur.len() > 0 {
                (f.push(cur), Seq::empty())
            } else {
                (f, cur)
            }
        } else {
            (f, cur.push(c))
        }
    }
}

/// The maximal runs of non-whitespace characters of `cs`, in order (what
/// `str::split_whitespace` yields).
pub open spec fn words(cs: Seq<char>) -> Seq<Seq<char>> {
    let (f, cur) = ws_scan(cs);
    if cur.len() > 0 {
        f.push(cur)
    } else {
        f
    }
}

/// Left-to-right scan behind [`split_on`].
pub open spec fn sep_scan(cs: Seq<char>, sep: char) -> (Seq<Seq<char>>, Seq<char>)
    decreases cs.len(),
{
    if cs.len() == 0 {
        (Seq::empty(), Seq::empty())
    } else {
        let (f, cur) = sep_scan(cs.drop_last(), sep);
        let c = cs.last();
        if c == sep {
            (f.push(cur), Seq::empty())
        } else {
            (f, cur.push(c))
        }
    }
}

/// The pieces of `cs` between occurrences of `sep`, empty pieces included
/// (what `str::split(sep)` yields).
pub open spec fn split_on(cs: Seq<char>, sep: char) -> Seq<Seq<char>> {
    let (f, cur) = sep_scan(cs, sep);
    f.push(cur)
}

/// Whether `c` is whitespace.
pub fn is_whitespace(c: char) -> (r: bool)
    ensures
        r == is_ws(c),
{
    let u = c as u32;
    (9 <= u && u <= 13) || u == 32 || u == 0x85 || u == 0xA0 || u == 0x1680 || (0x2000 <= u && u
        <= 0x200A) || u == 0x2028 || u == 0x2029 || u == 0x202F || u == 0x205F || u == 0x3000
}

/// Whether the vector of vectors `v` holds exactly the sequences `s`.
pub open spec fn holds_seqs<T>(v: Seq<Vec<T>>, s: Seq<Seq<T>>) -> bool {
    v.len() == s.len() && forall|i: int| 0 <= i < v.len() ==> #[trigger] v[i]@ == s[i]
}

/// Split into whitespace-separated words.
pub fn split_words(cs: &Vec<char>) -> (r: Vec<Vec<char>>)
    ensures
        holds_seqs(r@, words(cs@)),
{
    let mut out: Vec<Vec<char>> = Vec::new();
    let mut cur: Vec<char> = Vec::new();
    let mut i: usize = 0;
    while i < cs.len()
        invariant
            i <= cs.len(),
            holds_seqs(out@, ws_scan(cs@.take(i as int)).0),
            cur@ == ws_scan(cs@.take(i as int)).1,
        decreases cs.len() - i,
    {
        let c = cs[i];
        proof {
            assert(cs@.take(i + 1).drop_last() =~= cs@.take(i as int));
        }
        if is_whitespace(c) {
            if cur.len() > 0 {
                let w = cur;
                out.push(w);
                cur = Vec::new();
                assert(cur@ =~= Seq::<char>::empty());
            }
        } else {
            cur.push(c);
        }
        i += 1;
    }
    proof {
        assert(cs@.take(cs.len() as int) =~= cs@);
    }
    if cur.len() > 0 {
        out.push(cur);
    }
    out
}

/// Split at every occurrence of `sep`.
pub fn split_char(cs: &Vec<char>, sep: char) -> (r: Vec<Vec<char>>)
    ensures
        holds_seqs(r@, split_on(cs@, sep)),
{
    let mut out: Vec<Vec<char>> = Vec::new();
    let mut cur: Vec<char> = Vec::new();
    let mut i: usize = 0;
    while i < cs.len()
        invariant
            i <= cs.len(),
            holds_seqs(out@, sep_scan(cs@.take(i as int), sep).0),
            cur@ == sep_scan(cs@.take(i as int), sep).1,
        decreases cs.len() - i,
    {
        let c = cs[i];
        proof {
            assert(cs@.take(i + 1).drop_last() =~= cs@.take(i as int));
        }
        if c == sep {
            let w = cur;
            out.push(w);
            cur = Vec::new();
            assert(cur@ =~= Seq::<char>::empty());
        } else {
            cur.push(c);
        }
        i += 1;
    }
    proof {
        assert(cs@.take(cs.len() as int) =~= cs@);
    }
    out.push(cur);
    out
}

/// Whether `cs` is exactly the one character `c`.
pub fn is_just(cs: &Vec<char>, c: char) -> (r: bool)
    ensures
        r == (cs@ == seq![c]),
{
    if cs.len() == 1 && cs[0] == c {
        assert(cs@ =~= seq![c]);
        true
    } else {
        false
    }
}

/// `cs` without its leading whitespace.
pub open spec fn trim_start(cs: Seq<char>) -> Seq<char>
    decreases cs.len(),
{
    if cs.len() > 0 && is_ws(cs[0]) {
        trim_start(cs.drop_first())
    } else {
        cs
    }
}

/// `cs` without its trailing whitespace.
pub open spec fn trim_end(cs: Seq<char>) -> Seq<char>
    decreases cs.len(),
{
    if cs.len() > 0 && is_ws(cs.last()) {
        trim_end(cs.drop_last())
    } else {
        cs
    }
}

/// `cs` without leading or trailing whitespace (what `str::trim` gives).
pub open spec fn trim(cs: Seq<char>) -> Seq<char> {
    trim_end(trim_start(cs))
}

/// Remove leading and trailing whitespace.
pub fn trim_chars(cs: &Vec<char>) -> (r: Vec<char>)
    ensures
        r@ == trim(cs@),
{
    let n = cs.len();
    let mut a: usize = 0;
    assert(cs@.subrange(0, n as int) =~= cs@);
    while a < n && is_whitespace(cs[a])
        invariant
            a <= n,
            n == cs.len(),
            trim_start(cs@) == trim_start(cs@.subrange(a as int, n as int)),
        decreases n - a,
    {
        assert(cs@.subrange(a as int, n as int).drop_first() =~= cs@.subrange(a + 1, n as int));
        a += 1;
    }
    let ghost t = cs@.subrange(a as int, n as int);
    assert(trim_start(cs@) == t);
    let mut b: usize = n;
    while b > a && is_whitespace(cs[b - 1])
        invariant
            a <= b <= n,
            n == cs.len(),
            t == cs@.subrange(a as int, n as int),
            trim_end(t) == trim_end(cs@.subrange(a as int, b as int)),
        decreases b,
    {
        assert(cs@.subrange(a as int, b as int).drop_last() =~= cs@.subrange(a as int, b - 1));
        b -= 1;
    }
    let mut out: Vec<char> = Vec::new();
    let mut i: usize = a;
    while i < b
        invariant
            a <= i <= b <= n,
            n == cs.len(),
            out@ == cs@.subrange(a as int, i as int),
        decreases b - i,
    {
        out.push(cs[i]);
        i += 1;
        assert(out@ =~= cs@.subrange(a as int, i as int));
    }
    out
}

/// Whether `a` and `b` hold the same characters.
pub fn same_chars(a: &Vec<char>, b: &Vec<char>) -> (r: bool)
    ensures
        r == (a@ == b@),
{
    if a.len() != b.len() {
        return false;
    }
    let mut i: usize = 0;
    while i < a.len()
        invariant
            i <= a.len(),
            a.len() == b.len(),
            a@.take(i as int) == b@.take(i as int),
        decreases a.len() - i,
    {
        if a[i] != b[i] {
            assert(a@[i as int] != b@[i as int]);
            return false;
        }
        assert(a@.take(i + 1) =~= a@.take(i as int).push(a@[i as int]));
        assert(b@.take(i + 1) =~= b@.take(i as int).push(b@[i as int]));
        i += 1;
    }
    assert(a@ =~= a@.take(a.len() as int));
    assert(b@ =~= b@.take(b.len() as int));
    true
}

/// An ASCII decimal digit.
pub open spec fn is_dec(c: char) -> bool {
    48 <= (c as u32) <= 57
}

/// Every character is an ASCII decimal digit.
pub open spec fn all_dec(cs: Seq<char>) -> bool {
    forall|i: int| 0 <= i < cs.len() ==> #[trigger] is_dec(cs[i])
}

/// The decimal value of a run of digits.
pub open spec fn digits_value(cs: Seq<char>) -> int
    decreases cs.len(),
{
    if cs.len() == 0 {
        0
    } else {
        digits_value(cs.drop_last()) * 10 + ((cs.last() as u32) - 48)
    }
}

/// `str::parse` of an integer type with bounds `min..=max`: an optional
/// sign (`-` only for signed types) and at least one digit.
pub open spec fn parse_int_spec(cs: Seq<char>, signed: bool, min: int, max: int) -> Option<int> {
    let neg = signed && cs.len() > 0 && cs[0] == '-';
    let digits = if cs.len() > 0 && (cs[0] == '+' || neg) {
        cs.drop_first()
    } else {
        cs
    };
    let v = if neg {
        -digits_value(digits)
    } else {
        digits_value(digits)
    };
    if digits.len() > 0 && all_dec(digits) && min <= v <= max {
        Some(v)
    } else {
        None
    }
}

/// A run of digits has a value no smaller than any of its prefixes.
pub proof fn lemma_digits_prefix(d: Seq<char>, k: int)
    requires
        0 <= k <= d.len(),
        forall|i: int| 0 <= i < d.len() ==> #[trigger] is_dec(d[i]),
    ensures
        0 <= digits_value(d.take(k)) <= digits_value(d),
    decreases d.len(),
{
    if k == d.len() {
        assert(d.take(k) =~= d);
        if d.len() > 0 {
            lemma_digits_prefix(d.drop_last(), 0);
            assert(is_dec(d[d.len() - 1]));
        }
    } else {
        lemma_digits_prefix(d.drop_last(), k);
        assert(d.drop_last().take(k) =~= d.take(k));
        assert(is_dec(d[d.len() - 1]));
    }
}

/// Parse an integer as `str::parse` does for a type spanning `min..=max`
/// (`|min|` and `max` below 2^64).
pub fn parse_int(cs: &Vec<char>, signed: bool, min: i128, max: i128) -> (r: Option<i128>)
    requires
        -0x1_0000_0000_0000_0000 <= min <= 0 <= max <= 0x1_0000_0000_0000_0000,
    ensures
        match r {
            Some(v) => parse_int_spec(cs@, signed, min as int, max as int) == Some(v as int),
            None => parse_int_spec(cs@, signed, min as int, max as int) is None,
        },
{
    let neg = signed && cs.len() > 0 && cs[0] == '-';
    let start: usize = if cs.len() > 0 && (cs[0] == '+' || neg) {
        1
    } else {
        0
    };
    let ghost d = if cs@.len() > 0 && (cs@[0] == '+' || neg) {
        cs@.drop_first()
    } else {
        cs@
    };
    assert(d =~= cs@.subrange(start as int, cs.len() as int));
    if start == cs.len() {
        return None;
    }
    let limit: i128 = if neg {
        -min
    } else {
        max
    };
    let mut acc: i128 = 0;
    let mut j: usize = start;
    while j < cs.len()
        invariant
            start <= j <= cs.len(),
            d == cs@.subrange(start as int, cs.len() as int),
            forall|i: int| 0 <= i < j - start ==> #[trigger] is_dec(d[i]),
            acc == digits_value(d.take(j - start)),
            0 <= acc <= limit,
            limit <= 0x1_0000_0000_0000_0000,
            neg == (signed && cs@.len() > 0 && cs@[0] == '-'),
            d == if cs@.len() > 0 && (cs@[0] == '+' || neg) {
                cs@.drop_first()
            } else {
                cs@
            },
            limit == if neg {
                -min
            } else {
                max as int
            },
            -0x1_0000_0000_0000_0000 <= min <= 0 <= max <= 0x1_0000_0000_0000_0000,
        decreases cs.len() - j,
    {
        let c = cs[j];
        let ghost k = j - start;
        proof {
            assert(d.take(k + 1).drop_last() =~= d.take(k));
            assert(d[k] == c);
        }
        let u = c as u32;
        if !(48 <= u && u <= 57) {
            assert(!is_dec(d[k]));
            assert(!all_dec(d));
            return None;
        }
        let nv = acc * 10 + (u - 48) as i128;
        if nv > limit {
            proof {
                if all_dec(d) {
                    lemma_digits_prefix(d, k + 1);
                }
            }
            return None;
        }
        acc = nv;
        j += 1;
    }
    assert(d.take(d.len() as int) =~= d);
    if neg {
        Some(-acc)
    } else {
        Some(acc)
    }
}

} // verus!
