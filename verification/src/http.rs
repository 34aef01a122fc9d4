//! The request and JSON text helpers of the analysis server: query
//! parameters, percent-decoding, and JSON string/array/number encoding.
use crate::text::{chars_of, parse_int, parse_int_spec, same_chars};
use vstd::prelude::*;
use vstd::utf8::{decode_utf8, valid_utf8};

verus! {

/// One HTTP request.
pub struct Request {
    pub method: String,
    pub path: String,
    pub query: Vec<(String, String)>,
    pub headers: Vec<(String, String)>,
    pub body: Vec<u8>,
}

/// The index of the first query pair whose key is `key`.
pub open spec fn find_param(query: Seq<(String, String)>, key: Seq<char>, k: int) -> Option<int>
    decreases query.len() - k,
{
    if k < 0 || k >= query.len() {
        None
    } else if query[k].0@ == key {
        Some(k)
    } else {
        find_param(query, key, k + 1)
    }
}

/// The value of the first query pair with key `key`.
pub open spec fn param_spec(query: Seq<(String, String)>, key: Seq<char>) -> Option<Seq<char>> {
    match find_param(query, key, 0) {
        Some(i) => Some(query[i].1@),
        None => None,
    }
}

/// Whether two strings hold the same text.
pub fn same_text(a: &str, b: &str) -> (r: bool)
    ensures
        r == (a@ == b@),
{
    same_chars(&chars_of(a), &chars_of(b))
}

/// A numeric query parameter: its decimal value, `default` when absent or
/// malformed, clamped to `[lo, hi]`.
pub open spec fn num_spec(
    query: Seq<(String, String)>,
    key: Seq<char>,
    default: int,
    lo: int,
    hi: int,
) -> int {
    let v = match param_spec(query, key) {
        Some(t) => match parse_int_spec(t, false, 0, usize::MAX as int) {
            Some(n) => n,
            None => default,
        },
        None => default,
    };
    if v < lo {
        lo
    } else if v > hi {
        hi
    } else {
        v
    }
}

impl Request {
    /// A query parameter, percent-decoded.
    pub fn param(&self, key: &str) -> (r: Option<&str>)
        ensures
            match r {
                Some(v) => param_spec(self.query@, key@) == Some(v@),
                None => param_spec(self.query@, key@) is None,
            },
    {
        let mut i: usize = 0;
        while i < self.query.len()
            invariant
                i <= self.query@.len(),
                find_param(self.query@, key@, 0) == find_param(self.query@, key@, i as int),
            decreases self.query@.len() - i,
        {
            if same_text(self.query[i].0.as_str(), key) {
                return Some(self.query[i].1.as_str());
            }
            i += 1;
        }
        None
    }

    /// A header's value, by its name as stored.
    pub fn header(&self, name: &str) -> (r: Option<&str>)
        ensures
            match r {
                Some(v) => param_spec(self.headers@, name@) == Some(v@),
                None => param_spec(self.headers@, name@) is None,
            },
    {
        let mut i: usize = 0;
        while i < self.headers.len()
            invariant
                i <= self.headers@.len(),
                find_param(self.headers@, name@, 0) == find_param(self.headers@, name@, i as int),
            decreases self.headers@.len() - i,
        {
            if same_text(self.headers[i].0.as_str(), name) {
                return Some(self.headers[i].1.as_str());
            }
            i += 1;
        }
        None
    }

    /// A numeric query parameter, falling back to `default` when absent or
    /// malformed, clamped to `[lo, hi]`.
    pub fn num(&self, key: &str, default: usize, lo: usize, hi: usize) -> (r: usize)
        ensures
            r == num_spec(self.query@, key@, default as int, lo as int, hi as int),
    {
        let v: usize = match self.param(key) {
            Some(t) => match parse_int(&chars_of(t), false, 0, usize::MAX as i128) {
                Some(n) => n as usize,
                None => default,
            },
            None => default,
        };
        if v < lo {
            lo
        } else if v > hi {
            hi
        } else {
            v
        }
    }
}

/// The value of a hexadecimal digit.
pub open spec fn hex_value(c: u8) -> Option<u8> {
    if 48 <= c <= 57 {
        Some((c - 48) as u8)
    } else if 97 <= c <= 102 {
        Some((c - 97 + 10) as u8)
    } else if 65 <= c <= 70 {
        Some((c - 65 + 10) as u8)
    } else {
        None
    }
}

fn hex(c: u8) -> (r: Option<u8>)
    ensures
        r == hex_value(c),
{
    if 48 <= c && c <= 57 {
        Some(c - 48)
    } else if 97 <= c && c <= 102 {
        Some(c - 97 + 10)
    } else if 65 <= c && c <= 70 {
        Some(c - 65 + 10)
    } else {
        None
    }
}

/// The bytes `%XX` escapes decode to, scanning from byte `i`.
pub open spec fn unescape(b: Seq<u8>, i: int) -> Seq<u8>
    decreases b.len() - i,
{
    if i < 0 || i >= b.len() {
        Seq::empty()
    } else if b[i] == 37 && i + 2 < b.len() && hex_value(b[i + 1]) is Some && hex_value(
        b[i + 2],
    ) is Some {
        seq![(hex_value(b[i + 1]).unwrap() * 16 + hex_value(b[i + 2]).unwrap()) as u8] + unescape(
            b,
            i + 3,
        )
    } else {
        seq![b[i]] + unescape(b, i + 1)
    }
}

/// The text `String::from_utf8_lossy` makes of `bytes`: invalid sequences
/// become U+FFFD.
pub uninterp spec fn lossy_text(bytes: Seq<u8>) -> Seq<char>;

/// `String::from_utf8_lossy`: valid UTF-8 decodes as is; other input is
/// named by [`lossy_text`].
#[verifier::external_body]
pub(crate) fn from_utf8_lossy(bytes: &[u8]) -> (r: String)
    ensures
        r@ == lossy_text(bytes@),
        valid_utf8(bytes@) ==> r@ == decode_utf8(bytes@),
{
    String::from_utf8_lossy(bytes).into_owned()
}

/// Decode `%XX` escapes (the frontend always encodes with
/// `encodeURIComponent`, which never produces `+` for spaces).
pub fn percent_decode(s: &str) -> (r: String)
    ensures
        r@ == lossy_text(unescape(vstd::string::StringSliceAdditionalSpecFns::spec_bytes(s), 0)),
        valid_utf8(unescape(vstd::string::StringSliceAdditionalSpecFns::spec_bytes(s), 0)) ==> r@
            == decode_utf8(unescape(vstd::string::StringSliceAdditionalSpecFns::spec_bytes(s), 0)),
{
    let b = s.as_bytes();
    let mut out: Vec<u8> = Vec::new();
    let mut i: usize = 0;
    while i < b.len()
        invariant
            i <= b@.len(),
            out@ + unescape(b@, i as int) == unescape(b@, 0),
        decreases b@.len() - i,
    {
        let ghost before = out@;
        if b[i] == 37 && 2 < b.len() - i && hex(b[i + 1]).is_some() && hex(b[i + 2]).is_some() {
            let hi = hex(b[i + 1]).unwrap();
            let lo = hex(b[i + 2]).unwrap();
            out.push(hi * 16 + lo);
            assert(out@ + unescape(b@, i + 3) =~= before + unescape(b@, i as int));
            i += 3;
        } else {
            out.push(b[i]);
            assert(out@ + unescape(b@, i + 1) =~= before + unescape(b@, i as int));
            i += 1;
        }
    }
    assert(out@ + unescape(b@, i as int) =~= out@);
    from_utf8_lossy(out.as_slice())
}

/// A lowercase hexadecimal digit.
pub open spec fn hex_char(n: int) -> char {
    if n < 10 {
        (48 + n) as char
    } else {
        (87 + n) as char
    }
}

/// The JSON escape of one character.
pub open spec fn escape_char(c: char) -> Seq<char> {
    let u = c as u32;
    if c == '"' {
        seq!['\\', '"']
    } else if c == '\\' {
        seq!['\\', '\\']
    } else if c == '\n' {
        seq!['\\', 'n']
    } else if c == '\r' {
        seq!['\\', 'r']
    } else if c == '\t' {
        seq!['\\', 't']
    } else if u < 0x20 {
        seq!['\\', 'u', '0', '0', hex_char((u / 16) as int), hex_char((u % 16) as int)]
    } else {
        seq![c]
    }
}

/// The JSON escape of a text.
pub open spec fn escape_text(cs: Seq<char>) -> Seq<char>
    decreases cs.len(),
{
    if cs.len() == 0 {
        Seq::empty()
    } else {
        escape_text(cs.drop_last()) + escape_char(cs.last())
    }
}

/// A JSON string literal of a text.
pub open spec fn jstr_text(cs: Seq<char>) -> Seq<char> {
    seq!['"'] + escape_text(cs) + seq!['"']
}

/// Append all of `cs`.
pub fn push_chars(s: &mut String, cs: &[char])
    ensures
        final(s)@ == old(s)@ + cs@,
{
    let mut i: usize = 0;
    while i < cs.len()
        invariant
            i <= cs.len(),
            s@ == old(s)@ + cs@.take(i as int),
        decreases cs.len() - i,
    {
        s.push(cs[i]);
        i += 1;
        assert(s@ =~= old(s)@ + cs@.take(i as int));
    }
    assert(cs@.take(cs.len() as int) =~= cs@);
}

/// Append all of `t`.
pub fn push_str(s: &mut String, t: &str)
    ensures
        final(s)@ == old(s)@ + t@,
{
    let cs = chars_of(t);
    push_chars(s, cs.as_slice());
}

/// Append the JSON escape of `c`.
fn push_escaped(s: &mut String, c: char)
    ensures
        final(s)@ == old(s)@ + escape_char(c),
{
    let u = c as u32;
    if c == '"' {
        s.push('\\');
        s.push('"');
    } else if c == '\\' {
        s.push('\\');
        s.push('\\');
    } else if c == '\n' {
        s.push('\\');
        s.push('n');
    } else if c == '\r' {
        s.push('\\');
        s.push('r');
    } else if c == '\t' {
        s.push('\\');
        s.push('t');
    } else if u < 0x20 {
        s.push('\\');
        s.push('u');
        s.push('0');
        s.push('0');
        let h = u / 16;
        let l = u % 16;
        s.push(
            if h < 10 {
                ((48 + h) as u8) as char
            } else {
                ((87 + h) as u8) as char
            },
        );
        s.push(
            if l < 10 {
                ((48 + l) as u8) as char
            } else {
                ((87 + l) as u8) as char
            },
        );
    } else {
        s.push(c);
    }
    assert(s@ =~= old(s)@ + escape_char(c));
}

/// A JSON string literal (quoted, escaped).
pub fn jstr(s: &str) -> (r: String)
    ensures
        r@ == jstr_text(s@),
{
    let cs = chars_of(s);
    let mut out = String::new();
    out.push('"');
    let mut i: usize = 0;
    while i < cs.len()
        invariant
            i <= cs@.len(),
            cs@ == s@,
            out@ == seq!['"'] + escape_text(cs@.take(i as int)),
        decreases cs@.len() - i,
    {
        proof {
            assert(cs@.take(i + 1).drop_last() =~= cs@.take(i as int));
        }
        push_escaped(&mut out, cs[i]);
        i += 1;
        assert(out@ =~= seq!['"'] + escape_text(cs@.take(i as int)));
    }
    assert(cs@.take(cs@.len() as int) =~= cs@);
    out.push('"');
    out
}

/// Items joined by commas.
pub open spec fn join_commas(items: Seq<Seq<char>>) -> Seq<char>
    decreases items.len(),
{
    if items.len() == 0 {
        Seq::empty()
    } else if items.len() == 1 {
        items[0]
    } else {
        join_commas(items.drop_last()) + seq![','] + items.last()
    }
}

/// A JSON array of already-encoded items.
pub open spec fn jarr_text(items: Seq<Seq<char>>) -> Seq<char> {
    seq!['['] + join_commas(items) + seq![']']
}

/// A JSON array from already-encoded element strings.
pub fn jarr(items: &[String]) -> (r: String)
    ensures
        r@ == jarr_text(items@.map_values(|s: String| s@)),
{
    let ghost all = items@.map_values(|s: String| s@);
    let mut out = String::new();
    out.push('[');
    let mut i: usize = 0;
    while i < items.len()
        invariant
            i <= items@.len(),
            all == items@.map_values(|s: String| s@),
            out@ == seq!['['] + join_commas(all.take(i as int)),
        decreases items@.len() - i,
    {
        let ghost before = out@;
        proof {
            assert(all.take(i + 1).drop_last() =~= all.take(i as int));
            assert(all.take(i + 1).last() == items@[i as int]@);
        }
        if i > 0 {
            out.push(',');
        }
        push_str(&mut out, items[i].as_str());
        i += 1;
        proof {
            if i == 1 {
                assert(all.take(1) =~= seq![all[0]]);
            }
            assert(out@ =~= seq!['['] + join_commas(all.take(i as int)));
        }
    }
    assert(all.take(items@.len() as int) =~= all);
    out.push(']');
    out
}

/// The decimal text of a signed number.
pub open spec fn int_text(n: int) -> Seq<char> {
    if n < 0 {
        seq!['-'] + crate::fen::decimal((-n) as nat)
    } else {
        crate::fen::decimal(n as nat)
    }
}

/// Append the decimal text of `n`.
pub fn push_u64(s: &mut String, n: u64)
    ensures
        final(s)@ == old(s)@ + crate::fen::decimal(n as nat),
    decreases n,
{
    if n >= 10 {
        push_u64(s, n / 10);
    }
    let d = n % 10;
    s.push(((48 + d) as u8) as char);
    assert(old(s)@ + crate::fen::decimal(n as nat) =~= s@);
}

/// Append the decimal text of a signed number.
pub fn push_i64(s: &mut String, n: i64)
    ensures
        final(s)@ == old(s)@ + int_text(n as int),
{
    if n < 0 {
        s.push('-');
        let magnitude: u64 = if n == i64::MIN {
            9_223_372_036_854_775_808u64
        } else {
            (-n) as u64
        };
        push_u64(s, magnitude);
    } else {
        push_u64(s, n as u64);
    }
    assert(s@ =~= old(s)@ + int_text(n as int));
}

/// `null` or a JSON number.
pub fn jopt(v: Option<i32>) -> (r: String)
    ensures
        r@ == match v {
            Some(n) => int_text(n as int),
            None => seq!['n', 'u', 'l', 'l'],
        },
{
    let mut s = String::new();
    match v {
        Some(n) => push_i64(&mut s, n as i64),
        None => {
            s.push('n');
            s.push('u');
            s.push('l');
            s.push('l');
        },
    }
    assert(s@ =~= match v {
        Some(n) => int_text(n as int),
        None => seq!['n', 'u', 'l', 'l'],
    });
    s
}

} // verus!
