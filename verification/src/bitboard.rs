//! [`Bitboard`]: a 64-bit set of squares, the workhorse of move generation.
//!
//! Bit `i` corresponds to square `i` in LERF order (`a1 = bit 0`). All
//! directional shifts pre-mask the wrap-around file so bits never leak across
//! the board edge. A bitboard is viewed as the set of square indices whose bit
//! is set.

use crate::bits::{
    bit, lemma_bit_and, lemma_bit_full, lemma_bit_not, lemma_bit_or, lemma_bit_single, lemma_bit_xor,
    lemma_bit_zero, lemma_bits_ext, lemma_clear_lowest, lemma_trailing_zeros, lemma_zero_from_bits,
};
use crate::types::{File, Rank, Square};
use vstd::prelude::*;

verus! {

/// A set of squares represented as a 64-bit mask.
#[derive(Clone, Copy, PartialEq, Eq, Structural, Hash, Debug)]
pub struct Bitboard(pub u64);

/// Whether square index `s` is a member of the word `x`.
pub open spec fn mem(x: u64, s: int) -> bool {
    0 <= s < 64 && bit(x, s as u64)
}

/// Number of set bits of `x` among positions `0..n`.
pub open spec fn count_below(x: u64, n: int) -> nat
    decreases n,
{
    if n <= 0 {
        0
    } else {
        count_below(x, n - 1) + if mem(x, n - 1) {
            1nat
        } else {
            0nat
        }
    }
}

/// Number of squares in the word `x`.
pub open spec fn popcount(x: u64) -> nat {
    count_below(x, 64)
}

/// The lowest member of `x` (meaningful when `x != 0`).
pub open spec fn lowest(x: u64) -> int {
    vstd::std_specs::bits::u64_trailing_zeros(x) as int
}

impl View for Bitboard {
    type V = Set<int>;

    open spec fn view(&self) -> Set<int> {
        Set::new(|s: int| mem(self.0, s))
    }
}

/// The set of all 64 squares.
pub open spec fn all_squares() -> Set<int> {
    Set::new(|s: int| 0 <= s < 64)
}

/// Two words with the same members are equal.
pub proof fn lemma_mem_ext(x: u64, y: u64)
    requires
        forall|s: int| 0 <= s < 64 ==> #[trigger] mem(x, s) == mem(y, s),
    ensures
        x == y,
{
    assert forall|i: u64| i < 64 implies #[trigger] bit(x, i) == bit(y, i) by {
        assert(mem(x, i as int) == mem(y, i as int));
    }
    lemma_bits_ext(x, y);
}

/// Membership facts for the bitwise operators.
pub proof fn lemma_mem_ops(x: u64, y: u64)
    ensures
        forall|s: int| #[trigger] mem(x & y, s) == (mem(x, s) && mem(y, s)),
        forall|s: int| #[trigger] mem(x | y, s) == (mem(x, s) || mem(y, s)),
        forall|s: int| #[trigger] mem(x ^ y, s) == (mem(x, s) != mem(y, s)),
        forall|s: int| #[trigger] mem(!x, s) == (0 <= s < 64 && !mem(x, s)),
{
    assert forall|s: int| #[trigger] mem(x & y, s) == (mem(x, s) && mem(y, s)) by {
        if 0 <= s < 64 {
            lemma_bit_and(x, y, s as u64);
        }
    }
    assert forall|s: int| #[trigger] mem(x | y, s) == (mem(x, s) || mem(y, s)) by {
        if 0 <= s < 64 {
            lemma_bit_or(x, y, s as u64);
        }
    }
    assert forall|s: int| #[trigger] mem(x ^ y, s) == (mem(x, s) != mem(y, s)) by {
        if 0 <= s < 64 {
            lemma_bit_xor(x, y, s as u64);
        }
    }
    assert forall|s: int| #[trigger] mem(!x, s) == (0 <= s < 64 && !mem(x, s)) by {
        if 0 <= s < 64 {
            lemma_bit_not(x, s as u64);
        }
    }
}

/// The single-bit word `1 << j` holds exactly square `j`.
pub proof fn lemma_mem_single(j: u64)
    requires
        j < 64,
    ensures
        forall|s: int| #[trigger] mem(1u64 << j, s) == (s == j),
{
    assert forall|s: int| #[trigger] mem(1u64 << j, s) == (s == j) by {
        if 0 <= s < 64 {
            lemma_bit_single(j, s as u64);
        }
    }
}

/// The zero word is empty, the full word holds every square.
pub proof fn lemma_mem_zero_full()
    ensures
        forall|s: int| !#[trigger] mem(0u64, s),
        forall|s: int| #[trigger] mem(0xffff_ffff_ffff_ffffu64, s) == (0 <= s < 64),
{
    assert forall|s: int| !#[trigger] mem(0u64, s) by {
        if 0 <= s < 64 {
            lemma_bit_zero(s as u64);
        }
    }
    assert forall|s: int| #[trigger] mem(0xffff_ffff_ffff_ffffu64, s) == (0 <= s < 64) by {
        if 0 <= s < 64 {
            lemma_bit_full(s as u64);
        }
    }
}

/// A word is zero exactly when it has no member.
pub proof fn lemma_zero_iff_empty(x: u64)
    ensures
        (x == 0) == (forall|s: int| !#[trigger] mem(x, s)),
{
    lemma_mem_zero_full();
    if forall|s: int| !#[trigger] mem(x, s) {
        assert forall|i: u64| i < 64 implies !#[trigger] bit(x, i) by {
            assert(!mem(x, i as int));
        }
        lemma_zero_from_bits(x);
    }
}

/// The lowest member of a non-empty word.
pub proof fn lemma_lowest(x: u64)
    requires
        x != 0,
    ensures
        0 <= lowest(x) < 64,
        mem(x, lowest(x)),
        forall|s: int| s < lowest(x) ==> !#[trigger] mem(x, s),
{
    lemma_trailing_zeros(x);
    let t = lowest(x);
    assert forall|s: int| s < t implies !#[trigger] mem(x, s) by {
        if 0 <= s {
            assert(!bit(x, s as u64));
        }
    }
}

/// Counting members below `n` only looks at positions below `n`.
pub proof fn lemma_count_below_ext(x: u64, y: u64, n: int)
    requires
        forall|s: int| 0 <= s < n ==> #[trigger] mem(x, s) == mem(y, s),
    ensures
        count_below(x, n) == count_below(y, n),
    decreases n,
{
    if n > 0 {
        lemma_count_below_ext(x, y, n - 1);
    }
}

/// Removing one member lowers the count by one.
pub proof fn lemma_count_remove(x: u64, y: u64, t: int, n: int)
    requires
        0 <= t < 64,
        mem(x, t),
        forall|s: int| #[trigger] mem(y, s) == (mem(x, s) && s != t),
    ensures
        count_below(x, n) == count_below(y, n) + (if t < n {
            1nat
        } else {
            0nat
        }),
    decreases n,
{
    if n > 0 {
        lemma_count_remove(x, y, t, n - 1);
    }
}

/// At most `n` members lie below `n`.
pub proof fn lemma_count_bound(x: u64, n: int)
    ensures
        count_below(x, n) <= if n < 0 {
            0
        } else {
            n
        },
    decreases n,
{
    if n > 0 {
        lemma_count_bound(x, n - 1);
    }
}

/// A bitboard's view is empty exactly when its word is zero.
pub proof fn lemma_empty_view(b: Bitboard)
    ensures
        (b@ == Set::<int>::empty()) == (b.0 == 0),
{
    lemma_zero_iff_empty(b.0);
    if b.0 == 0 {
        assert(b@ =~= Set::<int>::empty());
    } else {
        let s = choose|s: int| mem(b.0, s);
        assert(b@.contains(s));
    }
}

/// The empty word has count zero; a word with count zero is empty.
pub proof fn lemma_count_zero(x: u64, n: int)
    ensures
        (count_below(x, n) == 0) == (forall|s: int| 0 <= s < n ==> !#[trigger] mem(x, s)),
    decreases n,
{
    if n > 0 {
        lemma_count_zero(x, n - 1);
    }
}

impl Bitboard {
    /// A bitboard with only `square` set.
    pub fn from_square(square: Square) -> (r: Bitboard)
        requires
            square.wf(),
        ensures
            r@ == set![square.0 as int],
            forall|s: int| #[trigger] mem(r.0, s) == (s == square.0),
    {
        proof {
            lemma_mem_single(square.0 as u64);
        }
        let r = Bitboard(1u64 << square.0);
        assert(r@ =~= set![square.0 as int]);
        r
    }

    /// The mask for an entire file.
    pub fn file(file: File) -> (r: Bitboard)
        requires
            file.0 < 8,
        ensures
            forall|s: int| #[trigger] mem(r.0, s) == (0 <= s < 64 && s % 8 == file.0),
    {
        let f = file.0 as u64;
        let x = 0x0101_0101_0101_0101u64 << f;
        assert forall|s: int| #[trigger] mem(x, s) == (0 <= s < 64 && s % 8 == file.0) by {
            if 0 <= s < 64 {
                let i = s as u64;
                assert(f < 8 && i < 64 ==> (((0x0101_0101_0101_0101u64 << f) >> i) & 1u64 == 1u64)
                    == (i % 8 == f)) by (bit_vector);
            }
        }
        Bitboard(x)
    }

    /// The mask for an entire rank.
    pub fn rank(rank: Rank) -> (r: Bitboard)
        requires
            rank.0 < 8,
        ensures
            forall|s: int| #[trigger] mem(r.0, s) == (0 <= s < 64 && s / 8 == rank.0),
    {
        let k = rank.0 as u64;
        let x = 0xFFu64 << (k * 8);
        assert forall|s: int| #[trigger] mem(x, s) == (0 <= s < 64 && s / 8 == rank.0) by {
            if 0 <= s < 64 {
                let i = s as u64;
                assert(k < 8 && i < 64 ==> (((0xFFu64 << (k * 8)) >> i) & 1u64 == 1u64) == (i / 8
                    == k)) by (bit_vector);
            }
        }
        Bitboard(x)
    }

    pub fn is_empty(self) -> (r: bool)
        ensures
            r == (self@ == Set::<int>::empty()),
            r == (self.0 == 0),
    {
        proof {
            lemma_empty_view(self);
        }
        self.0 == 0
    }

    pub fn any(self) -> (r: bool)
        ensures
            r == (self@ != Set::<int>::empty()),
            r == (self.0 != 0),
    {
        proof {
            lemma_empty_view(self);
        }
        self.0 != 0
    }

    /// Number of squares in the set.
    pub fn count(self) -> (r: u32)
        ensures
            r == popcount(self.0),
    {
        let mut x = self.0;
        let mut n: u32 = 0;
        proof {
            lemma_count_bound(x, 64);
        }
        while x != 0
            invariant
                n <= 64,
                n + popcount(x) == popcount(self.0),
                popcount(x) <= 64 - n,
            decreases popcount(x),
        {
            proof {
                lemma_lowest(x);
                lemma_trailing_zeros(x);
                let t = lowest(x);
                let y = (x & ((x - 1u64) as u64)) as u64;
                assert forall|s: int| #[trigger] mem(y, s) == (mem(x, s) && s != t) by {
                    if 0 <= s < 64 {
                        lemma_clear_lowest(x, t as u64, s as u64);
                    }
                }
                lemma_count_remove(x, y, t, 64);
            }
            x = x & (x - 1);
            n = n + 1;
        }
        proof {
            lemma_mem_zero_full();
            lemma_count_zero(0u64, 64);
        }
        n
    }

    /// Whether `square` is in the set.
    pub fn has(self, square: Square) -> (r: bool)
        requires
            square.wf(),
        ensures
            r == self@.contains(square.0 as int),
            r == mem(self.0, square.0 as int),
    {
        proof {
            lemma_mem_single(square.0 as u64);
            lemma_mem_ops(self.0, 1u64 << square.0);
            lemma_zero_iff_empty(self.0 & (1u64 << square.0));
            assert(mem(self.0 & (1u64 << square.0), square.0 as int) == mem(self.0, square.0 as int));
        }
        self.0 & (1u64 << square.0) != 0
    }

    /// Whether the two sets share any square.
    pub fn intersects(self, other: Bitboard) -> (r: bool)
        ensures
            r == (self@.intersect(other@) != Set::<int>::empty()),
            r == (self.0 & other.0 != 0),
    {
        proof {
            lemma_mem_ops(self.0, other.0);
            lemma_empty_view(Bitboard(self.0 & other.0));
            assert(Bitboard(self.0 & other.0)@ =~= self@.intersect(other@));
        }
        self.0 & other.0 != 0
    }

    pub fn set(&mut self, square: Square)
        requires
            square.wf(),
        ensures
            final(self)@ == old(self)@.insert(square.0 as int),
    {
        proof {
            lemma_mem_single(square.0 as u64);
            lemma_mem_ops(self.0, 1u64 << square.0);
        }
        self.0 = self.0 | (1u64 << square.0);
        assert(self@ =~= old(self)@.insert(square.0 as int));
    }

    pub fn clear(&mut self, square: Square)
        requires
            square.wf(),
        ensures
            final(self)@ == old(self)@.remove(square.0 as int),
    {
        proof {
            lemma_mem_single(square.0 as u64);
            lemma_mem_ops(self.0, !(1u64 << square.0));
            lemma_mem_ops(1u64 << square.0, 0);
        }
        self.0 = self.0 & !(1u64 << square.0);
        assert(self@ =~= old(self)@.remove(square.0 as int));
    }

    pub fn toggle(&mut self, square: Square)
        requires
            square.wf(),
        ensures
            final(self)@ == (if old(self)@.contains(square.0 as int) {
                old(self)@.remove(square.0 as int)
            } else {
                old(self)@.insert(square.0 as int)
            }),
    {
        proof {
            lemma_mem_single(square.0 as u64);
            lemma_mem_ops(self.0, 1u64 << square.0);
        }
        self.0 = self.0 ^ (1u64 << square.0);
        proof {
            if old(self)@.contains(square.0 as int) {
                assert(self@ =~= old(self)@.remove(square.0 as int));
            } else {
                assert(self@ =~= old(self)@.insert(square.0 as int));
            }
        }
    }

    /// The least-significant set square, or `None` if empty.
    pub fn lsb(self) -> (r: Option<Square>)
        ensures
            r is None <==> self.0 == 0,
            r matches Some(sq) ==> sq.wf() && sq.0 == lowest(self.0) && self@.contains(sq.0 as int)
                && forall|s: int| s < sq.0 ==> !#[trigger] self@.contains(s),
    {
        if self.0 == 0 {
            None
        } else {
            proof {
                lemma_lowest(self.0);
            }
            Some(Square(self.0.trailing_zeros() as u8))
        }
    }

    /// The least-significant set square, assuming the set is non-empty.
    pub fn lsb_unchecked(self) -> (r: Square)
        requires
            self.0 != 0,
        ensures
            r.wf(),
            r.0 == lowest(self.0),
            self@.contains(r.0 as int),
            forall|s: int| s < r.0 ==> !#[trigger] self@.contains(s),
    {
        proof {
            lemma_lowest(self.0);
        }
        Square(self.0.trailing_zeros() as u8)
    }

    /// Remove and return the least-significant set square.
    pub fn pop_lsb(&mut self) -> (r: Option<Square>)
        ensures
            r is None <==> old(self).0 == 0,
            r is None ==> *final(self) == *old(self),
            r matches Some(sq) ==> {
                &&& sq.wf()
                &&& sq.0 == lowest(old(self).0)
                &&& old(self)@.contains(sq.0 as int)
                &&& forall|s: int| s < sq.0 ==> !#[trigger] old(self)@.contains(s)
                &&& final(self)@ == old(self)@.remove(sq.0 as int)
                &&& forall|s: int| #[trigger] mem(final(self).0, s) == (mem(old(self).0, s) && s
                    != sq.0)
                &&& popcount(final(self).0) + 1 == popcount(old(self).0)
            },
    {
        if self.0 == 0 {
            return None;
        }
        let x = self.0;
        proof {
            lemma_lowest(x);
            lemma_trailing_zeros(x);
        }
        let t = x.trailing_zeros();
        let sq = Square(t as u8);
        self.0 = x & (x - 1);
        proof {
            assert forall|s: int| #[trigger] mem(self.0, s) == (mem(x, s) && s != t) by {
                if 0 <= s < 64 {
                    lemma_clear_lowest(x, t as u64, s as u64);
                }
            }
            lemma_count_remove(x, self.0, t as int, 64);
            assert(self@ =~= old(self)@.remove(sq.0 as int));
        }
        Some(sq)
    }

    /// Whether exactly one square is set.
    pub fn is_single(self) -> (r: bool)
        ensures
            r == (self.0 != 0 && forall|s: int| #[trigger] self@.contains(s) ==> s == lowest(
                self.0,
            )),
    {
        if self.0 == 0 {
            return false;
        }
        let x = self.0;
        proof {
            lemma_lowest(x);
            lemma_trailing_zeros(x);
            let t = lowest(x);
            let y = (x & ((x - 1u64) as u64)) as u64;
            assert forall|s: int| #[trigger] mem(y, s) == (mem(x, s) && s != t) by {
                if 0 <= s < 64 {
                    lemma_clear_lowest(x, t as u64, s as u64);
                }
            }
            lemma_zero_iff_empty(y);
            if y == 0 {
                assert forall|s: int| #[trigger] self@.contains(s) implies s == t by {
                    assert(!mem(y, s));
                }
            } else {
                let s = choose|s: int| mem(y, s);
                assert(self@.contains(s) && s != t);
            }
        }
        x & (x - 1) == 0
    }

    // --- directional shifts (with edge masking) ---
    pub fn north(self) -> (r: Bitboard)
        ensures
            forall|s: int| #[trigger] mem(r.0, s) == (0 <= s < 64 && s >= 8 && mem(self.0, s - 8)),
    {
        let x = self.0;
        assert forall|s: int| #[trigger] mem(x << 8u64, s) == (0 <= s < 64 && s >= 8 && mem(x, s - 8)) by {
            if 0 <= s < 64 {
                let i = s as u64;
                assert(i < 64 ==> ((((x << 8u64) >> i) & 1u64 == 1u64) == (i >= 8 && ((x >> ((i
                    - 8u64) as u64)) & 1u64 == 1u64)))) by (bit_vector);
            }
        }
        Bitboard(x << 8u64)
    }

    pub fn south(self) -> (r: Bitboard)
        ensures
            forall|s: int| #[trigger] mem(r.0, s) == (0 <= s < 56 && mem(self.0, s + 8)),
    {
        let x = self.0;
        assert forall|s: int| #[trigger] mem(x >> 8u64, s) == (0 <= s < 56 && mem(x, s + 8)) by {
            if 0 <= s < 64 {
                let i = s as u64;
                assert(i < 64 ==> ((((x >> 8u64) >> i) & 1u64 == 1u64) == (i < 56 && ((x >> ((i
                    + 8u64) as u64)) & 1u64 == 1u64)))) by (bit_vector);
            }
        }
        Bitboard(x >> 8u64)
    }

    pub fn east(self) -> (r: Bitboard)
        ensures
            forall|s: int| #[trigger] mem(r.0, s) == (0 <= s < 64 && s % 8 != 0 && mem(self.0, s - 1)),
    {
        let x = self.0;
        let y = (x & !0x8080_8080_8080_8080u64) << 1u64;
        assert forall|s: int| #[trigger] mem(y, s) == (0 <= s < 64 && s % 8 != 0 && mem(x, s - 1)) by {
            if 0 <= s < 64 {
                let i = s as u64;
                assert(i < 64 ==> (((((x & !0x8080_8080_8080_8080u64) << 1u64) >> i) & 1u64 == 1u64)
                    == (i % 8 != 0 && ((x >> ((i - 1u64) as u64)) & 1u64 == 1u64)))) by (bit_vector);
            }
        }
        Bitboard(y)
    }

    pub fn west(self) -> (r: Bitboard)
        ensures
            forall|s: int| #[trigger] mem(r.0, s) == (0 <= s < 64 && s % 8 != 7 && mem(self.0, s + 1)),
    {
        let x = self.0;
        let y = (x & !0x0101_0101_0101_0101u64) >> 1u64;
        assert forall|s: int| #[trigger] mem(y, s) == (0 <= s < 64 && s % 8 != 7 && mem(x, s + 1)) by {
            if 0 <= s < 64 {
                let i = s as u64;
                assert(i < 64 ==> (((((x & !0x0101_0101_0101_0101u64) >> 1u64) >> i) & 1u64 == 1u64)
                    == (i % 8 != 7 && ((x >> ((i + 1u64) as u64)) & 1u64 == 1u64)))) by (bit_vector);
            }
        }
        Bitboard(y)
    }

    pub fn north_east(self) -> (r: Bitboard)
        ensures
            forall|s: int| #[trigger] mem(r.0, s) == (0 <= s < 64 && s >= 8 && s % 8 != 0 && mem(
                self.0,
                s - 9,
            )),
    {
        let x = self.0;
        let y = (x & !0x8080_8080_8080_8080u64) << 9u64;
        assert forall|s: int| #[trigger] mem(y, s) == (0 <= s < 64 && s >= 8 && s % 8 != 0 && mem(x, s - 9)) by {
            if 0 <= s < 64 {
                let i = s as u64;
                assert(i < 64 ==> (((((x & !0x8080_8080_8080_8080u64) << 9u64) >> i) & 1u64 == 1u64)
                    == (i >= 8 && i % 8 != 0 && ((x >> ((i - 9u64) as u64)) & 1u64 == 1u64))))
                    by (bit_vector);
            }
        }
        Bitboard(y)
    }

    pub fn north_west(self) -> (r: Bitboard)
        ensures
            forall|s: int| #[trigger] mem(r.0, s) == (0 <= s < 64 && s >= 8 && s % 8 != 7 && mem(
                self.0,
                s - 7,
            )),
    {
        let x = self.0;
        let y = (x & !0x0101_0101_0101_0101u64) << 7u64;
        assert forall|s: int| #[trigger] mem(y, s) == (0 <= s < 64 && s >= 8 && s % 8 != 7 && mem(x, s - 7)) by {
            if 0 <= s < 64 {
                let i = s as u64;
                assert(i < 64 ==> (((((x & !0x0101_0101_0101_0101u64) << 7u64) >> i) & 1u64 == 1u64)
                    == (i >= 8 && i % 8 != 7 && ((x >> ((i - 7u64) as u64)) & 1u64 == 1u64))))
                    by (bit_vector);
            }
        }
        Bitboard(y)
    }

    pub fn south_east(self) -> (r: Bitboard)
        ensures
            forall|s: int| #[trigger] mem(r.0, s) == (0 <= s < 56 && s % 8 != 0 && mem(self.0, s + 7)),
    {
        let x = self.0;
        let y = (x & !0x8080_8080_8080_8080u64) >> 7u64;
        assert forall|s: int| #[trigger] mem(y, s) == (0 <= s < 56 && s % 8 != 0 && mem(x, s + 7)) by {
            if 0 <= s < 64 {
                let i = s as u64;
                assert(i < 64 ==> (((((x & !0x8080_8080_8080_8080u64) >> 7u64) >> i) & 1u64 == 1u64)
                    == (i < 56 && i % 8 != 0 && ((x >> ((i + 7u64) as u64)) & 1u64 == 1u64))))
                    by (bit_vector);
            }
        }
        Bitboard(y)
    }

    pub fn south_west(self) -> (r: Bitboard)
        ensures
            forall|s: int| #[trigger] mem(r.0, s) == (0 <= s < 56 && s % 8 != 7 && mem(self.0, s + 9)),
    {
        let x = self.0;
        let y = (x & !0x0101_0101_0101_0101u64) >> 9u64;
        assert forall|s: int| #[trigger] mem(y, s) == (0 <= s < 56 && s % 8 != 7 && mem(x, s + 9)) by {
            if 0 <= s < 64 {
                let i = s as u64;
                assert(i < 64 ==> (((((x & !0x0101_0101_0101_0101u64) >> 9u64) >> i) & 1u64 == 1u64)
                    == (i < 56 && i % 8 != 7 && ((x >> ((i + 9u64) as u64)) & 1u64 == 1u64))))
                    by (bit_vector);
            }
        }
        Bitboard(y)
    }

    /// Set intersection.
    pub fn and(self, other: Bitboard) -> (r: Bitboard)
        ensures
            r.0 == self.0 & other.0,
            r@ == self@.intersect(other@),
    {
        proof {
            lemma_mem_ops(self.0, other.0);
        }
        let r = Bitboard(self.0 & other.0);
        assert(r@ =~= self@.intersect(other@));
        r
    }

    /// Set union.
    pub fn or(self, other: Bitboard) -> (r: Bitboard)
        ensures
            r.0 == self.0 | other.0,
            r@ == self@.union(other@),
    {
        proof {
            lemma_mem_ops(self.0, other.0);
        }
        let r = Bitboard(self.0 | other.0);
        assert(r@ =~= self@.union(other@));
        r
    }

    /// Set difference.
    pub fn minus(self, other: Bitboard) -> (r: Bitboard)
        ensures
            r.0 == self.0 & !other.0,
            r@ == self@.difference(other@),
    {
        proof {
            lemma_mem_ops(self.0, !other.0);
            lemma_mem_ops(other.0, 0);
        }
        let r = Bitboard(self.0 & !other.0);
        assert(r@ =~= self@.difference(other@));
        r
    }

    /// Complement within the 64 squares.
    pub fn complement(self) -> (r: Bitboard)
        ensures
            r.0 == !self.0,
            r@ == all_squares().difference(self@),
    {
        proof {
            lemma_mem_ops(self.0, 0);
        }
        let r = Bitboard(!self.0);
        assert(r@ =~= all_squares().difference(self@));
        r
    }
}

} // verus!
