//! Bit-level facts about `u64` words, stated over [`bit`] and proved with the
//! bit-vector solver. Every set-level statement about bitboards rests on these.

use vstd::prelude::*;

verus! {

/// Whether bit `i` of `x` is set.
pub open spec fn bit(x: u64, i: u64) -> bool {
    (x >> i) & 1u64 == 1u64
}

/// The bitwise operators act bit by bit, and the constant words hold the
/// bits their values say.
proof fn lemma_bitwise(x: u64, y: u64, i: u64, j: u64)
    by (bit_vector)
    requires
        i < 64,
        j < 64,
    ensures
        (((x & y) >> i) & 1u64 == 1u64) == (((x >> i) & 1u64 == 1u64) && ((y >> i) & 1u64 == 1u64)),
        (((x | y) >> i) & 1u64 == 1u64) == (((x >> i) & 1u64 == 1u64) || ((y >> i) & 1u64 == 1u64)),
        (((x ^ y) >> i) & 1u64 == 1u64) == (((x >> i) & 1u64 == 1u64) != ((y >> i) & 1u64 == 1u64)),
        (((!x) >> i) & 1u64 == 1u64) == !((x >> i) & 1u64 == 1u64),
        (((1u64 << j) >> i) & 1u64 == 1u64) == (i == j),
        !(((0u64 >> i) & 1u64) == 1u64),
        ((0xffff_ffff_ffff_ffffu64 >> i) & 1u64) == 1u64,
{
}

pub proof fn lemma_bit_and(x: u64, y: u64, i: u64)
    requires
        i < 64,
    ensures
        bit(x & y, i) == (bit(x, i) && bit(y, i)),
{
    lemma_bitwise(x, y, i, 0);
}

pub proof fn lemma_bit_or(x: u64, y: u64, i: u64)
    requires
        i < 64,
    ensures
        bit(x | y, i) == (bit(x, i) || bit(y, i)),
{
    lemma_bitwise(x, y, i, 0);
}

pub proof fn lemma_bit_xor(x: u64, y: u64, i: u64)
    requires
        i < 64,
    ensures
        bit(x ^ y, i) == (bit(x, i) != bit(y, i)),
{
    lemma_bitwise(x, y, i, 0);
}

pub proof fn lemma_bit_not(x: u64, i: u64)
    requires
        i < 64,
    ensures
        bit(!x, i) == !bit(x, i),
{
    lemma_bitwise(x, 0, i, 0);
}

pub proof fn lemma_bit_single(j: u64, i: u64)
    requires
        i < 64,
        j < 64,
    ensures
        bit(1u64 << j, i) == (i == j),
{
    lemma_bitwise(0, 0, i, j);
}

pub proof fn lemma_bit_zero(i: u64)
    requires
        i < 64,
    ensures
        !bit(0u64, i),
{
    lemma_bitwise(0, 0, i, 0);
}

pub proof fn lemma_bit_full(i: u64)
    requires
        i < 64,
    ensures
        bit(0xffff_ffff_ffff_ffffu64, i),
{
    lemma_bitwise(0, 0, i, 0);
}

/// Xor with zero and with itself.
pub proof fn lemma_xor_basics(a: u64)
    by (bit_vector)
    ensures
        a ^ 0u64 == a,
        0u64 ^ a == a,
        a ^ a == 0u64,
{
}

/// The lowest set bit of a non-zero word is at its trailing-zero count, and
/// clearing it with `x & (x - 1)` removes exactly that bit.
pub proof fn lemma_clear_lowest(x: u64, t: u64, i: u64)
    requires
        x != 0,
        t < 64,
        bit(x, t),
        forall|j: u64| j < t ==> !#[trigger] bit(x, j),
        i < 64,
    ensures
        bit(x & ((x - 1u64) as u64), i) == (bit(x, i) && i != t),
{
    if i < t {
        assert(!bit(x, i));
    }
    assert(x != 0 && t < 64 && i < 64 && ((x >> t) & 1u64 == 1u64) && (x << ((64u64 - t) as u64)) == 0u64
        ==> ((((x & ((x - 1u64) as u64)) >> i) & 1u64 == 1u64) == (((x >> i) & 1u64 == 1u64) && i != t)))
        by (bit_vector);
    lemma_low_bits_zero(x, t);
}

/// If no bit below `t` is set, shifting left by `64 - t` clears the word.
pub proof fn lemma_low_bits_zero(x: u64, t: u64)
    requires
        t < 64,
        forall|j: u64| j < t ==> !#[trigger] bit(x, j),
    ensures
        (x << ((64u64 - t) as u64)) == 0u64,
    decreases t,
{
    if t == 0 {
        assert(x << 64u64 == 0u64) by (bit_vector);
    } else {
        let y = x >> t;
        // x with all bits at or above t equals (x >> t) << t
        assert(!bit(x, ((t - 1) as u64)));
        lemma_low_bits_zero(x, ((t - 1) as u64));
        let t1 = ((t - 1) as u64);
        assert(t1 < 63 && (x << ((64u64 - t1) as u64)) == 0u64 && !(((x >> t1) & 1u64) == 1u64) ==> (x
            << ((63u64 - t1) as u64)) == 0u64) by (bit_vector);
    }
}

/// Two words agreeing on every bit are equal.
pub proof fn lemma_bits_ext(x: u64, y: u64)
    requires
        forall|i: u64| i < 64 ==> #[trigger] bit(x, i) == bit(y, i),
    ensures
        x == y,
{
    assert((x ^ y) == 0u64) by {
        assert forall|i: u64| i < 64 implies !#[trigger] bit(x ^ y, i) by {
            lemma_bit_xor(x, y, i);
        }
        lemma_zero_from_bits(x ^ y);
    }
    assert((x ^ y) == 0u64 ==> x == y) by (bit_vector);
}

/// A word with no set bit is zero.
pub proof fn lemma_zero_from_bits(z: u64)
    requires
        forall|i: u64| i < 64 ==> !#[trigger] bit(z, i),
    ensures
        z == 0,
{
    assert(!bit(z, 0)) by {}
    lemma_low_bits_zero(z, 63);
    assert(!bit(z, 63));
    assert((z << 1u64) == 0u64 && !(((z >> 63u64) & 1u64) == 1u64) ==> z == 0u64) by (bit_vector);
}

/// The lowest set bit of `x` is at `x.trailing_zeros()`.
pub proof fn lemma_trailing_zeros(x: u64)
    requires
        x != 0,
    ensures
        vstd::std_specs::bits::u64_trailing_zeros(x) < 64,
        bit(x, vstd::std_specs::bits::u64_trailing_zeros(x) as u64),
        forall|j: u64|
            j < vstd::std_specs::bits::u64_trailing_zeros(x) ==> !#[trigger] bit(x, j),
{
    vstd::std_specs::bits::axiom_u64_trailing_zeros(x);
    let t = vstd::std_specs::bits::u64_trailing_zeros(x);
    assert forall|j: u64| j < t implies !#[trigger] bit(x, j) by {
        assert((x >> j) & 1u64 == 0u64);
    }
}

} // verus!
