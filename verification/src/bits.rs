//! Facts about the bits of a `u64`, stated one bit at a time.
use vstd::prelude::*;
use vstd::std_specs::bits::{u64_trailing_zeros, u64_leading_zeros, axiom_u64_trailing_zeros, axiom_u64_leading_zeros};

verus! {

/// Bit `i` of `x` is set (false for any `i` outside `0..64`).
pub open spec fn bit(x: u64, i: int) -> bool {
    0 <= i < 64 && (x >> (i as u64)) & 1u64 == 1u64
}

/// The number of set bits of `x`.
pub open spec fn popcount(x: u64) -> nat
    decreases x,
{
    if x == 0 {
        0
    } else {
        (x % 2) as nat + popcount(x / 2)
    }
}

pub broadcast proof fn lemma_bit_or(x: u64, y: u64, i: int)
    ensures
        #[trigger] bit(x | y, i) == (bit(x, i) || bit(y, i)),
{
    if 0 <= i < 64 {
        let j = i as u64;
        assert(((x | y) >> j) & 1u64 == 1u64 <==> ((x >> j) & 1u64 == 1u64 || (y >> j) & 1u64 == 1u64)) by (bit_vector);
    }
}

pub broadcast proof fn lemma_bit_and(x: u64, y: u64, i: int)
    ensures
        #[trigger] bit(x & y, i) == (bit(x, i) && bit(y, i)),
{
    if 0 <= i < 64 {
        let j = i as u64;
        assert(((x & y) >> j) & 1u64 == 1u64 <==> ((x >> j) & 1u64 == 1u64 && (y >> j) & 1u64 == 1u64)) by (bit_vector);
    }
}

pub broadcast proof fn lemma_bit_xor(x: u64, y: u64, i: int)
    ensures
        #[trigger] bit(x ^ y, i) == (bit(x, i) != bit(y, i)),
{
    if 0 <= i < 64 {
        let j = i as u64;
        assert(((x ^ y) >> j) & 1u64 == 1u64 <==> ((x >> j) & 1u64 == 1u64) != ((y >> j) & 1u64 == 1u64)) by (bit_vector);
    }
}

pub broadcast proof fn lemma_bit_not(x: u64, i: int)
    ensures
        #[trigger] bit(!x, i) == (0 <= i < 64 && !bit(x, i)),
{
    if 0 <= i < 64 {
        let j = i as u64;
        assert(j < 64 ==> (((!x) >> j) & 1u64 == 1u64 <==> !((x >> j) & 1u64 == 1u64))) by (bit_vector);
    }
}

pub broadcast proof fn lemma_bit_shl(x: u64, s: u64, i: int)
    requires
        s < 64,
    ensures
        #[trigger] bit(x << s, i) == (s <= i < 64 && bit(x, i - s)),
{
    if 0 <= i < 64 {
        let j = i as u64;
        if s <= j {
            let k = (j - s) as u64;
            assert(s < 64 && j < 64 && s <= j && k == j - s ==> (((x << s) >> j) & 1u64 == 1u64 <==> (x >> k) & 1u64 == 1u64)) by (bit_vector);
        } else {
            assert(s < 64 && j < 64 && j < s ==> ((x << s) >> j) & 1u64 == 0u64) by (bit_vector);
        }
    }
}

pub broadcast proof fn lemma_bit_shr(x: u64, s: u64, i: int)
    requires
        s < 64,
    ensures
        #[trigger] bit(x >> s, i) == (0 <= i && bit(x, i + s)),
{
    if 0 <= i < 64 {
        let j = i as u64;
        if j + s < 64 {
            let k = (j + s) as u64;
            assert(s < 64 && j < 64 && k == j + s && k < 64 ==> (((x >> s) >> j) & 1u64 == 1u64 <==> (x >> k) & 1u64 == 1u64)) by (bit_vector);
        } else {
            assert(s < 64 && j < 64 && j + s >= 64 ==> ((x >> s) >> j) & 1u64 == 0u64) by (bit_vector);
        }
    }
}

pub broadcast proof fn lemma_bit_one(s: u64, i: int)
    requires
        s < 64,
    ensures
        #[trigger] bit(1u64 << s, i) == (i == s),
{
    if 0 <= i < 64 {
        let j = i as u64;
        assert(s < 64 && j < 64 ==> (((1u64 << s) >> j) & 1u64 == 1u64 <==> j == s)) by (bit_vector);
    }
}

/// The bits of the words with none and with every bit set.
proof fn lemma_constant_words(j: u64)
    by (bit_vector)
    ensures
        (0u64 >> j) & 1u64 == 0u64,
        j < 64 ==> (0xffff_ffff_ffff_ffffu64 >> j) & 1u64 == 1u64,
{
}

pub broadcast proof fn lemma_bit_zero(i: int)
    ensures
        !#[trigger] bit(0u64, i),
{
    if 0 <= i < 64 {
        lemma_constant_words(i as u64);
    }
}

pub broadcast proof fn lemma_bit_max(i: int)
    ensures
        #[trigger] bit(0xffff_ffff_ffff_ffffu64, i) == (0 <= i < 64),
{
    if 0 <= i < 64 {
        lemma_constant_words(i as u64);
    }
}

/// Halving a word moves each bit down by one: bit 0 is the remainder, the top bit is cleared.
pub proof fn lemma_half_bits(x: u64, j: u64)
    by (bit_vector)
    ensures
        j < 63 ==> ((((x / 2) >> j) & 1u64 == 1u64) <==> ((x >> ((j + 1) as u64)) & 1u64 == 1u64)),
        ((x / 2) >> 63u64) & 1u64 == 0u64,
        ((x >> 0u64) & 1u64 == 1u64) <==> (x % 2 == 1),
{
}

pub broadcast group group_bits {
    lemma_bit_or,
    lemma_bit_and,
    lemma_bit_xor,
    lemma_bit_not,
    lemma_bit_shl,
    lemma_bit_shr,
    lemma_bit_one,
    lemma_bit_zero,
    lemma_bit_max,
}

/// Two words with the same bits are equal.
pub proof fn lemma_bits_ext(x: u64, y: u64)
    requires
        forall|i: int| 0 <= i < 64 ==> #[trigger] bit(x, i) == bit(y, i),
    ensures
        x == y,
{
    let z = x ^ y;
    axiom_u64_trailing_zeros(z);
    if z != 0 {
        let t = u64_trailing_zeros(z) as u64;
        assert(bit(z, t as int));
        lemma_bit_xor(x, y, t as int);
        assert(bit(x, t as int) == bit(y, t as int));
        assert(false);
    }
    assert(x ^ y == 0 ==> x == y) by (bit_vector);
}

/// Two words share a set bit exactly when their conjunction is nonzero.
pub proof fn lemma_and_nonzero(x: u64, y: u64)
    ensures
        (x & y != 0) == exists|i: int| 0 <= i < 64 && #[trigger] bit(x, i) && bit(y, i),
{
    let z = x & y;
    if z != 0 {
        lemma_trailing_zeros(z);
        let t = u64_trailing_zeros(z) as int;
        lemma_bit_and(x, y, t);
        assert(bit(x, t) && bit(y, t));
    }
    if exists|i: int| 0 <= i < 64 && #[trigger] bit(x, i) && bit(y, i) {
        let i = choose|i: int| 0 <= i < 64 && #[trigger] bit(x, i) && bit(y, i);
        lemma_bit_and(x, y, i);
        lemma_bit_zero(i);
    }
}

/// The lowest set bit of a nonzero word is at `trailing_zeros`.
pub proof fn lemma_trailing_zeros(x: u64)
    requires
        x != 0,
    ensures
        u64_trailing_zeros(x) < 64,
        bit(x, u64_trailing_zeros(x) as int),
        forall|i: int| 0 <= i < u64_trailing_zeros(x) ==> !#[trigger] bit(x, i),
{
    axiom_u64_trailing_zeros(x);
    assert forall|i: int| 0 <= i < u64_trailing_zeros(x) implies !#[trigger] bit(x, i) by {
        let j = i as u64;
        assert((x >> j) & 1u64 == 0u64);
    }
}

/// The highest set bit of a nonzero word is at `63 - leading_zeros`.
pub proof fn lemma_leading_zeros(x: u64)
    requires
        x != 0,
    ensures
        u64_leading_zeros(x) < 64,
        bit(x, 63 - u64_leading_zeros(x)),
        forall|i: int| 63 - u64_leading_zeros(x) < i < 64 ==> !#[trigger] bit(x, i),
{
    axiom_u64_leading_zeros(x);
    let lz = u64_leading_zeros(x) as u64;
    assert((x >> ((63 - lz) as u64)) & 1u64 != 0u64);
    assert(((x >> ((63 - lz) as u64)) & 1u64 != 0u64) ==> ((x >> ((63 - lz) as u64)) & 1u64 == 1u64)) by (bit_vector);
    assert forall|i: int| 63 - u64_leading_zeros(x) < i < 64 implies !#[trigger] bit(x, i) by {
        let j = i as u64;
        assert((x >> j) & 1u64 == 0u64);
    }
}

/// Clearing the lowest set bit with `x & (x - 1)`.
pub proof fn lemma_clear_lowest(x: u64)
    requires
        x != 0,
    ensures
        forall|i: int| #[trigger] bit(x & ((x - 1) as u64), i) == (bit(x, i) && i != u64_trailing_zeros(x)),
{
    lemma_trailing_zeros(x);
    axiom_u64_trailing_zeros(x);
    let t = u64_trailing_zeros(x) as u64;
    let y = (x - 1) as u64;
    let u = (64 - t) as u64;
    assert(x << u == 0);
    assert forall|i: int| #[trigger] bit(x & y, i) == (bit(x, i) && i != t) by {
        if 0 <= i < 64 {
            let j = i as u64;
            assert(x != 0 && t < 64 && (x >> t) & 1u64 == 1u64 && u == 64 - t && x << u == 0 && y == x - 1 && j < 64
                ==> ((((x & y) >> j) & 1u64 == 1u64) <==> ((x >> j) & 1u64 == 1u64 && j != t))) by (bit_vector);
        }
    }
}

/// The number of set bits.
pub(crate) fn count_ones(x: u64) -> (r: u32)
    ensures
        r == popcount(x),
{
    proof {
        crate::bitboard::lemma_popcount_bound(x);
    }
    let mut y = x;
    let mut c: u32 = 0;
    while y != 0
        invariant
            c + popcount(y) == popcount(x),
            popcount(x) <= 64,
        decreases y,
    {
        c = c + (y % 2) as u32;
        y = y / 2;
    }
    c
}

/// `x << n`, or `None` where `n` is not below 64.
pub(crate) fn checked_shl(x: u64, n: u32) -> (r: Option<u64>)
    ensures
        r == (if n < 64 { Some(x << n) } else { None::<u64> }),
{
    if n < 64 {
        Some(x << n)
    } else {
        None
    }
}

/// `x >> n`, or `None` where `n` is not below 64.
pub(crate) fn checked_shr(x: u64, n: u32) -> (r: Option<u64>)
    ensures
        r == (if n < 64 { Some(x >> n) } else { None::<u64> }),
{
    if n < 64 {
        Some(x >> n)
    } else {
        None
    }
}

/// The bytes of `x` in reverse order.
pub open spec fn spec_swap_bytes(x: u64) -> u64 {
    ((x & 0xff) << 56u64) | (((x >> 8u64) & 0xff) << 48u64) | (((x >> 16u64) & 0xff) << 40u64) | (((x
        >> 24u64) & 0xff) << 32u64) | (((x >> 32u64) & 0xff) << 24u64) | (((x >> 40u64) & 0xff)
        << 16u64) | (((x >> 48u64) & 0xff) << 8u64) | ((x >> 56u64) & 0xff)
}

/// The bytes of `x` in reverse order.
pub(crate) fn swap_bytes(x: u64) -> (r: u64)
    ensures
        r == spec_swap_bytes(x),
{
    ((x & 0xff) << 56u64) | (((x >> 8u64) & 0xff) << 48u64) | (((x >> 16u64) & 0xff) << 40u64) | (((x >> 24u64)
        & 0xff) << 32u64) | (((x >> 32u64) & 0xff) << 24u64) | (((x >> 40u64) & 0xff) << 16u64) | (((x >> 48u64)
        & 0xff) << 8u64) | ((x >> 56u64) & 0xff)
}

} // verus!
