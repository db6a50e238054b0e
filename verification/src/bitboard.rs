use vstd::prelude::*;
use vstd::std_specs::bits::{u64_trailing_zeros, u64_leading_zeros};
use vstd::std_specs::ops::{BitAndSpecImpl, BitOrSpecImpl, BitXorSpecImpl, NotSpecImpl};
use vstd::std_specs::convert::FromSpecImpl;
use core::ops::{BitAnd, BitOr, BitXor, Not};

use crate::bits::{bit, popcount, group_bits, lemma_bits_ext, lemma_bit_shl, lemma_bit_shr, lemma_trailing_zeros, lemma_leading_zeros, lemma_clear_lowest, count_ones, swap_bytes, spec_swap_bytes, checked_shl, checked_shr};
use crate::square::{decimal, file_char, File, Rank, Square, group_square};
use vstd::string::*;

pub mod bitboards;

verus! {

broadcast use {group_bits, group_square};

/// A set of squares, one bit per square: bit `i` stands for the square with index `i`.
#[derive(Clone, Copy, PartialEq, Eq, Structural, Hash, Debug)]
pub struct Bitboard(pub u64);

/// A file mask: the squares whose column number is below `n` (as `bitboards::files_filled`).
pub open spec fn spec_files_filled(n: int) -> u64 {
    if n <= 0 {
        0u64
    } else if n == 1 {
        0x0101_0101_0101_0101u64
    } else if n == 2 {
        0x0303_0303_0303_0303u64
    } else if n == 3 {
        0x0707_0707_0707_0707u64
    } else if n == 4 {
        0x0f0f_0f0f_0f0f_0f0fu64
    } else if n == 5 {
        0x1f1f_1f1f_1f1f_1f1fu64
    } else if n == 6 {
        0x3f3f_3f3f_3f3f_3f3fu64
    } else if n == 7 {
        0x7f7f_7f7f_7f7f_7f7fu64
    } else {
        0xffff_ffff_ffff_ffffu64
    }
}

/// The bits of `spec_files_filled(n)` are the squares whose column number is below `n`.
pub proof fn lemma_files_filled(n: int, i: int)
    requires
        0 <= n <= 8,
    ensures
        bit(spec_files_filled(n), i) == (0 <= i < 64 && i % 8 < n),
{
    if 0 <= i < 64 {
        let j = i as u64;
        let m = n as u64;
        let c = spec_files_filled(n);
        assert(j < 64 && m <= 8 && c == (if m == 0 { 0u64 } else if m == 1 { 0x0101_0101_0101_0101u64 } else if m
            == 2 { 0x0303_0303_0303_0303u64 } else if m == 3 { 0x0707_0707_0707_0707u64 } else if m == 4 {
            0x0f0f_0f0f_0f0f_0f0fu64 } else if m == 5 { 0x1f1f_1f1f_1f1f_1f1fu64 } else if m == 6 {
            0x3f3f_3f3f_3f3f_3f3fu64 } else if m == 7 { 0x7f7f_7f7f_7f7f_7f7fu64 } else {
            0xffff_ffff_ffff_ffffu64 }) ==> (((c >> j) & 1u64 == 1u64) <==> (j % 8 < m))) by (bit_vector);
    }
}

/// What `Bitboard::shift_rank` computes.
pub open spec fn spec_shift_rank(x: u64, offset: int) -> u64 {
    if offset > 0 {
        if offset * 8 < 64 {
            x << ((offset * 8) as u64)
        } else {
            0
        }
    } else {
        if -offset * 8 < 64 {
            x >> ((-offset * 8) as u64)
        } else {
            0
        }
    }
}

/// What `Bitboard::shift_file` computes.
pub open spec fn spec_shift_file(x: u64, offset: int) -> u64 {
    if offset > 0 {
        (x & spec_files_filled(8 - offset)) << (offset as u64)
    } else {
        (x & !spec_files_filled(-offset)) >> ((-offset) as u64)
    }
}

impl Bitboard {
    /// The square is in the set.
    pub open spec fn has(self, square: Square) -> bool {
        bit(self.0, square.index())
    }

    /// The set has no square.
    pub open spec fn spec_is_empty(self) -> bool {
        self.0 == 0
    }

    pub fn new(num: u64) -> (r: Bitboard)
        ensures
            r.0 == num,
    {
        Bitboard(num)
    }

    /// The set of a single square.
    pub fn from_square(square: Square) -> (r: Bitboard)
        ensures
            r.0 == 1u64 << (square.index() as u64),
            forall|i: int| #[trigger] bit(r.0, i) == (i == square.index()),
    {
        let i = square.to_index() as u64;
        Bitboard(1u64 << i)
    }

    /// The square is in the set.
    pub fn get(&self, square: Square) -> (r: bool)
        ensures
            r == self.has(square),
    {
        let i = square.to_index() as u64;
        let x = self.0;
        proof {
            assert(i < 64 ==> (((1u64 << i) & x != 0) <==> (x >> i) & 1u64 == 1u64)) by (bit_vector);
        }
        ((1u64 << i) & x) != 0
    }

    pub fn is_empty(&self) -> (r: bool)
        ensures
            r == (self.0 == 0),
    {
        self.0 == 0
    }

    /// Adds a square to the set.
    pub fn set(&mut self, square: Square)
        ensures
            final(self).0 == old(self).0 | (1u64 << (square.index() as u64)),
            forall|i: int| #[trigger] bit(final(self).0, i) == (bit(old(self).0, i) || i == square.index()),
    {
        self.0 = self.0 | Self::from_square(square).0;
    }

    /// Removes a square from the set.
    pub fn reset(&mut self, square: Square)
        ensures
            final(self).0 == old(self).0 & !(1u64 << (square.index() as u64)),
            forall|i: int| #[trigger] bit(final(self).0, i) == (bit(old(self).0, i) && i != square.index()),
    {
        self.0 = self.0 & !Self::from_square(square).0;
    }

    /// Removes `from` and adds `to`, where `from` is in the set and `to` is not.
    pub fn move_bit(&mut self, from: Square, to: Square)
        requires
            old(self).has(from),
            !old(self).has(to),
        ensures
            forall|i: int| #[trigger] bit(final(self).0, i)
                == ((bit(old(self).0, i) && i != from.index()) || i == to.index()),
    {
        let move_board = Self::from_square(from).0 | Self::from_square(to).0;
        self.0 = self.0 ^ move_board;
    }

    /// Moves every square `offset` rows up (down where negative); squares pushed off the board
    /// are lost.
    pub fn shift_rank(self, offset: i32) -> (r: Bitboard)
        requires
            -0x0fff_ffff <= offset <= 0x0fff_ffff,
        ensures
            r.0 == spec_shift_rank(self.0, offset as int),
            forall|i: int| 0 <= i < 64 ==> #[trigger] bit(r.0, i) == bit(self.0, i - offset * 8),
    {
        let result = if offset > 0 {
            checked_shl(self.0, (offset * 8) as u32)
        } else {
            checked_shr(self.0, (-offset * 8) as u32)
        };
        let r = match result {
            Some(x) => x,
            None => 0,
        };
        assert forall|i: int| 0 <= i < 64 implies #[trigger] bit(r, i) == bit(self.0, i - offset * 8) by {
            if offset > 0 && offset * 8 < 64 {
                lemma_bit_shl(self.0, (offset * 8) as u64, i);
            } else if offset <= 0 && -offset * 8 < 64 {
                lemma_bit_shr(self.0, (-offset * 8) as u64, i);
            }
        }
        Bitboard(r)
    }

    /// Moves every square `offset` columns right (left where negative); squares pushed off the
    /// board are lost.
    pub fn shift_file(self, offset: i32) -> (r: Bitboard)
        requires
            -8 <= offset <= 8,
        ensures
            r.0 == spec_shift_file(self.0, offset as int),
            forall|i: int| 0 <= i < 64 ==> #[trigger] bit(r.0, i)
                == (0 <= i % 8 - offset < 8 && bit(self.0, i - offset)),
    {
        if offset > 0 {
            let mask = bitboards::files_filled((8 - offset) as usize);
            let r = (self.0 & mask.0) << (offset as u64);
            assert forall|i: int| 0 <= i < 64 implies #[trigger] bit(r, i)
                == (0 <= i % 8 - offset < 8 && bit(self.0, i - offset)) by {
                lemma_bit_shl(self.0 & mask.0, offset as u64, i);
                lemma_files_filled(8 - offset, i - offset);
            }
            Bitboard(r)
        } else {
            let mask = !bitboards::files_filled((-offset) as usize).0;
            let r = (self.0 & mask) >> ((-offset) as u64);
            assert forall|i: int| 0 <= i < 64 implies #[trigger] bit(r, i)
                == (0 <= i % 8 - offset < 8 && bit(self.0, i - offset)) by {
                lemma_bit_shr(self.0 & mask, (-offset) as u64, i);
                lemma_files_filled(-offset as int, i - offset);
            }
            Bitboard(r)
        }
    }

    /// The squares of the set in increasing order, a1 first.
    pub fn squares(self) -> (r: Vec<Square>)
        ensures
            forall|k: int| 0 <= k < r@.len() ==> self.has(#[trigger] r@[k]),
            forall|k: int, l: int| 0 <= k < l < r@.len() ==> (#[trigger] r@[k]).index() < (#[trigger] r@[l]).index(),
            forall|s: Square| self.has(s) ==> r@.contains(s),
            r@.len() == popcount(self.0),
    {
        let mut it = SquareIterator(self);
        let mut r: Vec<Square> = Vec::new();
        loop
            invariant
                forall|k: int| 0 <= k < r@.len() ==> self.has(#[trigger] r@[k]),
                forall|k: int, l: int| 0 <= k < l < r@.len() ==> (#[trigger] r@[k]).index() < (#[trigger] r@[l]).index(),
                forall|s: Square| self.has(s) ==> r@.contains(s) || it.0.has(s),
                forall|s: Square| it.0.has(s) ==> self.has(s),
                forall|s: Square, k: int| 0 <= k < r@.len() && #[trigger] it.0.has(s) ==> (#[trigger] r@[k]).index() < s.index(),
                r@.len() + popcount(it.0.0) == popcount(self.0),
            ensures
                forall|s: Square| self.has(s) ==> r@.contains(s),
                r@.len() == popcount(self.0),
            decreases popcount(it.0.0),
        {
            let ghost before = it.0;
            match it.next() {
                None => {
                    break;
                },
                Some(s) => {
                    let ghost r0 = r@;
                    r.push(s);
                    assert forall|t: Square| self.has(t) implies r@.contains(t) || it.0.has(t) by {
                        if t == s {
                            assert(r@[r@.len() - 1] == s);
                        } else if r0.contains(t) {
                            let k = choose|k: int| 0 <= k < r0.len() && r0[k] == t;
                            assert(r@[k] == t);
                        }
                    }
                },
            }
        }
        r
    }

    /// The set square with the lowest index.
    pub fn first_set(self) -> (r: Square)
        requires
            self.0 != 0,
        ensures
            self.has(r),
            forall|i: int| 0 <= i < r.index() ==> !#[trigger] bit(self.0, i),
            r.index() == u64_trailing_zeros(self.0),
    {
        proof {
            lemma_trailing_zeros(self.0);
        }
        Square::from_index(self.0.trailing_zeros() as u8)
    }

    /// The set square with the highest index.
    pub fn last_set(self) -> (r: Square)
        requires
            self.0 != 0,
        ensures
            self.has(r),
            forall|i: int| r.index() < i < 64 ==> !#[trigger] bit(self.0, i),
            r.index() == 63 - u64_leading_zeros(self.0),
    {
        proof {
            lemma_leading_zeros(self.0);
        }
        Square::from_index(63 - self.0.leading_zeros() as u8)
    }

    /// The number of squares in the set.
    pub fn count(self) -> (r: u8)
        ensures
            r == popcount(self.0),
    {
        proof {
            lemma_popcount_bound(self.0);
        }
        count_ones(self.0) as u8
    }

    /// The set mirrored top to bottom: rank 1 swaps with rank 8, rank 2 with rank 7, and so on.
    pub fn reverse(self) -> (r: Bitboard)
        ensures
            r.0 == spec_swap_bytes(self.0),
            forall|i: int| 0 <= i < 64 ==> #[trigger] bit(r.0, i) == bit(self.0, (7 - i / 8) * 8 + i % 8),
            spec_swap_bytes(r.0) == self.0,
            popcount(r.0) == popcount(self.0),
    {
        proof {
            law_reverse_mirrors(self);
            law_reverse_keeps_count(self);
        }
        Bitboard(swap_bytes(self.0))
    }

    /// Every subset of the set, in increasing order of their words, the empty set first and the
    /// whole set last.
    pub fn powerset(self) -> (r: Vec<Bitboard>)
        ensures
            forall|k: int| 0 <= k < r@.len() ==> (#[trigger] r@[k]).0 & !self.0 == 0,
            forall|k: int, l: int| 0 <= k < l < r@.len() ==> (#[trigger] r@[k]).0 < (#[trigger] r@[l]).0,
            forall|y: u64| y & !self.0 == 0 ==> r@.contains(Bitboard(y)),
    {
        let m = self.0;
        let mut x: u64 = 0;
        let mut r: Vec<Bitboard> = Vec::new();
        proof {
            assert(0u64 & !m == 0) by (bit_vector);
        }
        loop
            invariant
                x & !m == 0,
                forall|k: int| 0 <= k < r@.len() ==> (#[trigger] r@[k]).0 & !m == 0,
                forall|k: int, l: int| 0 <= k < l < r@.len() ==> (#[trigger] r@[k]).0 < (#[trigger] r@[l]).0,
                forall|k: int| 0 <= k < r@.len() ==> (#[trigger] r@[k]).0 < x,
                forall|y: u64| y & !m == 0 && y < x ==> r@.contains(Bitboard(y)),
            ensures
                x == m,
                forall|k: int| 0 <= k < r@.len() ==> (#[trigger] r@[k]).0 & !m == 0,
                forall|k: int, l: int| 0 <= k < l < r@.len() ==> (#[trigger] r@[k]).0 < (#[trigger] r@[l]).0,
                forall|k: int| 0 <= k < r@.len() ==> (#[trigger] r@[k]).0 < x,
                forall|y: u64| y & !m == 0 && y < x ==> r@.contains(Bitboard(y)),
            decreases m - x,
        {
            let result = x;
            let next = x.wrapping_sub(m) & m;
            proof {
                lemma_next_subset(x, m);
                lemma_subset_le(next, m);
            }
            if next != 0 {
                let ghost r0 = r@;
                r.push(Bitboard(result));
                assert forall|y: u64| y & !m == 0 && y < next implies r@.contains(Bitboard(y)) by {
                    if y == result {
                        assert(r@[r@.len() - 1] == Bitboard(y));
                    } else {
                        assert(y < x);
                        assert(r0.contains(Bitboard(y)));
                        let k = choose|k: int| 0 <= k < r0.len() && r0[k] == Bitboard(y);
                        assert(r@[k] == Bitboard(y));
                    }
                }
                x = next;
            } else {
                break;
            }
        }
        let ghost r0 = r@;
        r.push(self);
        assert forall|y: u64| y & !m == 0 implies r@.contains(Bitboard(y)) by {
            if y == m {
                assert(r@[r@.len() - 1] == Bitboard(y));
            } else {
                lemma_subset_le(y, m);
                assert(r0.contains(Bitboard(y)));
                let k = choose|k: int| 0 <= k < r0.len() && r0[k] == Bitboard(y);
                assert(r@[k] == Bitboard(y));
            }
        }
        r
    }
}

/// A subset of `m` is at most `m`.
proof fn lemma_subset_le(y: u64, m: u64)
    requires
        y & !m == 0,
    ensures
        y <= m,
{
    assert(y & !m == 0 ==> y <= m) by (bit_vector);
}

/// `(x - m) & m` (wrapping) is the next subset of `m` after the subset `x`.
proof fn lemma_next_subset(x: u64, m: u64)
    requires
        x & !m == 0,
    ensures
        (x.wrapping_sub(m) & m) & !m == 0,
        x == m <==> x.wrapping_sub(m) & m == 0,
        x != m ==> x < x.wrapping_sub(m) & m,
        forall|y: u64| y & !m == 0 && x < y ==> x.wrapping_sub(m) & m <= y,
{
    let w = x.wrapping_sub(m);
    assert(w == (if x < m { (x - m + 0x1_0000_0000_0000_0000) as u64 } else { (x - m) as u64 }));
    assert(w == (if x < m { (x - m + 0x1_0000_0000_0000_0000) as u64 } else { (x - m) as u64 }) && x & !m == 0
        ==> (w & m) & !m == 0 && (x == m <==> w & m == 0) && (x != m ==> x < w & m)) by (bit_vector);
    assert forall|y: u64| y & !m == 0 && x < y implies w & m <= y by {
        assert(w == (if x < m { (x - m + 0x1_0000_0000_0000_0000) as u64 } else { (x - m) as u64 }) && x & !m
            == 0 && y & !m == 0 && x < y ==> w & m <= y) by (bit_vector);
    }
}

/// Reversing a set mirrors it top to bottom: a square is in the reversed set exactly when the
/// square of the same file on the mirrored rank (rank 1 for rank 8, and so on) is in the set;
/// so reversing twice gives the set back.
pub proof fn law_reverse_mirrors(b: Bitboard)
    ensures
        forall|i: int| 0 <= i < 64 ==> #[trigger] bit(spec_swap_bytes(b.0), i) == bit(b.0, (7 - i / 8) * 8 + i % 8),
        spec_swap_bytes(spec_swap_bytes(b.0)) == b.0,
{
    assert forall|x: u64, i: int| 0 <= i < 64 implies #[trigger] bit(spec_swap_bytes(x), i) == bit(x, (7 - i / 8) * 8 + i % 8) by {
        let j = i as u64;
        assert(j < 64 ==> (((spec_swap_bytes(x) >> j) & 1u64 == 1u64) <==> ((x >> (((7 - j / 8) * 8 + j % 8) as u64))
            & 1u64 == 1u64))) by (bit_vector);
    }
    let y = spec_swap_bytes(spec_swap_bytes(b.0));
    assert forall|i: int| #[trigger] bit(y, i) == bit(b.0, i) by {
        if 0 <= i < 64 {
            let k = (7 - i / 8) * 8 + i % 8;
            assert(bit(spec_swap_bytes(b.0), k) == bit(b.0, (7 - k / 8) * 8 + k % 8));
            assert((7 - k / 8) * 8 + k % 8 == i);
        }
    }
    lemma_bits_ext(y, b.0);
}

/// The number of set bits of `x` among its lowest `n`.
pub open spec fn low_count(x: u64, n: int) -> nat
    decreases n,
{
    if n <= 0 {
        0
    } else {
        low_count(x, n - 1) + if bit(x, n - 1) {
            1nat
        } else {
            0nat
        }
    }
}

/// No bit of zero is set.
proof fn lemma_low_count_zero(n: int)
    ensures
        low_count(0, n) == 0,
    decreases n,
{
    if n > 0 {
        lemma_low_count_zero(n - 1);
    }
}

/// Counting the lowest `n + 1` bits of `x` is counting bit 0 and the lowest `n` of `x / 2`.
proof fn lemma_low_count_half(x: u64, n: int)
    requires
        0 <= n <= 63,
    ensures
        low_count(x, n + 1) == (x % 2) as nat + low_count(x / 2, n),
    decreases n,
{
    crate::bits::lemma_half_bits(x, 0);
    assert(bit(x, 0) == (x % 2 == 1));
    assert(low_count(x, 1) == (x % 2) as nat) by {
        assert(low_count(x, 0) == 0);
    }
    if n > 0 {
        lemma_low_count_half(x, n - 1);
        crate::bits::lemma_half_bits(x, (n - 1) as u64);
        assert(bit(x / 2, n - 1) == bit(x, n));
        assert(low_count(x, n + 1) == low_count(x, n) + if bit(x, n) {
            1nat
        } else {
            0nat
        });
        assert(low_count(x / 2, n) == low_count(x / 2, n - 1) + if bit(x / 2, n - 1) {
            1nat
        } else {
            0nat
        });
    }
}

/// The number of set bits is the count over all 64 of them.
proof fn lemma_popcount_low_count(x: u64)
    ensures
        popcount(x) == low_count(x, 64),
    decreases x,
{
    if x == 0 {
        lemma_low_count_zero(64);
    } else {
        lemma_popcount_low_count(x / 2);
        lemma_low_count_half(x, 63);
        crate::bits::lemma_half_bits(x, 0);
        assert(!bit(x / 2, 63));
        assert(low_count(x / 2, 64) == low_count(x / 2, 63));
    }
}

/// The set bits of rank `r`.
pub open spec fn rank_count(x: u64, r: int) -> int {
    let b = |i: int|
        if bit(x, 8 * r + i) {
            1int
        } else {
            0int
        };
    b(0) + b(1) + b(2) + b(3) + b(4) + b(5) + b(6) + b(7)
}

/// The count over the lowest `8 * (r + 1)` bits adds rank `r` to that over the lowest `8 * r`.
proof fn lemma_low_count_rank(x: u64, r: int)
    requires
        0 <= r < 8,
    ensures
        low_count(x, 8 * r + 8) == low_count(x, 8 * r) + rank_count(x, r),
{
    reveal_with_fuel(low_count, 9);
}

/// The square on file `f` of rank `r` is in the reversed set exactly when the one on file `f`
/// of rank `7 - r` is in the set.
proof fn lemma_mirror_bit(b: Bitboard, r: int, f: int)
    requires
        0 <= r < 8,
        0 <= f < 8,
    ensures
        bit(spec_swap_bytes(b.0), 8 * r + f) == bit(b.0, 8 * (7 - r) + f),
{
    law_reverse_mirrors(b);
    let i = 8 * r + f;
    assert(i / 8 == r && i % 8 == f);
    assert(bit(spec_swap_bytes(b.0), i) == bit(b.0, (7 - i / 8) * 8 + i % 8));
}

/// Reversing a set keeps its number of squares.
pub proof fn law_reverse_keeps_count(b: Bitboard)
    ensures
        popcount(spec_swap_bytes(b.0)) == popcount(b.0),
{
    let x = b.0;
    let y = spec_swap_bytes(x);
    law_reverse_mirrors(b);
    lemma_popcount_low_count(x);
    lemma_popcount_low_count(y);
    assert forall|r: int| 0 <= r < 8 implies #[trigger] rank_count(y, r) == rank_count(x, 7 - r) by {
        lemma_mirror_bit(b, r, 0);
        lemma_mirror_bit(b, r, 1);
        lemma_mirror_bit(b, r, 2);
        lemma_mirror_bit(b, r, 3);
        lemma_mirror_bit(b, r, 4);
        lemma_mirror_bit(b, r, 5);
        lemma_mirror_bit(b, r, 6);
        lemma_mirror_bit(b, r, 7);
        assert(bit(y, 8 * r + 0) == bit(x, 8 * (7 - r) + 0));
        assert(bit(y, 8 * r + 1) == bit(x, 8 * (7 - r) + 1));
        assert(bit(y, 8 * r + 2) == bit(x, 8 * (7 - r) + 2));
        assert(bit(y, 8 * r + 3) == bit(x, 8 * (7 - r) + 3));
        assert(bit(y, 8 * r + 4) == bit(x, 8 * (7 - r) + 4));
        assert(bit(y, 8 * r + 5) == bit(x, 8 * (7 - r) + 5));
        assert(bit(y, 8 * r + 6) == bit(x, 8 * (7 - r) + 6));
        assert(bit(y, 8 * r + 7) == bit(x, 8 * (7 - r) + 7));
    }
    assert forall|w: u64| #[trigger] low_count(w, 64) == rank_count(w, 0) + rank_count(w, 1) + rank_count(w, 2)
        + rank_count(w, 3) + rank_count(w, 4) + rank_count(w, 5) + rank_count(w, 6) + rank_count(w, 7) by {
        lemma_low_count_rank(w, 0);
        lemma_low_count_rank(w, 1);
        lemma_low_count_rank(w, 2);
        lemma_low_count_rank(w, 3);
        lemma_low_count_rank(w, 4);
        lemma_low_count_rank(w, 5);
        lemma_low_count_rank(w, 6);
        lemma_low_count_rank(w, 7);
        assert(low_count(w, 0) == 0);
    }
    assert(low_count(x, 64) == low_count(y, 64)) by {
        assert(rank_count(y, 0) == rank_count(x, 7));
        assert(rank_count(y, 1) == rank_count(x, 6));
        assert(rank_count(y, 2) == rank_count(x, 5));
        assert(rank_count(y, 3) == rank_count(x, 4));
        assert(rank_count(y, 4) == rank_count(x, 3));
        assert(rank_count(y, 5) == rank_count(x, 2));
        assert(rank_count(y, 6) == rank_count(x, 1));
        assert(rank_count(y, 7) == rank_count(x, 0));
    }
}

/// A word has at most 64 set bits.
pub proof fn lemma_popcount_bound(x: u64)
    ensures
        popcount(x) <= 64,
{
    assert(pow2_64(64) == 0x1_0000_0000_0000_0000) by {
        reveal_with_fuel(pow2_64, 65);
    }
    lemma_popcount_bound_rec(x, 64);
}

proof fn lemma_popcount_bound_rec(x: u64, n: nat)
    requires
        n <= 64,
        x < pow2_64(n),
    ensures
        popcount(x) <= n,
    decreases n,
{
    if x == 0 {
    } else {
        assert(n > 0);
        lemma_popcount_bound_rec(x / 2, (n - 1) as nat);
    }
}

/// `2^n` for `n <= 64`.
pub open spec fn pow2_64(n: nat) -> int
    decreases n,
{
    if n == 0 {
        1
    } else {
        2 * pow2_64((n - 1) as nat)
    }
}

/// Visits the squares of a set from the lowest index to the highest.
pub struct SquareIterator(pub Bitboard);

impl SquareIterator {
    pub fn new(bitboard: Bitboard) -> (r: SquareIterator)
        ensures
            r.0 == bitboard,
    {
        SquareIterator(bitboard)
    }

    /// Takes the lowest square out of the remaining set.
    pub fn next(&mut self) -> (r: Option<Square>)
        ensures
            old(self).0.0 == 0 <==> r is None,
            r matches Some(s) ==> {
                &&& old(self).0.has(s)
                &&& forall|i: int| 0 <= i < s.index() ==> !#[trigger] bit(old(self).0.0, i)
                &&& forall|i: int| #[trigger] bit(final(self).0.0, i) == (bit(old(self).0.0, i) && i != s.index())
                &&& popcount(final(self).0.0) + 1 == popcount(old(self).0.0)
            },
            r is None ==> *final(self) == *old(self),
    {
        if self.0.0 == 0 {
            return None;
        }
        let first_square = self.0.first_set();
        proof {
            lemma_clear_lowest(self.0.0);
            lemma_popcount_clear_lowest(self.0.0);
        }
        self.0.0 = self.0.0 & (self.0.0 - 1);
        Some(first_square)
    }
}

/// Clearing the lowest set bit lowers the count of set bits by one.
proof fn lemma_popcount_clear_lowest(x: u64)
    requires
        x != 0,
    ensures
        popcount(x & ((x - 1) as u64)) + 1 == popcount(x),
    decreases x,
{
    let y = (x - 1) as u64;
    if x % 2 == 1 {
        assert(x % 2 == 1 ==> (x & y) / 2 == x / 2 && (x & y) % 2 == 0) by (bit_vector)
            requires
                y == x - 1,
        ;
        assert(popcount(x & y) == popcount((x & y) / 2));
    } else {
        let h = x / 2;
        assert(x != 0 && x % 2 == 0 ==> h != 0 && (x & y) / 2 == h & ((h - 1) as u64) && (x & y) % 2 == 0) by (bit_vector)
            requires
                y == x - 1,
                h == x / 2,
        ;
        lemma_popcount_clear_lowest(h);
    }
}

impl Default for Bitboard {
    fn default() -> (r: Bitboard)
        ensures
            r.0 == 0,
    {
        Bitboard(0)
    }
}

impl BitAnd for Bitboard {
    type Output = Bitboard;

    fn bitand(self, rhs: Bitboard) -> (r: Bitboard) {
        Bitboard(self.0 & rhs.0)
    }
}

impl BitAndSpecImpl for Bitboard {
    open spec fn obeys_bitand_spec() -> bool {
        true
    }

    open spec fn bitand_req(self, rhs: Bitboard) -> bool {
        true
    }

    open spec fn bitand_spec(self, rhs: Bitboard) -> Bitboard {
        Bitboard(self.0 & rhs.0)
    }
}

impl BitOr for Bitboard {
    type Output = Bitboard;

    fn bitor(self, rhs: Bitboard) -> (r: Bitboard) {
        Bitboard(self.0 | rhs.0)
    }
}

impl BitOrSpecImpl for Bitboard {
    open spec fn obeys_bitor_spec() -> bool {
        true
    }

    open spec fn bitor_req(self, rhs: Bitboard) -> bool {
        true
    }

    open spec fn bitor_spec(self, rhs: Bitboard) -> Bitboard {
        Bitboard(self.0 | rhs.0)
    }
}

impl BitXor for Bitboard {
    type Output = Bitboard;

    fn bitxor(self, rhs: Bitboard) -> (r: Bitboard) {
        Bitboard(self.0 ^ rhs.0)
    }
}

impl BitXorSpecImpl for Bitboard {
    open spec fn obeys_bitxor_spec() -> bool {
        true
    }

    open spec fn bitxor_req(self, rhs: Bitboard) -> bool {
        true
    }

    open spec fn bitxor_spec(self, rhs: Bitboard) -> Bitboard {
        Bitboard(self.0 ^ rhs.0)
    }
}

impl Not for Bitboard {
    type Output = Bitboard;

    fn not(self) -> (r: Bitboard) {
        Bitboard(!self.0)
    }
}

impl NotSpecImpl for Bitboard {
    open spec fn obeys_not_spec() -> bool {
        true
    }

    open spec fn not_req(self) -> bool {
        true
    }

    open spec fn not_spec(self) -> Bitboard {
        Bitboard(!self.0)
    }
}

impl From<Square> for Bitboard {
    fn from(square: Square) -> (r: Bitboard) {
        Bitboard::from_square(square)
    }
}

impl FromSpecImpl<Square> for Bitboard {
    open spec fn obeys_from_spec() -> bool {
        true
    }

    open spec fn from_spec(square: Square) -> Bitboard {
        Bitboard(1u64 << (square.index() as u64))
    }
}

impl From<Bitboard> for u64 {
    fn from(bitboard: Bitboard) -> (r: u64) {
        bitboard.0
    }
}

impl FromSpecImpl<Bitboard> for u64 {
    open spec fn obeys_from_spec() -> bool {
        true
    }

    open spec fn from_spec(bitboard: Bitboard) -> u64 {
        bitboard.0
    }
}

/// The file letters, each followed by a space.
pub open spec fn spaced_files() -> Seq<char> {
    Seq::new(16, |i: int| if i % 2 == 0 { file_char(i / 2) } else { ' ' })
}

/// The line of a bitboard's picture for row `r`: the rank number, `X` or `.` for each square,
/// each followed by a space, and the rank number again.
pub open spec fn bitboard_row(x: u64, r: int) -> Seq<char> {
    decimal((r + 1) as nat) + seq![' '] + Seq::new(
        16,
        |i: int|
            if i % 2 == 1 {
                ' '
            } else if bit(x, 8 * r + i / 2) {
                'X'
            } else {
                '.'
            },
    ) + decimal((r + 1) as nat) + seq!['\n']
}

/// The lines of a bitboard's picture for the rows from the eighth down to row `r`.
pub open spec fn bitboard_rows(x: u64, r: int) -> Seq<char>
    decreases 8 - r,
{
    if r >= 7 {
        bitboard_row(x, 7)
    } else {
        bitboard_rows(x, r + 1) + bitboard_row(x, r)
    }
}

/// The picture of a bitboard: file letters above and below, rank numbers on both sides, the
/// eighth rank on top.
pub open spec fn spec_bitboard_string(x: u64) -> Seq<char> {
    seq![' ', ' '] + spaced_files() + seq!['\n'] + bitboard_rows(x, 0) + seq![' ', ' '] + spaced_files()
}

impl Bitboard {
    /// A picture of the set: a grid with `X` for each square of the set and `.` for the others,
    /// the eighth rank on top.
    pub fn to_string(&self) -> (r: String)
        ensures
            r@ == spec_bitboard_string(self.0),
    {
        proof {
            reveal_strlit("  ");
            reveal_strlit("\n");
            reveal_strlit(" ");
        }
        let mut files_str = String::new();
        let files = File::values();
        let mut f: usize = 0;
        while f < 8
            invariant
                f <= 8,
                forall|i: int| 0 <= i < 8 ==> (#[trigger] files@[i]).index() == i,
                files_str@ == spaced_files().take(2 * f as int),
            decreases 8 - f,
        {
            proof {
                reveal_strlit(" ");
            }
            let letter = files[f].to_string();
            files_str.append(letter.as_str());
            files_str.append(" ");
            assert(files_str@ =~= spaced_files().take(2 * (f + 1) as int));
            f = f + 1;
        }
        assert(files_str@ =~= spaced_files());
        let mut s = String::new();
        s.append("  ");
        s.append(files_str.as_str());
        s.append("\n");
        let ghost head = s@;
        let mut rank: u8 = 8;
        while rank > 0
            invariant
                rank <= 8,
                s@ == head + (if rank == 8 {
                    Seq::<char>::empty()
                } else {
                    bitboard_rows(self.0, rank as int)
                }),
            decreases rank,
        {
            rank = rank - 1;
            proof {
                reveal_strlit(" ");
                reveal_strlit("\n");
                reveal_strlit("X ");
                reveal_strlit(". ");
            }
            let ghost start = s@;
            let ghost cells = Seq::new(
                16,
                |i: int|
                    if i % 2 == 1 {
                        ' '
                    } else if bit(self.0, 8 * rank + i / 2) {
                        'X'
                    } else {
                        '.'
                    },
            );
            let number = Rank::from_index(rank).to_string();
            s.append(number.as_str());
            s.append(" ");
            let mut file: u8 = 0;
            while file < 8
                invariant
                    file <= 8,
                    rank < 8,
                    cells == Seq::new(
                        16,
                        |i: int|
                            if i % 2 == 1 {
                                ' '
                            } else if bit(self.0, 8 * rank + i / 2) {
                                'X'
                            } else {
                                '.'
                            },
                    ),
                    s@ == start + decimal((rank + 1) as nat) + seq![' '] + cells.take(2 * file as int),
                decreases 8 - file,
            {
                proof {
                    reveal_strlit("X ");
                    reveal_strlit(". ");
                }
                let square = Square::from_index(rank * 8 + file);
                if self.get(square) {
                    s.append("X ");
                } else {
                    s.append(". ");
                }
                assert(s@ =~= start + decimal((rank + 1) as nat) + seq![' '] + cells.take(2 * (file + 1) as int));
                file = file + 1;
            }
            assert(cells.take(16) =~= cells);
            s.append(number.as_str());
            s.append("\n");
            assert(s@ =~= start + bitboard_row(self.0, rank as int));
            assert(s@ =~= head + bitboard_rows(self.0, rank as int));
        }
        s.append("  ");
        s.append(files_str.as_str());
        assert(s@ =~= spec_bitboard_string(self.0));
        s
    }
}

} // verus!
