//! Fixed sets of squares.
use vstd::prelude::*;

use crate::bitboard::{Bitboard, lemma_files_filled, spec_files_filled};
use crate::bits::{bit, group_bits};
use crate::square::{File, Rank, Square, group_square};

verus! {

broadcast use {group_bits, group_square};

/// No square.
pub fn empty() -> (r: Bitboard)
    ensures
        r.0 == 0,
{
    Bitboard(0)
}

/// Every square.
pub fn full() -> (r: Bitboard)
    ensures
        r.0 == 0xffff_ffff_ffff_ffffu64,
{
    Bitboard(0xffff_ffff_ffff_ffffu64)
}

/// The squares whose column number is below `n`.
pub fn files_filled(n: usize) -> (r: Bitboard)
    requires
        n <= 8,
    ensures
        r.0 == spec_files_filled(n as int),
        forall|i: int| #[trigger] bit(r.0, i) == (0 <= i < 64 && i % 8 < n),
{
    let r = match n {
        0 => Bitboard(0),
        1 => Bitboard(0x0101_0101_0101_0101u64),
        2 => Bitboard(0x0303_0303_0303_0303u64),
        3 => Bitboard(0x0707_0707_0707_0707u64),
        4 => Bitboard(0x0f0f_0f0f_0f0f_0f0fu64),
        5 => Bitboard(0x1f1f_1f1f_1f1f_1f1fu64),
        6 => Bitboard(0x3f3f_3f3f_3f3f_3f3fu64),
        7 => Bitboard(0x7f7f_7f7f_7f7f_7f7fu64),
        _ => Bitboard(0xffff_ffff_ffff_ffffu64),
    };
    assert forall|i: int| #[trigger] bit(r.0, i) == (0 <= i < 64 && i % 8 < n) by {
        lemma_files_filled(n as int, i);
    }
    r
}

/// The squares whose row number is below `n`.
pub fn ranks_filled(n: usize) -> (r: Bitboard)
    requires
        n <= 8,
    ensures
        forall|i: int| #[trigger] bit(r.0, i) == (0 <= i < 64 && i / 8 < n),
{
    let x: u64 = if n == 8 {
        0xffff_ffff_ffff_ffffu64
    } else {
        let m = n as u64;
        assert(m < 8 ==> (1u64 << (m * 8)) >= 1) by (bit_vector);
        (1u64 << (m * 8)) - 1
    };
    assert forall|i: int| #[trigger] bit(x, i) == (0 <= i < 64 && i / 8 < n) by {
        if 0 <= i < 64 {
            let j = i as u64;
            let m = n as u64;
            assert(j < 64 && m <= 8 && x == (if m == 8 { 0xffff_ffff_ffff_ffffu64 } else { ((1u64 << (m * 8)) - 1) as u64 })
                ==> (((x >> j) & 1u64 == 1u64) <==> j / 8 < m)) by (bit_vector);
        }
    }
    Bitboard(x)
}

/// The squares of a file.
pub fn files(file: File) -> (r: Bitboard)
    ensures
        forall|i: int| #[trigger] bit(r.0, i) == (0 <= i < 64 && i % 8 == file.index()),
{
    let f = file.to_index() as u64;
    let x = 0x0101_0101_0101_0101u64 << f;
    assert forall|i: int| #[trigger] bit(x, i) == (0 <= i < 64 && i % 8 == f) by {
        if 0 <= i < 64 {
            let j = i as u64;
            assert(j < 64 && f < 8 ==> (((((0x0101_0101_0101_0101u64 << f) >> j) & 1u64) == 1u64) <==> j % 8 == f)) by (bit_vector);
        }
    }
    Bitboard(x)
}

/// The squares of a rank.
pub fn ranks(rank: Rank) -> (r: Bitboard)
    ensures
        forall|i: int| #[trigger] bit(r.0, i) == (0 <= i < 64 && i / 8 == rank.index()),
{
    let k = rank.to_index() as u64;
    let x = 0xffu64 << (k * 8);
    assert forall|i: int| #[trigger] bit(x, i) == (0 <= i < 64 && i / 8 == k) by {
        if 0 <= i < 64 {
            let j = i as u64;
            assert(j < 64 && k < 8 ==> ((((0xffu64 << (k * 8)) >> j) & 1u64 == 1u64) <==> j / 8 == k)) by (bit_vector);
        }
    }
    Bitboard(x)
}

/// The diagonal (lower left to upper right) through a square.
pub fn diagonals(square: Square) -> (r: Bitboard)
    ensures
        forall|i: int| #[trigger] bit(r.0, i)
            == (0 <= i < 64 && i / 8 - i % 8 == square.rank_index() - square.file_index()),
{
    let sq = square.to_index() as u64;
    let file = sq % 8;
    let rank = sq / 8;
    let d = 0x8040_2010_0804_0201u64;
    proof {
        assert forall|j: int| #[trigger] bit(d, j) == (0 <= j < 64 && j % 8 == j / 8) by {
            if 0 <= j < 64 {
                let k = j as u64;
                assert(k < 64 ==> ((((0x8040_2010_0804_0201u64 >> k) & 1u64) == 1u64) <==> k % 8 == k / 8)) by (bit_vector);
            }
        }
    }
    if file >= rank {
        let x = d >> ((file - rank) * 8);
        assert forall|i: int| #[trigger] bit(x, i) == (0 <= i < 64 && i / 8 - i % 8 == rank - file) by {
            let k = (file - rank) as int;
            assert((i + 8 * k) % 8 == i % 8 && (i + 8 * k) / 8 == i / 8 + k) by {
                assert(i + 8 * k == 8 * (i / 8 + k) + i % 8);
            }
        }
        Bitboard(x)
    } else {
        let x = d << ((rank - file) * 8);
        assert forall|i: int| #[trigger] bit(x, i) == (0 <= i < 64 && i / 8 - i % 8 == rank - file) by {
            let k = (rank - file) as int;
            assert((i - 8 * k) % 8 == i % 8 && (i - 8 * k) / 8 == i / 8 - k) by {
                assert(i - 8 * k == 8 * (i / 8 - k) + i % 8);
            }
        }
        Bitboard(x)
    }
}

/// The anti-diagonal (lower right to upper left) through a square.
pub fn antidiagonals(square: Square) -> (r: Bitboard)
    ensures
        forall|i: int| #[trigger] bit(r.0, i)
            == (0 <= i < 64 && i / 8 + i % 8 == square.rank_index() + square.file_index()),
{
    let sq = square.to_index() as u64;
    let file = sq % 8;
    let rank = sq / 8;
    let d = 0x0102_0408_1020_4080u64;
    proof {
        assert forall|j: int| #[trigger] bit(d, j) == (0 <= j < 64 && j % 8 + j / 8 == 7) by {
            if 0 <= j < 64 {
                let k = j as u64;
                assert(k < 64 ==> ((((0x0102_0408_1020_4080u64 >> k) & 1u64) == 1u64) <==> k % 8 + k / 8 == 7)) by (bit_vector);
            }
        }
    }
    if 7 >= file + rank {
        let x = d >> ((7 - file - rank) * 8);
        assert forall|i: int| #[trigger] bit(x, i) == (0 <= i < 64 && i / 8 + i % 8 == rank + file) by {
            let k = (7 - file - rank) as int;
            assert((i + 8 * k) % 8 == i % 8 && (i + 8 * k) / 8 == i / 8 + k) by {
                assert(i + 8 * k == 8 * (i / 8 + k) + i % 8);
            }
        }
        Bitboard(x)
    } else {
        let x = d << ((file + rank - 7) * 8);
        assert forall|i: int| #[trigger] bit(x, i) == (0 <= i < 64 && i / 8 + i % 8 == rank + file) by {
            let k = (file + rank - 7) as int;
            assert((i - 8 * k) % 8 == i % 8 && (i - 8 * k) / 8 == i / 8 - k) by {
                assert(i - 8 * k == 8 * (i / 8 - k) + i % 8);
            }
        }
        Bitboard(x)
    }
}

} // verus!
