//! Magic numbers: multipliers that map each blocker set of a sliding piece to its own slot of a
//! small table.
use vstd::prelude::*;

use crate::bitboard::{bitboards, Bitboard};
use crate::bits::{bit, count_ones, group_bits, popcount};
use crate::move_generation::pieces::{bishop_moves, rook_moves};
use crate::move_generation::rays::{bishop_attack, rook_attack};
use crate::square::{File, Rank, Square, group_square};

pub mod lookup;

verus! {

broadcast use {group_bits, group_square};

/// A sliding piece whose moves magic numbers look up.
#[derive(Clone, Copy, PartialEq, Eq, Structural, Debug)]
pub enum MagicPiece {
    Bishop,
    Rook,
}

/// The squares where a piece on `s` could be blocked: its lines without their last squares
/// and without `s`.
pub open spec fn in_mask(piece: MagicPiece, s: int, t: int) -> bool {
    &&& 0 <= t < 64
    &&& t != s
    &&& match piece {
        MagicPiece::Rook => (t % 8 == s % 8 && t / 8 != 0 && t / 8 != 7) || (t / 8 == s / 8 && t % 8 != 0
            && t % 8 != 7),
        MagicPiece::Bishop => (t / 8 - t % 8 == s / 8 - s % 8 || t / 8 + t % 8 == s / 8 + s % 8) && t / 8 != 0
            && t / 8 != 7 && t % 8 != 0 && t % 8 != 7,
    }
}

/// A piece on `s` attacks `t`, with the squares of `occ` occupied.
pub open spec fn magic_attack(piece: MagicPiece, s: int, occ: u64, t: int) -> bool {
    match piece {
        MagicPiece::Rook => rook_attack(s, occ, t),
        MagicPiece::Bishop => bishop_attack(s, occ, t),
    }
}

/// The slot of the table for the blockers `occ`: the top `index_bits` bits of the product with
/// the magic number.
pub open spec fn spec_transform(occ: u64, magic: u64, index_bits: u8) -> u64 {
    (((occ as nat * magic as nat) % 0x1_0000_0000_0000_0000) as u64) >> (((64 - index_bits) as u32 % 64) as u32)
}

/// The magic number sends no two of the listed blocker sets with different moves to one slot.
pub open spec fn no_clash(magic: u64, occupancy_moves: Seq<(Bitboard, Bitboard)>, bits: u8) -> bool {
    forall|i: int, j: int|
        0 <= i < occupancy_moves.len() && 0 <= j < occupancy_moves.len() && #[trigger] spec_transform(
            occupancy_moves[i].0.0,
            magic,
            bits,
        ) == #[trigger] spec_transform(occupancy_moves[j].0.0, magic, bits) ==> occupancy_moves[i].1
            == occupancy_moves[j].1
}

/// What `valid_magic` accepts: a product with the mask that has at least six bits in its top
/// byte, and no clash.
pub open spec fn spec_valid_magic(magic: u64, mask: u64, occupancy_moves: Seq<(Bitboard, Bitboard)>, bits: u8) -> bool {
    &&& popcount((((mask as nat * magic as nat) % 0x1_0000_0000_0000_0000) as u64) & 0xff00_0000_0000_0000) >= 6
    &&& no_clash(magic, occupancy_moves, bits)
}

/// The squares where a piece on `square` could be blocked (see `in_mask`).
pub fn mask(piece: MagicPiece, square: Square) -> (r: Bitboard)
    ensures
        forall|t: int| #[trigger] bit(r.0, t) == in_mask(piece, square.index(), t),
{
    let file = File::from_index(square.to_index() % 8);
    let rank = Rank::from_index(square.to_index() / 8);
    let own = Bitboard::from_square(square);
    match piece {
        MagicPiece::Rook => {
            let files = bitboards::files(file).0 & !bitboards::ranks(Rank::_1).0 & !bitboards::ranks(Rank::_8).0;
            let ranks = bitboards::ranks(rank).0 & !bitboards::files(File::A).0 & !bitboards::files(File::H).0;
            Bitboard((files | ranks) & !own.0)
        },
        MagicPiece::Bishop => {
            let border = bitboards::ranks(Rank::_1).0 | bitboards::ranks(Rank::_8).0 | bitboards::files(File::A).0
                | bitboards::files(File::H).0;
            let r = (bitboards::diagonals(square).0 ^ bitboards::antidiagonals(square).0) & !border;
            let ghost s = square.index();
            assert forall|t: int| #[trigger] bit(r, t) == in_mask(piece, s, t) by {
                if 0 <= t < 64 && t == s {
                    assert(t / 8 - t % 8 == s / 8 - s % 8 && t / 8 + t % 8 == s / 8 + s % 8);
                }
            }
            Bitboard(r)
        },
    }
}

/// The squares a piece on `square` attacks, worked out square by square.
pub fn calc_moves(piece: MagicPiece, square: Square, occupancy: Bitboard) -> (r: Bitboard)
    ensures
        forall|t: int| #[trigger] bit(r.0, t) == magic_attack(piece, square.index(), occupancy.0, t),
{
    match piece {
        MagicPiece::Rook => rook_moves(square, occupancy),
        MagicPiece::Bishop => bishop_moves(square, occupancy),
    }
}

/// With at most 16 index bits, a slot is below `0x10000`.
pub(crate) proof fn lemma_transform_bound(occ: u64, magic: u64, bits: u8)
    requires
        1 <= bits <= 16,
    ensures
        spec_transform(occ, magic, bits) < 0x10000,
{
    let p = ((occ as nat * magic as nat) % 0x1_0000_0000_0000_0000) as u64;
    let s = ((64 - bits) as u32 % 64) as u32;
    assert(48 <= s < 64 ==> p >> s < 0x10000) by (bit_vector);
}

/// The table slot for the blockers (see `spec_transform`).
pub fn transform(occupied: Bitboard, magic: u64, index_bits: u8) -> (r: usize)
    requires
        index_bits <= 64,
    ensures
        r == spec_transform(occupied.0, magic, index_bits) as usize,
        1 <= index_bits <= 16 ==> r < 0x10000 && r == spec_transform(occupied.0, magic, index_bits),
{
    let product = occupied.0.wrapping_mul(magic);
    let shifted = product.wrapping_shr(64 - index_bits as u32);
    proof {
        let s = ((64 - index_bits) as u32 % 64) as u32;
        if 1 <= index_bits <= 16 {
            assert(48 <= s < 64 ==> product >> s < 0x10000) by (bit_vector);
        }
    }
    shifted as usize
}

/// The magic number gives each listed blocker set a slot of its own, unless two sets share
/// their moves; and its product with the mask has at least six bits in the top byte.
pub fn valid_magic(magic: u64, mask: Bitboard, occupancy_moves: &Vec<(Bitboard, Bitboard)>, bits: u8) -> (r: bool)
    requires
        1 <= bits <= 16,
    ensures
        r == spec_valid_magic(magic, mask.0, occupancy_moves@, bits),
{
    let top = mask.0.wrapping_mul(magic) & 0xff00_0000_0000_0000u64;
    if count_ones(top) < 6 {
        return false;
    }
    let mut used: Vec<Option<Bitboard>> = Vec::new();
    let mut k: usize = 0;
    while k < 0x10000
        invariant
            k <= 0x10000,
            used@.len() == k,
            forall|i: int| 0 <= i < k ==> used@[i] is None,
        decreases 0x10000 - k,
    {
        used.push(None);
        k = k + 1;
    }
    let ghost list = occupancy_moves@;
    let mut i: usize = 0;
    while i < occupancy_moves.len()
        invariant
            1 <= bits <= 16,
            i <= list.len(),
            list == occupancy_moves@,
            used@.len() == 0x10000,
            forall|idx: int| 0 <= idx < 0x10000 && #[trigger] used@[idx] is Some ==> exists|k: int|
                0 <= k < i && spec_transform(list[k].0.0, magic, bits) == idx && used@[idx] == Some(list[k].1),
            forall|k: int| 0 <= k < i ==> used@[spec_transform(#[trigger] list[k].0.0, magic, bits) as int] == Some(list[k].1),
            forall|a: int, b: int| 0 <= a < i && 0 <= b < i && #[trigger] spec_transform(list[a].0.0, magic, bits)
                == #[trigger] spec_transform(list[b].0.0, magic, bits) ==> list[a].1 == list[b].1,
        decreases list.len() - i,
    {
        let (occupancy, moves) = occupancy_moves[i];
        let index = transform(occupancy, magic, bits);
        match used[index] {
            None => {
                used.set(index, Some(moves));
            },
            Some(existing) => {
                if existing.0 != moves.0 {
                    // Indices clash
                    proof {
                        let k = choose|k: int| 0 <= k < i && spec_transform(list[k].0.0, magic, bits) == index
                            && used@[index as int] == Some(list[k].1);
                        assert(spec_transform(list[k].0.0, magic, bits) == spec_transform(list[i as int].0.0, magic, bits));
                    }
                    return false;
                }
            },
        }
        proof {
            assert forall|k: int| 0 <= k < i + 1 implies used@[spec_transform(#[trigger] list[k].0.0, magic, bits) as int] == Some(list[k].1) by {
                lemma_transform_bound(list[k].0.0, magic, bits);
                if k < i && spec_transform(list[k].0.0, magic, bits) == index {
                    assert(spec_transform(list[k].0.0, magic, bits) == spec_transform(list[i as int].0.0, magic, bits));
                }
            }
            assert forall|a: int, b: int| 0 <= a < i + 1 && 0 <= b < i + 1 && #[trigger] spec_transform(list[a].0.0, magic, bits)
                == #[trigger] spec_transform(list[b].0.0, magic, bits) implies list[a].1 == list[b].1 by {
                if a == i && b < i {
                    assert(used@[spec_transform(list[b].0.0, magic, bits) as int] == Some(list[b].1));
                }
                if b == i && a < i {
                    assert(used@[spec_transform(list[a].0.0, magic, bits) as int] == Some(list[a].1));
                }
            }
            assert forall|idx: int| 0 <= idx < 0x10000 && #[trigger] used@[idx] is Some implies exists|k: int|
                0 <= k < i + 1 && spec_transform(list[k].0.0, magic, bits) == idx && used@[idx] == Some(list[k].1) by {
                if idx != index {
                }
            }
        }
        i = i + 1;
    }
    true
}


/// What a magic number found for a piece on `s` guarantees: its product with the mask has at
/// least six bits in the top byte, and any two blocker sets within the mask that it sends to
/// one slot give the piece the same moves.
pub open spec fn spec_magic_ok(piece: MagicPiece, s: int, mask: u64, magic: u64, bits: u8) -> bool {
    &&& popcount((((mask as nat * magic as nat) % 0x1_0000_0000_0000_0000) as u64) & 0xff00_0000_0000_0000) >= 6
    &&& forall|y1: u64, y2: u64|
        y1 & !mask == 0 && y2 & !mask == 0 && #[trigger] spec_transform(y1, magic, bits) == #[trigger] spec_transform(
            y2,
            magic,
            bits,
        ) ==> forall|t: int| magic_attack(piece, s, y1, t) == magic_attack(piece, s, y2, t)
}

/// `rand::random::<u64>()`: a word from the thread's random number generator; nothing is
/// claimed of its value.
#[verifier::external_body]
fn random_u64() -> u64 {
    rand::random::<u64>()
}

/// Tries up to `tries` random magic numbers (each the conjunction of three random words, so
/// that few bits are set) for a piece on `square`, with `bits` index bits (by default as many
/// as the mask has squares), and returns the first that works with the number of index bits.
/// Gives `None` at once where the number of index bits is not between 1 and 16.
pub fn find_magic(piece: MagicPiece, square: Square, bits: Option<u8>, tries: u64) -> (r: Option<(u8, u64)>)
    ensures
        tries == 0 ==> r is None,
        !(1 <= (match bits {
            Some(n) => n as int,
            None => popcount(mask_spec(piece, square)) as int,
        }) <= 16) ==> r is None,
        r is Some ==> {
            &&& r.unwrap().0 == (match bits {
                Some(n) => n as int,
                None => popcount(mask_spec(piece, square)) as int,
            })
            &&& spec_magic_ok(piece, square.index(), mask_spec(piece, square), r.unwrap().1, r.unwrap().0)
        },
{
    let mask = mask(piece, square);
    proof {
        lemma_mask_spec(piece, square, mask.0);
    }
    let index_bits = match bits {
        Some(b) => b,
        None => mask.count(),
    };
    if index_bits < 1 || index_bits > 16 {
        return None;
    }
    let subsets = mask.powerset();
    let mut occupancy_moves: Vec<(Bitboard, Bitboard)> = Vec::new();
    let mut i: usize = 0;
    while i < subsets.len()
        invariant
            i <= subsets@.len(),
            occupancy_moves@.len() == i,
            forall|k: int| 0 <= k < i ==> (#[trigger] occupancy_moves@[k]).0 == subsets@[k]
                && forall|t: int| bit(occupancy_moves@[k].1.0, t) == magic_attack(piece, square.index(), subsets@[k].0, t),
        decreases subsets@.len() - i,
    {
        let occupancy = subsets[i];
        let moves = calc_moves(piece, square, occupancy);
        occupancy_moves.push((occupancy, moves));
        i = i + 1;
    }
    let mut n: u64 = 0;
    while n < tries
        invariant
            1 <= index_bits <= 16,
            index_bits == (match bits {
                Some(b) => b as int,
                None => popcount(mask_spec(piece, square)) as int,
            }),
            mask.0 == mask_spec(piece, square),
            occupancy_moves@.len() == subsets@.len(),
            forall|y: u64| y & !mask.0 == 0 ==> subsets@.contains(Bitboard(y)),
            forall|k: int| 0 <= k < subsets@.len() ==> (#[trigger] occupancy_moves@[k]).0 == subsets@[k]
                && forall|t: int| bit(occupancy_moves@[k].1.0, t) == magic_attack(piece, square.index(), subsets@[k].0, t),
        decreases tries - n,
    {
        // Small number of zeroes -> better magics
        let magic = random_u64() & random_u64() & random_u64();
        if valid_magic(magic, mask, &occupancy_moves, index_bits) {
            proof {
                assert forall|y1: u64, y2: u64|
                    y1 & !mask.0 == 0 && y2 & !mask.0 == 0 && #[trigger] spec_transform(y1, magic, index_bits)
                        == #[trigger] spec_transform(y2, magic, index_bits) implies forall|t: int|
                        magic_attack(piece, square.index(), y1, t) == magic_attack(piece, square.index(), y2, t) by {
                    assert(subsets@.contains(Bitboard(y1)));
                    assert(subsets@.contains(Bitboard(y2)));
                    let k1 = choose|k: int| 0 <= k < subsets@.len() && subsets@[k] == Bitboard(y1);
                    let k2 = choose|k: int| 0 <= k < subsets@.len() && subsets@[k] == Bitboard(y2);
                    assert(occupancy_moves@[k1].0 == subsets@[k1]);
                    assert(occupancy_moves@[k2].0 == subsets@[k2]);
                    assert(occupancy_moves@[k1].0.0 == y1 && occupancy_moves@[k2].0.0 == y2);
                    assert(spec_transform(occupancy_moves@[k1].0.0, magic, index_bits) == spec_transform(occupancy_moves@[k2].0.0, magic, index_bits));
                    assert(no_clash(magic, occupancy_moves@, index_bits));
                    assert(occupancy_moves@[k1].1 == occupancy_moves@[k2].1);
                    assert forall|t: int| magic_attack(piece, square.index(), y1, t) == magic_attack(piece, square.index(), y2, t) by {
                        assert(bit(occupancy_moves@[k1].1.0, t) == magic_attack(piece, square.index(), subsets@[k1].0, t));
                        assert(bit(occupancy_moves@[k2].1.0, t) == magic_attack(piece, square.index(), subsets@[k2].0, t));
                    }
                }
            }
            assert(spec_valid_magic(magic, mask.0, occupancy_moves@, index_bits));
            assert(spec_magic_ok(piece, square.index(), mask_spec(piece, square), magic, index_bits));
            return Some((index_bits, magic));
        }
        n = n + 1;
    }
    None
}

/// The mask of a piece on a square, as a word (see `in_mask`).
pub open spec fn mask_spec(piece: MagicPiece, square: Square) -> u64 {
    choose|x: u64| #[trigger] is_mask_word(piece, square, x)
}

/// The word's bits are the squares of the mask.
pub open spec fn is_mask_word(piece: MagicPiece, square: Square, x: u64) -> bool {
    forall|t: int| #[trigger] bit(x, t) == in_mask(piece, square.index(), t)
}

/// A word with the bits of the mask is the mask word.
proof fn lemma_mask_spec(piece: MagicPiece, square: Square, m: u64)
    requires
        forall|t: int| #[trigger] bit(m, t) == in_mask(piece, square.index(), t),
    ensures
        m == mask_spec(piece, square),
{
    assert(is_mask_word(piece, square, m));
    let x = mask_spec(piece, square);
    assert(is_mask_word(piece, square, x));
    assert forall|t: int| 0 <= t < 64 implies #[trigger] bit(m, t) == bit(x, t) by {
    }
    crate::bits::lemma_bits_ext(m, x);
}
} // verus!
