//! Squares in a straight line from a square, and how far a sliding piece reaches along them.
use vstd::prelude::*;

use crate::bitboard::{bitboards, Bitboard};
use crate::bits::{bit, group_bits};
use crate::square::{File, Rank, Square, group_square};

verus! {

broadcast use {group_bits, group_square};

/// One of the eight directions a queen moves in.
#[derive(Clone, Copy, PartialEq, Eq, Structural, Debug)]
pub enum Direction {
    North,
    South,
    East,
    West,
    NorthEast,
    SouthWest,
    NorthWest,
    SouthEast,
}

impl Direction {
    /// The direction goes to higher square indices (north, east, north-east, north-west).
    pub open spec fn increasing(self) -> bool {
        match self {
            Direction::North | Direction::East | Direction::NorthEast | Direction::NorthWest => true,
            _ => false,
        }
    }
}

/// Square `t` lies in direction `d` from square `s` (not `s` itself).
pub open spec fn ray(d: Direction, s: int, t: int) -> bool {
    &&& 0 <= t < 64
    &&& match d {
        Direction::North => t % 8 == s % 8 && t > s,
        Direction::South => t % 8 == s % 8 && t < s,
        Direction::East => t / 8 == s / 8 && t > s,
        Direction::West => t / 8 == s / 8 && t < s,
        Direction::NorthEast => t / 8 - s / 8 == t % 8 - s % 8 && t > s,
        Direction::SouthWest => t / 8 - s / 8 == t % 8 - s % 8 && t < s,
        Direction::NorthWest => t / 8 - s / 8 == s % 8 - t % 8 && t > s,
        Direction::SouthEast => t / 8 - s / 8 == s % 8 - t % 8 && t < s,
    }
}

/// Square `u` comes before square `t` going from the start of a ray in direction `d`.
pub open spec fn before(d: Direction, u: int, t: int) -> bool {
    if d.increasing() {
        u < t
    } else {
        t < u
    }
}

/// A piece on `s` sliding in direction `d` reaches `t`: `t` lies that way and no square of `occ`
/// stands in between.
pub open spec fn slides(d: Direction, s: int, occ: u64, t: int) -> bool {
    &&& ray(d, s, t)
    &&& forall|u: int| #[trigger] ray(d, s, u) && before(d, u, t) ==> !bit(occ, u)
}

/// A rook on `s` attacks `t`, with the squares of `occ` occupied.
pub open spec fn rook_attack(s: int, occ: u64, t: int) -> bool {
    ||| slides(Direction::North, s, occ, t)
    ||| slides(Direction::South, s, occ, t)
    ||| slides(Direction::East, s, occ, t)
    ||| slides(Direction::West, s, occ, t)
}

/// A bishop on `s` attacks `t`, with the squares of `occ` occupied.
pub open spec fn bishop_attack(s: int, occ: u64, t: int) -> bool {
    ||| slides(Direction::NorthEast, s, occ, t)
    ||| slides(Direction::SouthWest, s, occ, t)
    ||| slides(Direction::NorthWest, s, occ, t)
    ||| slides(Direction::SouthEast, s, occ, t)
}

/// Squares further along a ray from a square of the ray are on the ray, and a ray seen from a
/// square of it goes on beyond that square; the last square in a direction starts no ray.
proof fn lemma_ray(d: Direction, s: int, b: int, t: int)
    requires
        0 <= s < 64,
        0 <= b < 64,
    ensures
        ray(d, s, b) && ray(d, b, t) ==> ray(d, s, t),
        ray(d, s, b) && ray(d, s, t) && before(d, b, t) ==> ray(d, b, t),
        d.increasing() ==> !ray(d, 63, t),
        !d.increasing() ==> !ray(d, 0, t),
        ray(d, s, t) ==> before(d, s, t),
{
}

/// The squares in direction `d` from a square.
pub fn ray_board(d: Direction, square: Square) -> (r: Bitboard)
    ensures
        forall|t: int| #[trigger] bit(r.0, t) == ray(d, square.index(), t),
{
    let file = File::from_index(square.to_index() % 8);
    let rank = Rank::from_index(square.to_index() / 8);
    let f = file.to_index() as usize;
    let k = rank.to_index() as usize;
    let r = match d {
        Direction::North => bitboards::files(file) & Bitboard::new(!bitboards::ranks_filled(k + 1).0),
        Direction::South => bitboards::files(file) & bitboards::ranks_filled(k),
        Direction::East => bitboards::ranks(rank) & Bitboard::new(!bitboards::files_filled(f + 1).0),
        Direction::West => bitboards::ranks(rank) & bitboards::files_filled(f),
        Direction::NorthEast => bitboards::diagonals(square) & Bitboard::new(!bitboards::files_filled(f + 1).0),
        Direction::SouthWest => bitboards::diagonals(square) & bitboards::files_filled(f),
        Direction::NorthWest => bitboards::antidiagonals(square) & Bitboard::new(!bitboards::ranks_filled(k + 1).0),
        Direction::SouthEast => bitboards::antidiagonals(square) & bitboards::ranks_filled(k),
    };
    r
}

/// A pair of opposite directions along which rooks, bishops and queens slide.
#[derive(Clone, Copy, PartialEq, Eq, Structural, Debug)]
pub enum SlideDirection {
    NorthSouth,
    EastWest,
    Diagonal,
    AntiDiagonal,
}

impl SlideDirection {
    /// The direction of increasing square indices, then the opposite one.
    pub open spec fn spec_directions(self) -> (Direction, Direction) {
        match self {
            SlideDirection::NorthSouth => (Direction::North, Direction::South),
            SlideDirection::EastWest => (Direction::East, Direction::West),
            SlideDirection::Diagonal => (Direction::NorthEast, Direction::SouthWest),
            SlideDirection::AntiDiagonal => (Direction::NorthWest, Direction::SouthEast),
        }
    }

    pub fn directions(self) -> (r: (Direction, Direction))
        ensures
            r == self.spec_directions(),
            r.0.increasing(),
            !r.1.increasing(),
    {
        match self {
            SlideDirection::NorthSouth => (Direction::North, Direction::South),
            SlideDirection::EastWest => (Direction::East, Direction::West),
            SlideDirection::Diagonal => (Direction::NorthEast, Direction::SouthWest),
            SlideDirection::AntiDiagonal => (Direction::NorthWest, Direction::SouthEast),
        }
    }

    /// The squares a piece on `source` reaches sliding both ways, stopping at (and including)
    /// the first square of `occupancy` each way.
    pub fn slide(self, source: Square, occupancy: Bitboard) -> (r: Bitboard)
        ensures
            forall|t: int| #[trigger] bit(r.0, t) == (slides(self.spec_directions().0, source.index(), occupancy.0, t)
                || slides(self.spec_directions().1, source.index(), occupancy.0, t)),
    {
        let (pos, neg) = self.directions();
        let ghost s = source.index();
        let pos_ray = ray_board(pos, source);
        let mut blockers = pos_ray & occupancy;
        // The last square is always a blocker, so that there is one.
        blockers.set(Square::H8);
        assert(blockers.0 != 0) by {
            assert(bit(blockers.0, 63));
            assert(!bit(0u64, 63));
        }
        let blocking_square = blockers.first_set();
        let pos_movement = pos_ray ^ ray_board(pos, blocking_square);
        proof {
            let b = blocking_square.index();
            assert forall|t: int| #[trigger] bit(pos_movement.0, t) == slides(pos, s, occupancy.0, t) by {
                lemma_ray(pos, s, b, t);
                if ray(pos, s, t) && !(t <= b) {
                    assert(ray(pos, s, b) && bit(occupancy.0, b));
                }
                if ray(pos, s, t) && t <= b {
                    assert forall|u: int| #[trigger] ray(pos, s, u) && before(pos, u, t) implies !bit(occupancy.0, u) by {
                        assert(!bit(blockers.0, u));
                    }
                }
            }
        }

        let neg_ray = ray_board(neg, source);
        let mut blockers = neg_ray & occupancy;
        // The first square is always a blocker, so that there is one.
        blockers.set(Square::A1);
        assert(blockers.0 != 0) by {
            assert(bit(blockers.0, 0));
            assert(!bit(0u64, 0));
        }
        let blocking_square = blockers.last_set();
        let neg_movement = neg_ray ^ ray_board(neg, blocking_square);
        proof {
            let b = blocking_square.index();
            assert forall|t: int| #[trigger] bit(neg_movement.0, t) == slides(neg, s, occupancy.0, t) by {
                lemma_ray(neg, s, b, t);
                if ray(neg, s, t) && !(t >= b) {
                    assert(ray(neg, s, b) && bit(occupancy.0, b));
                }
                if ray(neg, s, t) && t >= b {
                    assert forall|u: int| #[trigger] ray(neg, s, u) && before(neg, u, t) implies !bit(occupancy.0, u) by {
                        assert(!bit(blockers.0, u));
                    }
                }
            }
        }
        pos_movement | neg_movement
    }
}

} // verus!
