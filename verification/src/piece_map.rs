use vstd::prelude::*;

use crate::piece::{Piece, PieceTypeV};
use crate::player::PlayerV;

verus! {

/// A value for every piece: the six kinds of each side.
#[derive(Clone, Copy, PartialEq, Eq, Hash, Debug)]
pub struct PieceMap<T>(pub(crate) [T; 12]);

impl<T> View for PieceMap<T> {
    type V = Seq<T>;

    closed spec fn view(&self) -> Seq<T> {
        self.0@
    }
}

impl<T> PieceMap<T> {
    /// Two maps with the same values are the same map.
    pub proof fn lemma_ext(a: Self, b: Self)
        requires
            a@ == b@,
        ensures
            a == b,
    {
        broadcast use vstd::array::group_array_axioms;

        assert(a.0 =~= b.0);
    }
}

impl<T: Copy> PieceMap<T> {
    /// A map with the same value for every piece.
    pub fn filled(value: T) -> (r: PieceMap<T>)
        ensures
            r@.len() == 12,
            forall|i: int| 0 <= i < 12 ==> #[trigger] r@[i] == value,
    {
        PieceMap([value; 12])
    }

    /// The value of a piece.
    pub fn get(&self, piece: Piece) -> (r: T)
        ensures
            r == self@[piece.index()],
    {
        self.0[piece.to_index()]
    }

    /// Replaces the value of a piece.
    pub fn set(&mut self, piece: Piece, value: T)
        ensures
            final(self)@ == old(self)@.update(piece.index(), value),
    {
        self.0[piece.to_index()] = value;
    }

    /// The values of all twelve pieces, in the order of `Piece::index`.
    pub fn values(&self) -> (r: [T; 12])
        ensures
            r@ == self@,
    {
        self.0
    }

    /// The values of the six kinds of a side's pieces, king first.
    pub fn for_player(&self, player: PlayerV) -> (r: [T; 6])
        ensures
            forall|i: int| 0 <= i < 6 ==> #[trigger] r@[i] == self@[player.index() * 6 + i],
    {
        let o = player.to_index() * 6;
        [self.0[o], self.0[o + 1], self.0[o + 2], self.0[o + 3], self.0[o + 4], self.0[o + 5]]
    }

    /// The pieces with their values, white king first and black pawn last.
    pub fn iter(&self) -> (r: Vec<(Piece, T)>)
        ensures
            r@.len() == 12,
            forall|i: int| 0 <= i < 12 ==> (#[trigger] r@[i]) == (Piece::at(i), self@[i]),
    {
        let mut r: Vec<(Piece, T)> = Vec::new();
        let players = [PlayerV::White, PlayerV::Black];
        let types = PieceTypeV::values();
        let mut i: usize = 0;
        while i < 12
            invariant
                i <= 12,
                r@.len() == i,
                types@ == PieceTypeV::values_spec(),
                players@ == seq![PlayerV::White, PlayerV::Black],
                forall|j: int| 0 <= j < i ==> (#[trigger] r@[j]) == (Piece::at(j), self@[j]),
            decreases 12 - i,
        {
            let piece = Piece::new(players[i / 6], types[i % 6]);
            assert(piece == Piece::at(i as int));
            r.push((piece, self.0[i]));
            i = i + 1;
        }
        r
    }
}

} // verus!
