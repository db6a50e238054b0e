//! Counting move sequences, to test the move generator and to time it.
use vstd::prelude::*;

use crate::board::{lemma_unmake_undoes_make, lemma_view_determines_board, spec_make_move, Board, BoardState};
use crate::move_generation::{legal_move, lemma_push_contains};
use crate::search::ttable::legal_line;
use vstd::relations::injective_on;
use crate::moves::{Move, PlayedMove};

verus! {

/// The sequences of `depth` moves from `st`, each legal after those before it.
pub open spec fn lines(st: BoardState, depth: nat) -> Set<Seq<Move>> {
    Set::new(|ms: Seq<Move>| ms.len() == depth && legal_line(st, ms))
}

/// The lines of `depth` moves from `st` whose first move is one of `first`.
pub open spec fn lines_starting(st: BoardState, depth: nat, first: Seq<Move>) -> Set<Seq<Move>> {
    lines(st, depth).filter(|ms: Seq<Move>| first.contains(ms[0]))
}

/// A count that stops at `usize::MAX`.
pub open spec fn capped(n: nat) -> usize {
    if n > usize::MAX {
        usize::MAX
    } else {
        n as usize
    }
}

/// Putting a move in front of a line is one-to-one.
proof fn lemma_prepend_injective(m: Move, s: Set<Seq<Move>>)
    ensures
        injective_on(|l: Seq<Move>| seq![m] + l, s),
{
    assert forall|a: Seq<Move>, b: Seq<Move>| s.contains(a) && s.contains(b) && seq![m] + a == seq![m] + b implies a
        == b by {
        assert((seq![m] + a).drop_first() =~= a);
        assert((seq![m] + b).drop_first() =~= b);
    }
}

/// The lines of `depth` moves that start with the legal move `m` are `m` followed by a line of
/// `depth - 1` moves from the position after `m`.
proof fn lemma_lines_after(st: BoardState, depth: nat, m: Move)
    requires
        depth >= 1,
        legal_move(st, m),
    ensures
        lines(st, depth).filter(|ms: Seq<Move>| ms[0] == m) == lines(spec_make_move(st, m), (depth - 1) as nat).map(
            |l: Seq<Move>| seq![m] + l,
        ),
{
    let child = spec_make_move(st, m);
    let f = |l: Seq<Move>| seq![m] + l;
    let left = lines(st, depth).filter(|ms: Seq<Move>| ms[0] == m);
    let right = lines(child, (depth - 1) as nat).map(f);
    assert forall|x: Seq<Move>| left.contains(x) implies right.contains(x) by {
        let l = x.drop_first();
        assert(x =~= seq![m] + l);
        assert(lines(child, (depth - 1) as nat).contains(l));
    }
    assert forall|x: Seq<Move>| right.contains(x) implies left.contains(x) by {
        let l = choose|l: Seq<Move>| #[trigger] lines(child, (depth - 1) as nat).contains(l) && x == f(l);
        assert(x.drop_first() =~= l);
        assert(x[0] == m);
    }
    assert(left =~= right);
}

impl Board {
    /// The number of sequences of `depth` legal moves from the position (1 for depth 0); a count
    /// beyond `usize::MAX` stays at `usize::MAX`. The board is left as it was.
    pub fn perft(&mut self, depth: usize) -> (r: usize)
        requires
            old(self).wf(),
        ensures
            *final(self) == *old(self),
            lines(old(self)@, depth as nat).finite(),
            r == capped(lines(old(self)@, depth as nat).len()),
        decreases depth,
    {
        let ghost st = self@;
        if depth == 0 {
            proof {
                assert forall|x: Seq<Move>| #[trigger] lines(st, 0).contains(x) == (x == Seq::<Move>::empty()) by {
                    if x.len() == 0 {
                        assert(x =~= Seq::<Move>::empty());
                    }
                }
                assert(lines(st, 0) =~= set![Seq::<Move>::empty()]);
            }
            return 1;
        }
        let ghost before = *self;
        let moves = self.moves();

        // Optimisation - skip making and un-making last moves
        if depth == 1 {
            proof {
                let f = |m: Move| seq![m];
                assert forall|x: Seq<Move>| #[trigger] lines(st, 1).contains(x) implies moves@.to_set().map(f).contains(x) by {
                    assert(legal_move(st, x[0]));
                    assert(moves@.contains(x[0]));
                    assert(moves@.to_set().contains(x[0]));
                    assert(x =~= f(x[0]));
                }
                assert forall|x: Seq<Move>| #[trigger] moves@.to_set().map(f).contains(x) implies lines(st, 1).contains(x) by {
                    let m = choose|m: Move| #[trigger] moves@.to_set().contains(m) && x == f(m);
                    assert(moves@.contains(m));
                    assert(legal_move(st, m));
                    assert(x.len() == 1);
                    assert(x[0] == m);
                    assert(x.drop_first() =~= Seq::<Move>::empty());
                    assert(legal_line(spec_make_move(st, m), x.drop_first()));
                    assert(legal_line(st, x));
                }
                assert(lines(st, 1) =~= moves@.to_set().map(f));
                assert forall|a: Move, b: Move| moves@.to_set().contains(a) && moves@.to_set().contains(b) && f(a) == f(b)
                    implies a == b by {
                    assert(f(a)[0] == a);
                }
                vstd::seq_lib::seq_to_set_is_finite(moves@);
                vstd::set_lib::lemma_map_size(moves@.to_set(), lines(st, 1), f);
                moves@.unique_seq_to_set();
            }
            return moves.len();
        }

        let mut count: usize = 0;
        let mut i: usize = 0;
        proof {
            assert(lines_starting(st, depth as nat, moves@.take(0)) =~= Set::<Seq<Move>>::empty());
        }
        while i < moves.len()
            invariant
                *self == before,
                st == before@,
                self.wf(),
                depth > 1,
                i <= moves@.len(),
                forall|m: Move| #[trigger] moves@.contains(m) == legal_move(before@, m),
                moves@.no_duplicates(),
                lines_starting(st, depth as nat, moves@.take(i as int)).finite(),
                count == capped(lines_starting(st, depth as nat, moves@.take(i as int)).len()),
            decreases moves@.len() - i,
        {
            let mov = moves[i];
            assert(moves@.contains(mov));
            proof {
                before.lemma_wf_len();
                lemma_unmake_undoes_make(before@, mov);
            }
            let pmov = self.make_move(mov);
            let n = self.perft(depth - 1);
            self.unmake_move(pmov);
            proof {
                lemma_view_determines_board(*self, before);
                let d = depth as nat;
                let child = spec_make_move(st, mov);
                let u = lines_starting(st, d, moves@.take(i as int));
                let p = lines(st, d).filter(|ms: Seq<Move>| ms[0] == mov);
                lemma_lines_after(st, d, mov);
                lemma_prepend_injective(mov, lines(child, (d - 1) as nat));
                vstd::set_lib::lemma_map_size(lines(child, (d - 1) as nat), p, |l: Seq<Move>| seq![mov] + l);
                assert forall|x: Seq<Move>| #[trigger] moves@.take(i + 1).contains(x[0]) == (moves@.take(
                    i as int,
                ).contains(x[0]) || x[0] == mov) by {
                    assert(moves@.take(i + 1) =~= moves@.take(i as int).push(mov));
                    lemma_push_contains(moves@.take(i as int), mov, x[0]);
                }
                assert(lines_starting(st, d, moves@.take(i + 1)) =~= u + p);
                assert(u.disjoint(p)) by {
                    assert forall|x: Seq<Move>| u.contains(x) implies !p.contains(x) by {
                        if p.contains(x) {
                            let k = choose|k: int| 0 <= k < i && #[trigger] moves@.take(i as int)[k] == x[0];
                            assert(moves@[k] == moves@[i as int]);
                        }
                    }
                }
                vstd::set_lib::lemma_set_disjoint_lens(u, p);
            }
            count = count.saturating_add(n);
            i = i + 1;
        }
        proof {
            assert(moves@.take(i as int) =~= moves@);
            assert forall|x: Seq<Move>| #[trigger] lines(st, depth as nat).contains(x) implies moves@.contains(x[0]) by {
                assert(legal_move(st, x[0]));
            }
            assert(lines_starting(st, depth as nat, moves@) =~= lines(st, depth as nat));
        }
        count
    }
}

/// A game: the board and the moves played to reach it, which can be taken back.
pub struct GameState {
    pub board: Board,
    pub moves: Vec<PlayedMove>,
}

impl GameState {
    /// A game starting from the board, with no move played.
    pub fn new(board: Board) -> (r: GameState)
        ensures
            r.board == board,
            r.moves@.len() == 0,
    {
        GameState { board, moves: Vec::new() }
    }

    /// Plays a move that `Board::make_move` accepts and remembers it.
    pub fn push_move(&mut self, mov: Move)
        requires
            old(self).board.wf(),
            crate::board::can_make(old(self).board@, mov),
        ensures
            final(self).board.wf(),
            final(self).board@ == crate::board::spec_make_move(old(self).board@, mov),
            final(self).moves@ == old(self).moves@.push(crate::board::spec_played_move(old(self).board@, mov)),
    {
        let pmov = self.board.make_move(mov);
        self.moves.push(pmov);
    }

    /// Takes back the last move played and returns it; nothing where no move was played. The
    /// last remembered move must be one `Board::unmake_move` accepts.
    pub fn pop(&mut self) -> (r: Option<Move>)
        requires
            old(self).board.wf(),
            old(self).moves@.len() > 0 ==> crate::board::can_unmake(old(self).board@, old(self).moves@.last()),
        ensures
            final(self).board.wf(),
            old(self).moves@.len() == 0 ==> r is None && *final(self) == *old(self),
            old(self).moves@.len() > 0 ==> {
                &&& r == Some(old(self).moves@.last().mov)
                &&& final(self).moves@ == old(self).moves@.drop_last()
                &&& final(self).board@ == crate::board::spec_unmake_move(old(self).board@, old(self).moves@.last())
            },
    {
        if self.moves.len() == 0 {
            return None;
        }
        match self.moves.pop() {
            Some(pmov) => {
                self.board.unmake_move(pmov);
                Some(pmov.mov)
            },
            None => None,
        }
    }

    /// The moves played, first played first.
    pub fn moves(&self) -> (r: Vec<Move>)
        ensures
            r@.len() == self.moves@.len(),
            forall|i: int| 0 <= i < r@.len() ==> #[trigger] r@[i] == self.moves@[i].mov,
    {
        let mut r: Vec<Move> = Vec::new();
        let mut i: usize = 0;
        while i < self.moves.len()
            invariant
                i <= self.moves@.len(),
                r@.len() == i,
                forall|j: int| 0 <= j < i ==> #[trigger] r@[j] == self.moves@[j].mov,
            decreases self.moves@.len() - i,
        {
            r.push(self.moves[i].mov);
            i = i + 1;
        }
        r
    }
}

} // verus!
