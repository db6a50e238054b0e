//! The part of the search that the transposition table records, as a tree of positions.
use vstd::prelude::*;

use crate::board::{lemma_unmake_undoes_make, lemma_view_determines_board, spec_make_move, Board, BoardState};
use crate::move_generation::legal_move;
use crate::moves::{spec_move_string, Move};
use crate::search::ttable::{board_of, child_key, key_hash, lemma_board_of, spec_get, Node, TranspositionTable};

verus! {

/// A position's entry in the table, and the positions after each legal move that have entries
/// below them, by the move's name in long algebraic notation.
pub struct SearchTree {
    pub node: Option<Node>,
    pub children: Vec<(String, SearchTree)>,
}

/// The tree lists the move by its name, with the table's entry for the position it leads to.
pub open spec fn lists_move(tree: SearchTree, t: Seq<(u64, u64)>, st: BoardState, m: Move) -> bool {
    exists|i: int|
        0 <= i < tree.children@.len() && (#[trigger] tree.children@[i]).0@ == spec_move_string(m) && tree.children@[i].1.node
            == spec_get(t, key_hash(child_key(st, m)))
}

/// The child is the tree, one move less deep, of the position a legal move leads to, listed
/// by the move's name, and not bare.
pub open spec fn child_fits(child: (String, SearchTree), t: Seq<(u64, u64)>, st: BoardState, depth: int) -> bool
    decreases depth, 0int,
{
    exists|m: Move|
        #[trigger] legal_move(st, m) && child.0@ == spec_move_string(m) && !child.1.is_bare() && (depth <= 0 || tree_fits(
            child.1,
            t,
            spec_make_move(st, m),
            depth - 1,
        ))
}

/// The tree is the table's tree from `st` down to `depth` moves: the position's entry and,
/// where it has one and `depth` is above 0, a child for each legal move whose position has an
/// entry or children, each the table's tree from that position one move less deep.
pub open spec fn tree_fits(tree: SearchTree, t: Seq<(u64, u64)>, st: BoardState, depth: int) -> bool
    decreases depth, 1int,
{
    &&& tree.node == spec_get(t, key_hash(board_of(st).spec_key()))
    &&& if tree.node is None || depth <= 0 {
        tree.children@.len() == 0
    } else {
        &&& forall|i: int| 0 <= i < tree.children@.len() ==> child_fits(#[trigger] tree.children@[i], t, st, depth)
        &&& forall|m: Move|
            #[trigger] legal_move(st, m) && spec_get(t, key_hash(child_key(st, m))) is Some ==> lists_move(tree, t, st, m)
    }
}

/// The name is that of a legal move in the position.
pub open spec fn names_legal_move(st: BoardState, name: Seq<char>) -> bool {
    exists|m: Move| #[trigger] legal_move(st, m) && name == spec_move_string(m)
}

impl SearchTree {
    /// Neither an entry nor any child.
    pub open spec fn is_bare(&self) -> bool {
        self.node is None && self.children@.len() == 0
    }

    /// The tree of the table's entries from the board down to `depth` moves: the board's entry,
    /// and, where it has one and `depth` is above 0, the tree of each legal move (one fewer move
    /// deep) that is not bare, in the order `moves` gives them. The board is left as it was.
    pub fn from_table(board: &mut Board, table: &TranspositionTable, depth: u16) -> (r: SearchTree)
        requires
            old(board).wf(),
            table.wf(),
            table@.len() > 0,
        ensures
            *final(board) == *old(board),
            r.node == spec_get(table@, key_hash(old(board).spec_key())),
            r.node is None || depth == 0 ==> r.children@.len() == 0,
            forall|i: int|
                0 <= i < r.children@.len() ==> !(#[trigger] r.children@[i]).1.is_bare() && names_legal_move(
                    old(board)@,
                    r.children@[i].0@,
                ),
            r.node is Some && depth > 0 ==> forall|m: Move|
                #[trigger] legal_move(old(board)@, m) && spec_get(table@, key_hash(child_key(old(board)@, m))) is Some
                    ==> lists_move(r, table@, old(board)@, m),
            tree_fits(r, table@, old(board)@, depth as int),
        decreases depth,
    {
        let key = board.key();
        let node = table.get(&key);
        proof {
            lemma_board_of(*board);
        }
        let mut children: Vec<(String, SearchTree)> = Vec::new();
        if node.is_some() && depth > 0 {
            let ghost before = *board;
            let moves = board.moves();
            let mut i: usize = 0;
            while i < moves.len()
                invariant
                    *board == before,
                    before == *old(board),
                    board.wf(),
                    table.wf(),
                    table@.len() > 0,
                    depth > 0,
                    forall|m: Move| #[trigger] moves@.contains(m) == legal_move(before@, m),
                    forall|j: int|
                        0 <= j < children@.len() ==> !(#[trigger] children@[j]).1.is_bare()
                            && names_legal_move(before@, children@[j].0@),
                    forall|j: int| 0 <= j < children@.len() ==> child_fits(#[trigger] children@[j], table@, before@, depth as int),
                    i <= moves@.len(),
                    forall|k: int|
                        0 <= k < i && spec_get(table@, key_hash(child_key(before@, #[trigger] moves@[k]))) is Some ==> exists|j: int|
                            0 <= j < children@.len() && (#[trigger] children@[j]).0@ == spec_move_string(moves@[k])
                                && children@[j].1.node == spec_get(table@, key_hash(child_key(before@, moves@[k]))),
                decreases moves@.len() - i,
            {
                let mov = moves[i];
                assert(moves@.contains(mov));
                proof {
                    before.lemma_wf_len();
                    lemma_unmake_undoes_make(before@, mov);
                }
                let pmov = board.make_move(mov);
                proof {
                    lemma_board_of(*board);
                }
                let child = Self::from_table(board, table, depth - 1);
                board.unmake_move(pmov);
                proof {
                    lemma_view_determines_board(*board, before);
                }
                let ghost child_node = child.node;
                assert(child_node == spec_get(table@, key_hash(child_key(before@, mov))));
                let ghost old_children = children@;
                if child.node.is_some() || child.children.len() > 0 {
                    let name = mov.to_string();
                    let ghost entry = (name, child);
                    proof {
                        assert(child_fits(entry, table@, before@, depth as int));
                    }
                    children.push((name, child));
                    assert(legal_move(before@, mov));
                    proof {
                        assert forall|j: int| 0 <= j < children@.len() implies child_fits(
                            #[trigger] children@[j],
                            table@,
                            before@,
                            depth as int,
                        ) by {
                            if j < old_children.len() {
                                assert(children@[j] == old_children[j]);
                            }
                        }
                        assert(children@[old_children.len() as int].0@ == spec_move_string(mov));
                        assert forall|k: int|
                            0 <= k < i + 1 && spec_get(table@, key_hash(child_key(before@, #[trigger] moves@[k]))) is Some
                                implies exists|j: int|
                            0 <= j < children@.len() && (#[trigger] children@[j]).0@ == spec_move_string(moves@[k])
                                && children@[j].1.node == spec_get(table@, key_hash(child_key(before@, moves@[k]))) by {
                            if k < i {
                                let j = choose|j: int|
                                    0 <= j < old_children.len() && (#[trigger] old_children[j]).0@ == spec_move_string(moves@[k])
                                        && old_children[j].1.node == spec_get(table@, key_hash(child_key(before@, moves@[k])));
                                assert(children@[j] == old_children[j]);
                            } else {
                                assert(children@[old_children.len() as int].1.node == child_node);
                            }
                        }
                    }
                }
                i = i + 1;
            }
            proof {
                assert forall|m: Move|
                    #[trigger] legal_move(before@, m) && spec_get(table@, key_hash(child_key(before@, m))) is Some implies lists_move(
                    SearchTree { node, children },
                    table@,
                    before@,
                    m,
                ) by {
                    assert(moves@.contains(m));
                    let k = choose|k: int| 0 <= k < moves@.len() && moves@[k] == m;
                    assert(spec_get(table@, key_hash(child_key(before@, moves@[k]))) is Some);
                }
            }
        }
        SearchTree { node, children }
    }
}

} // verus!
