//! A table of searched positions, looked up by a hash of the position.
use vstd::prelude::*;
use std::collections::hash_map::DefaultHasher;
use core::hash::{Hash, Hasher};

use crate::bitboard::Bitboard;
use crate::board::{castle_ok, lemma_unmake_undoes_make, lemma_view_determines_board, spec_make_move, spec_played_move, Board, BoardFlags, BoardState};
use crate::move_generation::legal_move;
use crate::search::order::{in_move_order, in_order, lemma_ordered_no_duplicates, move_key};
use crate::moves::{Move, PlayedMove};
use crate::piece_map::PieceMap;
use crate::player::PlayerV;

verus! {

/// What is known of a searched position's value.
#[derive(Clone, Copy, PartialEq, Eq, Structural, Hash, Debug)]
pub enum NodeType {
    /// Principal variation node, fully explored and value is exact
    PV,
    /// Cut node, or fail-high node, was beta-cutoff, value is a lower bound
    Cut,
    /// All-node, or fail-low node, no moves exceeded alpha, value is an upper bound
    All,
}

impl NodeType {
    /// 0, 1 and 2 in the order of the variants.
    pub open spec fn code(self) -> u64 {
        match self {
            NodeType::PV => 0,
            NodeType::Cut => 1,
            NodeType::All => 2,
        }
    }

    /// The node type with code `n`.
    pub fn from_u64(n: u64) -> (r: NodeType)
        requires
            n < 3,
        ensures
            r.code() == n,
    {
        match n {
            0 => NodeType::PV,
            1 => NodeType::Cut,
            _ => NodeType::All,
        }
    }

    pub fn to_u64(self) -> (r: u64)
        ensures
            r == self.code(),
    {
        match self {
            NodeType::PV => 0,
            NodeType::Cut => 1,
            NodeType::All => 2,
        }
    }
}

/// A searched position: how deep it was searched, what kind of value was found, and the value.
#[derive(Clone, Copy, PartialEq, Eq, Structural, Hash, Debug)]
pub struct Node {
    pub depth: u16,
    pub node_type: NodeType,
    pub value: i32,
}

/// A node packed in a word: the value in the low 32 bits, the depth in the next 16, the node
/// type above.
pub open spec fn encode(n: Node) -> u64 {
    (n.value as u32 as u64) | ((n.depth as u64) << 32u64) | (n.node_type.code() << 48u64)
}

/// The word holds a node: its top bits name a node type.
pub open spec fn decodable(w: u64) -> bool {
    w >> 48u64 < 3
}

/// The node a word holds.
pub open spec fn decode(w: u64) -> Node {
    Node {
        value: w as u32 as i32,
        depth: (w >> 32u64) as u16,
        node_type: if w >> 48u64 == 0 {
            NodeType::PV
        } else if w >> 48u64 == 1 {
            NodeType::Cut
        } else {
            NodeType::All
        },
    }
}

/// Packing a node into a word and reading it back gives the node; every packed word can be read.
pub proof fn law_decode_encode(n: Node)
    ensures
        decodable(encode(n)),
        decode(encode(n)) == n,
{
    let v = n.value;
    let d = n.depth;
    let t = n.node_type.code();
    let w = encode(n);
    assert(t < 3 ==> ((v as u32 as u64) | ((d as u64) << 32u64) | (t << 48u64)) >> 48u64 == t
        && ((v as u32 as u64) | ((d as u64) << 32u64) | (t << 48u64)) as u32 as i32 == v
        && (((v as u32 as u64) | ((d as u64) << 32u64) | (t << 48u64)) >> 32u64) as u16 == d) by (bit_vector);
}

impl Node {
    /// The node packed in a word (see `encode`).
    pub fn to_u64(self) -> (r: u64)
        ensures
            r == encode(self),
    {
        (self.value as u32 as u64) | ((self.depth as u64) << 32u64) | (self.node_type.to_u64() << 48u64)
    }

    /// The node a word holds (see `decode`).
    pub fn from_u64(n: u64) -> (r: Node)
        requires
            decodable(n),
        ensures
            r == decode(n),
    {
        Node { value: n as u32 as i32, depth: (n >> 32u64) as u16, node_type: NodeType::from_u64(n >> 48u64) }
    }
}

/// What a position is looked up by: the squares of each piece and of each side, the side to
/// move and the castling rights.
#[derive(Clone, Copy, PartialEq, Eq, Hash, Debug)]
pub struct Key {
    pub pieces: PieceMap<Bitboard>,
    pub players: [Bitboard; 2],
    pub player: PlayerV,
    pub flags: BoardFlags,
}

/// The hash of a key, as `DefaultHasher` computes it.
pub uninterp spec fn key_hash(key: Key) -> u64;

/// Hashes the key with a fresh `DefaultHasher` (the same for every hasher made by
/// `DefaultHasher::new`); the result is only named, not stated.
#[verifier::external_body]
fn hash_key(key: &Key) -> (r: u64)
    ensures
        r == key_hash(*key),
{
    let mut hasher = DefaultHasher::new();
    key.hash(&mut hasher);
    hasher.finish()
}

/// The slot of the table that a hash goes to.
pub open spec fn slot(h: u64, len: nat) -> int {
    ((h as usize) as int) % (len as int)
}

/// What `TranspositionTable::get` finds in a table for a key with hash `h`: the node in the
/// key's slot, where the slot's check word matches the hash.
pub open spec fn spec_get(t: Seq<(u64, u64)>, h: u64) -> Option<Node> {
    let e = t[slot(h, t.len())];
    if e.0 ^ e.1 == h {
        Some(decode(e.1))
    } else {
        None
    }
}

/// Table of searched positions; each slot holds a node and a check word, the node xor the hash
/// of its key.
pub struct TranspositionTable {
    table: Vec<(u64, u64)>,
}

impl View for TranspositionTable {
    type V = Seq<(u64, u64)>;

    closed spec fn view(&self) -> Seq<(u64, u64)> {
        self.table@
    }
}

impl TranspositionTable {
    /// Every slot holds a node that can be read.
    pub open spec fn wf(&self) -> bool {
        forall|i: int| 0 <= i < self@.len() ==> decodable(#[trigger] self@[i].1)
    }

    /// Every value the table holds can be negated: none is `i32::MIN`. The searches store no
    /// other values.
    pub open spec fn sound(&self) -> bool {
        forall|i: int| 0 <= i < self@.len() ==> decode(#[trigger] self@[i].1).value != i32::MIN
    }

    /// A table of `size` empty slots.
    pub fn new(size: usize) -> (r: TranspositionTable)
        ensures
            r.wf(),
            r.sound(),
            r@.len() == size,
            forall|i: int| 0 <= i < size ==> #[trigger] r@[i] == (0u64, 0u64),
    {
        let mut table: Vec<(u64, u64)> = Vec::new();
        let mut i: usize = 0;
        while i < size
            invariant
                i <= size,
                table@.len() == i,
                forall|j: int| 0 <= j < i ==> #[trigger] table@[j] == (0u64, 0u64),
            decreases size - i,
        {
            table.push((0, 0));
            i = i + 1;
        }
        proof {
            assert((0u64 >> 48u64) < 3 && (0u64 as u32 as i32) != i32::MIN) by (bit_vector);
        }
        TranspositionTable { table }
    }

    /// The node stored for the key, if its slot holds one for it.
    pub fn get(&self, key: &Key) -> (r: Option<Node>)
        requires
            self.wf(),
            self@.len() > 0,
        ensures
            r == spec_get(self@, key_hash(*key)),
            self.sound() ==> (r matches Some(n) ==> n.value != i32::MIN),
    {
        let hkey = hash_key(key);
        let index = hkey as usize % self.table.len();
        let entry = self.table[index];
        assert(entry == self@[index as int]);
        if entry.0 ^ entry.1 == hkey {
            Some(Node::from_u64(entry.1))
        } else {
            None
        }
    }

    /// Stores the node for the key in the key's slot, replacing what was there.
    pub fn insert(&mut self, key: Key, node: Node)
        requires
            old(self).wf(),
            old(self)@.len() > 0,
        ensures
            final(self).wf(),
            old(self).sound() && node.value != i32::MIN ==> final(self).sound(),
            final(self)@ == old(self)@.update(
                slot(key_hash(key), old(self)@.len()),
                (key_hash(key) ^ encode(node), encode(node)),
            ),
    {
        let hkey = hash_key(&key);
        let hnode = node.to_u64();
        let index = hkey as usize % self.table.len();
        proof {
            law_decode_encode(node);
        }
        self.table.set(index, (hkey ^ hnode, hnode));
    }

    /// The number of slots.
    pub fn len(&self) -> (r: usize)
        ensures
            r == self@.len(),
    {
        self.table.len()
    }
}


/// The moves are legal one after the other from the position: each is a legal move of the
/// position that the ones before it lead to.
pub open spec fn legal_line(st: BoardState, moves: Seq<Move>) -> bool
    decreases moves.len(),
{
    moves.len() == 0 || (legal_move(st, moves[0]) && legal_line(spec_make_move(st, moves[0]), moves.drop_first()))
}

/// Positions each reached from the one before by a legal move of `moves` form a legal line.
proof fn lemma_legal_line(states: Seq<BoardState>, moves: Seq<Move>, j: int)
    requires
        0 <= j <= moves.len(),
        states.len() == moves.len() + 1,
        forall|k: int| 0 <= k < moves.len() ==> legal_move(states[k], #[trigger] moves[k]) && states[k + 1]
            == spec_make_move(states[k], moves[k]),
    ensures
        legal_line(states[j], moves.skip(j)),
    decreases moves.len() - j,
{
    if j < moves.len() {
        lemma_legal_line(states, moves, j + 1);
        assert(moves.skip(j).drop_first() =~= moves.skip(j + 1));
        assert(moves.skip(j)[0] == moves[j]);
    }
}

/// The keys are equal.
fn same_key(a: &Key, b: &Key) -> (r: bool)
    ensures
        r == (*a == *b),
{
    broadcast use vstd::array::group_array_axioms;

    if a.player != b.player || a.flags.0 != b.flags.0 {
        return false;
    }
    if a.players[0].0 != b.players[0].0 || a.players[1].0 != b.players[1].0 {
        proof {
            if *a == *b {
                assert(a.players[0] == b.players[0]);
            }
        }
        return false;
    }
    assert(a.players =~= b.players);
    let x = a.pieces.values();
    let y = b.pieces.values();
    let mut i: usize = 0;
    while i < 12
        invariant
            i <= 12,
            x@ == a.pieces@,
            y@ == b.pieces@,
            forall|j: int| 0 <= j < i ==> x@[j] == y@[j],
        decreases 12 - i,
    {
        if x[i].0 != y[i].0 {
            proof {
                if *a == *b {
                    assert(x@[i as int] == y@[i as int]);
                }
            }
            return false;
        }
        i = i + 1;
    }
    assert(a.pieces@ =~= b.pieces@);
    proof {
        PieceMap::lemma_ext(a.pieces, b.pieces);
    }
    true
}

/// The most moves `principal_variation` follows.
pub const MAX_LINE: usize = 65535;

/// The position reached from `st` by the first `k` moves of `line`.
pub open spec fn line_state(st: BoardState, line: Seq<Move>, k: int) -> BoardState
    decreases k,
{
    if k <= 0 {
        st
    } else {
        spec_make_move(line_state(st, line, k - 1), line[k - 1])
    }
}

/// Playing one more move leaves the positions along the line before it as they were.
proof fn lemma_line_state_push(st: BoardState, line: Seq<Move>, m: Move, k: int)
    requires
        0 <= k <= line.len(),
    ensures
        line_state(st, line.push(m), k) == line_state(st, line, k),
    decreases k,
{
    if k > 0 {
        lemma_line_state_push(st, line, m, k - 1);
    }
}

/// The positions along the first `k` moves of a line are those along the line.
proof fn lemma_line_state_take(st: BoardState, line: Seq<Move>, k: int, i: int)
    requires
        0 <= i <= k <= line.len(),
    ensures
        line_state(st, line.take(k), i) == line_state(st, line, i),
    decreases i,
{
    if i > 0 {
        lemma_line_state_take(st, line, k, i - 1);
    }
}

/// The first moves of a line the table records form a line it records.
pub proof fn lemma_recorded_line_take(t: Seq<(u64, u64)>, st: BoardState, line: Seq<Move>, k: int)
    requires
        recorded_line(t, st, line),
        0 <= k <= line.len(),
    ensures
        recorded_line(t, st, line.take(k)),
{
    reveal(recorded_line);
    assert forall|i: int| 0 <= i < line.take(k).len() implies #[trigger] first_best(
        t,
        line_state(st, line.take(k), i),
        line.take(k)[i],
        i,
    ) by {
        lemma_line_state_take(st, line, k, i);
        assert(first_best(t, line_state(st, line, i), line[i], i));
    }
}

/// `m` is the legal move from `st` that comes first in the searches' order (the generator's).
pub open spec fn first_legal(st: BoardState, m: Move) -> bool {
    &&& legal_move(st, m)
    &&& forall|m2: Move| #[trigger] legal_move(st, m2) ==> m2 == m || move_key(st, m) < move_key(st, m2)
}

/// The well-formed board that shows the position.
pub open spec fn board_of(st: BoardState) -> Board {
    choose|b: Board| b.wf() && b@ == st
}

/// A well-formed board is the board of the position it shows.
pub proof fn lemma_board_of(b: Board)
    requires
        b.wf(),
    ensures
        board_of(b@) == b,
{
    let c = board_of(b@);
    assert(c.wf() && c@ == b@);
    lemma_view_determines_board(c, b);
}

/// The key of the position that playing `m` from `st` leads to.
pub open spec fn child_key(st: BoardState, m: Move) -> Key {
    board_of(spec_make_move(st, m)).spec_key()
}

/// The score, for the side to move at `st`, that the table records for playing `m` there, `ply`
/// moves into a line: the value of the position it leads to, where recorded as exact, negated
/// on the plies of the side that moves first.
pub open spec fn pv_score(t: Seq<(u64, u64)>, st: BoardState, m: Move, ply: int) -> Option<int> {
    match spec_get(t, key_hash(child_key(st, m))) {
        Some(n) => if n.node_type == NodeType::PV {
            Some(
                if ply % 2 == 0 {
                    -n.value
                } else {
                    n.value as int
                },
            )
        } else {
            None
        },
        None => None,
    }
}

/// The score the table records for `m` is unknown or at most `s`.
pub open spec fn score_at_most(t: Seq<(u64, u64)>, st: BoardState, m: Move, ply: int, s: int) -> bool {
    match pv_score(t, st, m, ply) {
        Some(x) => x <= s,
        None => true,
    }
}

/// `m` is a legal move at `st` to a position the table records as exact, with a score above
/// the lowest and as high as that of any legal move there.
#[verifier::opaque]
pub open spec fn best_pv_move(t: Seq<(u64, u64)>, st: BoardState, m: Move, ply: int) -> bool {
    &&& legal_move(st, m)
    &&& pv_score(t, st, m, ply) matches Some(s) && s > -2147483647 && forall|m2: Move|
        #[trigger] legal_move(st, m2) ==> score_at_most(t, st, m2, ply, s)
}

/// `m` is the best move of the table at `st` that comes first in the generator's order.
#[verifier::opaque]
pub open spec fn first_best(t: Seq<(u64, u64)>, st: BoardState, m: Move, ply: int) -> bool {
    &&& best_pv_move(t, st, m, ply)
    &&& forall|m2: Move| #[trigger] best_pv_move(t, st, m2, ply) ==> m2 == m || move_key(st, m) < move_key(st, m2)
}

/// Each move of `line` from `st` is the table's best move at its position, the first in the
/// generator's order of those scored as well.
#[verifier::opaque]
pub open spec fn recorded_line(t: Seq<(u64, u64)>, st: BoardState, line: Seq<Move>) -> bool {
    forall|i: int| 0 <= i < line.len() ==> #[trigger] first_best(t, line_state(st, line, i), line[i], i)
}

/// `keys` holds the key of every position a legal move leads to from a position of `line`.
#[verifier::opaque]
pub open spec fn keys_cover(keys: Seq<Key>, st: BoardState, line: Seq<Move>) -> bool {
    forall|j: int, m: Move|
        0 <= j < line.len() && #[trigger] legal_move(line_state(st, line, j), m) ==> keys.contains(
            child_key(line_state(st, line, j), m),
        )
}

/// Where the keys of the earlier positions' children are noted, and those of the last
/// position's children are new and different from each other, no position comes round again.
proof fn lemma_no_repeat(st: BoardState, line: Seq<Move>, k0: Seq<Key>)
    requires
        keys_cover(k0, st, line),
        forall|m: Move|
            #[trigger] legal_move(line_state(st, line, line.len() as int), m) ==> !k0.contains(
                child_key(line_state(st, line, line.len() as int), m),
            ),
        forall|m1: Move, m2: Move|
            legal_move(line_state(st, line, line.len() as int), m1) && legal_move(line_state(st, line, line.len() as int), m2)
                && m1 != m2 ==> #[trigger] child_key(line_state(st, line, line.len() as int), m1) != #[trigger] child_key(
                line_state(st, line, line.len() as int),
                m2,
            ),
    ensures
        !repeats(st, line),
{
    reveal(repeats);
    reveal(keys_cover);
    let n = line.len() as int;
    if repeats(st, line) {
        let (j, m1, m2) = choose|j: int, m1: Move, m2: Move|
            #![trigger child_key(line_state(st, line, j), m1), child_key(line_state(st, line, n), m2)]
            0 <= j <= n && legal_move(line_state(st, line, j), m1) && legal_move(line_state(st, line, n), m2) && (j < n
                || m1 != m2) && child_key(line_state(st, line, j), m1) == child_key(line_state(st, line, n), m2);
        if j < n {
            assert(k0.contains(child_key(line_state(st, line, j), m1)));
            assert(!k0.contains(child_key(line_state(st, line, n), m2)));
        }
    }
}

/// One more move keeps the earlier parts of a line free of positions coming round again.
proof fn lemma_no_repeat_push(st: BoardState, line: Seq<Move>, best: Move)
    requires
        forall|k: int| 0 <= k < line.len() ==> !repeats(st, #[trigger] line.take(k)),
        !repeats(st, line),
    ensures
        forall|k: int| 0 <= k < line.len() + 1 ==> !repeats(st, #[trigger] line.push(best).take(k)),
{
    assert forall|k: int| 0 <= k < line.len() + 1 implies !repeats(st, #[trigger] line.push(best).take(k)) by {
        if k < line.len() {
            assert(line.push(best).take(k) =~= line.take(k));
        } else {
            assert(line.push(best).take(k) =~= line);
        }
    }
}

/// After `line`, a position comes round again: a legal move from its last position leads where
/// a legal move from an earlier position of the line, or another one from the last, does.
#[verifier::opaque]
pub open spec fn repeats(st: BoardState, line: Seq<Move>) -> bool {
    let n = line.len() as int;
    exists|j: int, m1: Move, m2: Move|
        #![trigger child_key(line_state(st, line, j), m1), child_key(line_state(st, line, n), m2)]
        0 <= j <= n && legal_move(line_state(st, line, j), m1) && legal_move(line_state(st, line, n), m2) && (j < n
            || m1 != m2) && child_key(line_state(st, line, j), m1) == child_key(line_state(st, line, n), m2)
}

/// Why a line recorded in the table ends where it does: it is `MAX_LINE` moves long, the table
/// has no best move from its last position, or a position comes round again.
pub open spec fn ends_line(t: Seq<(u64, u64)>, st: BoardState, line: Seq<Move>) -> bool {
    ||| line.len() == MAX_LINE
    ||| forall|m: Move| !#[trigger] best_pv_move(t, line_state(st, line, line.len() as int), m, line.len() as int)
    ||| repeats(st, line)
}

/// Each of `keys` is that of a position a legal move leads to from a position of `line`.
#[verifier::opaque]
pub open spec fn keys_from(keys: Seq<Key>, st: BoardState, line: Seq<Move>) -> bool {
    forall|k: int|
        0 <= k < keys.len() ==> exists|j: int, m: Move|
            0 <= j < line.len() && legal_move(line_state(st, line, j), m) && #[trigger] keys[k] == child_key(
                line_state(st, line, j),
                m,
            )
}

/// One more best move keeps the line recorded, and the keys noted from its positions.
proof fn lemma_pv_step(t: Seq<(u64, u64)>, st: BoardState, line: Seq<Move>, best: Move, k0: Seq<Key>, k1: Seq<Key>)
    requires
        recorded_line(t, st, line),
        keys_from(k0, st, line),
        keys_cover(k0, st, line),
        forall|m: Move|
            #[trigger] legal_move(line_state(st, line, line.len() as int), m) ==> k1.contains(
                child_key(line_state(st, line, line.len() as int), m),
            ),
        first_best(t, line_state(st, line, line.len() as int), best, line.len() as int),
        k0.len() <= k1.len(),
        forall|k: int| 0 <= k < k0.len() ==> #[trigger] k1[k] == k0[k],
        forall|k: int|
            k0.len() <= k < k1.len() ==> exists|m: Move|
                legal_move(line_state(st, line, line.len() as int), m) && #[trigger] k1[k] == child_key(
                    line_state(st, line, line.len() as int),
                    m,
                ),
    ensures
        recorded_line(t, st, line.push(best)),
        keys_from(k1, st, line.push(best)),
        keys_cover(k1, st, line.push(best)),
{
    reveal(recorded_line);
    let n = line.len() as int;
    let l2 = line.push(best);
    assert forall|i: int| 0 <= i < l2.len() implies #[trigger] first_best(t, line_state(st, l2, i), l2[i], i) by {
        lemma_line_state_push(st, line, best, i);
        if i < n {
            assert(l2[i] == line[i]);
            assert(first_best(t, line_state(st, line, i), line[i], i));
        }
    }
    lemma_cover_step(st, line, best, k0, k1);
    reveal(keys_from);
    assert forall|k: int| 0 <= k < k1.len() implies exists|j: int, m: Move|
        0 <= j < l2.len() && legal_move(line_state(st, l2, j), m) && #[trigger] k1[k] == child_key(line_state(st, l2, j), m) by {
        if k < k0.len() {
            assert(k1[k] == k0[k]);
            let (j, m) = choose|j: int, m: Move|
                0 <= j < line.len() && legal_move(line_state(st, line, j), m) && #[trigger] k0[k] == child_key(
                    line_state(st, line, j),
                    m,
                );
            lemma_line_state_push(st, line, best, j);
        } else {
            let m = choose|m: Move|
                legal_move(line_state(st, line, n), m) && #[trigger] k1[k] == child_key(line_state(st, line, n), m);
            lemma_line_state_push(st, line, best, n);
        }
    }
}

/// The keys of the children of a line's positions, with those of the last position added,
/// cover the line one move longer.
proof fn lemma_cover_step(st: BoardState, line: Seq<Move>, best: Move, k0: Seq<Key>, k1: Seq<Key>)
    requires
        keys_cover(k0, st, line),
        k0.len() <= k1.len(),
        forall|k: int| 0 <= k < k0.len() ==> #[trigger] k1[k] == k0[k],
        forall|m: Move|
            #[trigger] legal_move(line_state(st, line, line.len() as int), m) ==> k1.contains(
                child_key(line_state(st, line, line.len() as int), m),
            ),
    ensures
        keys_cover(k1, st, line.push(best)),
{
    reveal(keys_cover);
    let n = line.len() as int;
    let l2 = line.push(best);
    assert forall|j: int, m: Move|
        0 <= j < l2.len() && #[trigger] legal_move(line_state(st, l2, j), m) implies k1.contains(
        child_key(line_state(st, l2, j), m),
    ) by {
        lemma_line_state_push(st, line, best, j);
        if j < n {
            assert(legal_move(line_state(st, line, j), m));
            assert(k0.contains(child_key(line_state(st, line, j), m)));
            let y = choose|y: int| 0 <= y < k0.len() && k0[y] == child_key(line_state(st, line, j), m);
            assert(k1[y] == k0[y]);
        }
    }
}

/// A key already noted, or noted twice from the last position, means a position comes round
/// again.
proof fn lemma_pv_repeat(st: BoardState, line: Seq<Move>, k0: Seq<Key>)
    requires
        keys_from(k0, st, line),
        exists|m2: Move|
            legal_move(line_state(st, line, line.len() as int), m2) && ((exists|y: int|
                0 <= y < k0.len() && #[trigger] k0[y] == child_key(line_state(st, line, line.len() as int), m2)) || exists|m1: Move|
                m1 != m2 && legal_move(line_state(st, line, line.len() as int), m1) && #[trigger] child_key(
                    line_state(st, line, line.len() as int),
                    m1,
                ) == child_key(line_state(st, line, line.len() as int), m2)),
    ensures
        repeats(st, line),
{
    reveal(repeats);
    let n = line.len() as int;
    let ls = line_state(st, line, n);
    let m2 = choose|m2: Move|
        legal_move(ls, m2) && ((exists|y: int| 0 <= y < k0.len() && #[trigger] k0[y] == child_key(ls, m2)) || exists|m1: Move|
            m1 != m2 && legal_move(ls, m1) && #[trigger] child_key(ls, m1) == child_key(ls, m2));
    if exists|y: int| 0 <= y < k0.len() && #[trigger] k0[y] == child_key(ls, m2) {
        let y = choose|y: int| 0 <= y < k0.len() && #[trigger] k0[y] == child_key(ls, m2);
        reveal(keys_from);
        let (j, m1) = choose|j: int, m1: Move|
            0 <= j < line.len() && legal_move(line_state(st, line, j), m1) && #[trigger] k0[y] == child_key(
                line_state(st, line, j),
                m1,
            );
        assert(child_key(line_state(st, line, j), m1) == child_key(line_state(st, line, n), m2));
    } else {
        let m1 = choose|m1: Move| m1 != m2 && legal_move(ls, m1) && #[trigger] child_key(ls, m1) == child_key(ls, m2);
        assert(child_key(line_state(st, line, n), m1) == child_key(line_state(st, line, n), m2));
    }
}

impl TranspositionTable {
    /// Looks at each legal move from the board's position, `ply` moves into a line: notes the
    /// key of the position it leads to, and stops (second result true) where that key is
    /// noted already. Otherwise gives the best move the table records there, if any.
    fn best_child(&self, board: &mut Board, keys: &mut Vec<Key>, adjust: i32, Ghost(ply): Ghost<int>) -> (r: (
        Option<Move>,
        bool,
    ))
        requires
            self.wf(),
            self.sound(),
            self@.len() > 0,
            old(board).wf(),
            adjust == (if ply % 2 == 0 {
                -1i32
            } else {
                1i32
            }),
        ensures
            *final(board) == *old(board),
            r.1 ==> exists|m2: Move|
                legal_move(old(board)@, m2) && ((exists|y: int|
                    0 <= y < old(keys)@.len() && #[trigger] old(keys)@[y] == child_key(old(board)@, m2)) || exists|m1: Move|
                    m1 != m2 && legal_move(old(board)@, m1) && #[trigger] child_key(old(board)@, m1) == child_key(
                        old(board)@,
                        m2,
                    )),
            !r.1 ==> old(keys)@.len() <= final(keys)@.len(),
            !r.1 ==> forall|k: int| 0 <= k < old(keys)@.len() ==> #[trigger] final(keys)@[k] == old(keys)@[k],
            !r.1 ==> forall|k: int|
                old(keys)@.len() <= k < final(keys)@.len() ==> exists|m: Move|
                    legal_move(old(board)@, m) && #[trigger] final(keys)@[k] == child_key(old(board)@, m),
            !r.1 ==> (r.0 matches Some(b) ==> first_best(self@, old(board)@, b, ply) && legal_move(old(board)@, b)),
            !r.1 ==> (r.0 is None ==> forall|m: Move| !#[trigger] best_pv_move(self@, old(board)@, m, ply)),
            !r.1 ==> forall|m: Move|
                #[trigger] legal_move(old(board)@, m) ==> final(keys)@.contains(child_key(old(board)@, m)) && !old(
                    keys,
                )@.contains(child_key(old(board)@, m)),
            !r.1 ==> forall|m1: Move, m2: Move|
                legal_move(old(board)@, m1) && legal_move(old(board)@, m2) && m1 != m2 ==> #[trigger] child_key(
                    old(board)@,
                    m1,
                ) != #[trigger] child_key(old(board)@, m2),
    {
        let ghost t = self@;
        let ghost base = keys@.len();
        let ghost k0 = keys@;
        let legal_moves = board.moves();
        let moves = in_order(board, &legal_moves);
        proof {
            lemma_ordered_no_duplicates(board@, moves@);
        }
        let mut best_move: Option<Move> = None;
        let mut best_score: i32 = -2147483647;
        let mut j: usize = 0;
        let ghost saved = *board;
        let ghost mut best_idx: int = 0;
        while j < moves.len()
            invariant
                j <= moves@.len(),
                *board == saved,
                saved == *old(board),
                k0 == old(keys)@,
                base == k0.len(),
                board.wf(),
                self.wf(),
                self.sound(),
                self@.len() > 0,
                t == self@,
                forall|m: Move| #[trigger] moves@.contains(m) == legal_move(saved@, m),
                moves@.no_duplicates(),
                adjust == (if ply % 2 == 0 {
                    -1i32
                } else {
                    1i32
                }),
                best_move matches Some(b) ==> legal_move(saved@, b) && pv_score(t, saved@, b, ply) == Some(best_score as int)
                    && best_score > -2147483647,
                best_move is None ==> best_score == -2147483647,
                -2147483647 <= best_score,
                forall|x: int| 0 <= x < j ==> #[trigger] score_at_most(t, saved@, moves@[x], ply, best_score as int),
                keys@.len() == base + j,
                forall|k: int| 0 <= k < base ==> #[trigger] keys@[k] == k0[k],
                forall|x: int| 0 <= x < j ==> #[trigger] keys@[base + x] == child_key(saved@, moves@[x]),
                in_move_order(saved@, moves@),
                forall|x: int| 0 <= x < j ==> !k0.contains(child_key(saved@, #[trigger] moves@[x])),
                forall|x1: int, x2: int|
                    0 <= x1 < x2 < j ==> child_key(saved@, #[trigger] moves@[x1]) != child_key(saved@, #[trigger] moves@[x2]),
                best_move matches Some(b) ==> 0 <= best_idx < j && moves@[best_idx] == b,
                forall|x: int|
                    0 <= x < j && best_move is Some && pv_score(t, saved@, #[trigger] moves@[x], ply) == Some(best_score as int)
                        ==> x >= best_idx,
            decreases moves@.len() - j,
        {
            let mov = moves[j];
            assert(moves@.contains(mov));
            proof {
                saved.lemma_wf_len();
                lemma_unmake_undoes_make(saved@, mov);
            }
            let pmov = board.make_move(mov);
            let key = board.key();
            proof {
                lemma_board_of(*board);
            }
            board.unmake_move(pmov);
            proof {
                lemma_view_determines_board(*board, saved);
            }
            // Check for loop
            let mut k: usize = 0;
            while k < keys.len()
                invariant
                    k <= keys@.len(),
                    *board == saved,
                    saved == *old(board),
                    k0 == old(keys)@,
                    base == k0.len(),
                    key == child_key(saved@, mov),
                    moves@.contains(mov),
                    moves@[j as int] == mov,
                    j < moves@.len(),
                    moves@.no_duplicates(),
                    forall|m: Move| #[trigger] moves@.contains(m) == legal_move(saved@, m),
                    keys@.len() == base + j,
                    forall|k: int| 0 <= k < base ==> #[trigger] keys@[k] == k0[k],
                    forall|x: int| 0 <= x < j ==> #[trigger] keys@[base + x] == child_key(saved@, moves@[x]),
                    forall|y: int| 0 <= y < k ==> #[trigger] keys@[y] != key,
                decreases keys@.len() - k,
            {
                if same_key(&keys[k], &key) {
                    proof {
                        if (k as int) < base {
                            assert(k0[k as int] == child_key(saved@, mov));
                        } else {
                            let x = k - base;
                            assert(keys@[base + x] == child_key(saved@, moves@[x]));
                            assert(moves@[x] != mov);
                            assert(moves@.contains(moves@[x]));
                        }
                    }
                    return (best_move, true);
                }
                k = k + 1;
            }
            let ghost keys_mid = keys@;
            proof {
                assert(!k0.contains(key)) by {
                    if k0.contains(key) {
                        let y = choose|y: int| 0 <= y < k0.len() && k0[y] == key;
                        assert(keys@[y] == k0[y]);
                    }
                }
                assert forall|x1: int, x2: int|
                    0 <= x1 < x2 < j + 1 implies child_key(saved@, #[trigger] moves@[x1]) != child_key(
                    saved@,
                    #[trigger] moves@[x2],
                ) by {
                    if x2 == j {
                        assert(keys@[base + x1] == child_key(saved@, moves@[x1]));
                    }
                }
            }
            keys.push(key);
            let ghost best_before = best_score;
            let ghost best_move_before = best_move;
            match self.get(&key) {
                Some(entry) => {
                    let score = entry.value * adjust;
                    if entry.node_type == NodeType::PV && score > best_score {
                        best_move = Some(mov);
                        best_score = score;
                        proof {
                            best_idx = j as int;
                        }
                    }
                },
                None => {},
            }
            proof {
                assert forall|x: int|
                    0 <= x < j + 1 && best_move is Some && pv_score(t, saved@, #[trigger] moves@[x], ply) == Some(
                        best_score as int,
                    ) implies x >= best_idx by {
                    if x < j && best_score != best_before {
                        assert(score_at_most(t, saved@, moves@[x], ply, best_before as int));
                    }
                }
                assert forall|x: int| 0 <= x < j + 1 implies #[trigger] score_at_most(t, saved@, moves@[x], ply, best_score as int) by {
                    if x < j {
                        assert(score_at_most(t, saved@, moves@[x], ply, best_before as int));
                    }
                }
                assert forall|x: int| 0 <= x < j + 1 implies #[trigger] keys@[base + x] == child_key(saved@, moves@[x]) by {
                    if x < j {
                        assert(keys@[base + x] == keys_mid[base + x]);
                    }
                }
                assert forall|k: int| 0 <= k < base implies #[trigger] keys@[k] == k0[k] by {
                    assert(keys@[k] == keys_mid[k]);
                }
            }
            j = j + 1;
        }
        proof {
            reveal(best_pv_move);
            assert forall|k: int| base <= k < keys@.len() implies exists|m: Move|
                legal_move(saved@, m) && #[trigger] keys@[k] == child_key(saved@, m) by {
                let x = k - base;
                assert(keys@[base + x] == child_key(saved@, moves@[x]));
                assert(moves@.contains(moves@[x]));
            }
            assert forall|m: Move| #[trigger] legal_move(saved@, m) implies keys@.contains(child_key(saved@, m)) && !k0.contains(
                child_key(saved@, m),
            ) by {
                assert(moves@.contains(m));
                let x = choose|x: int| 0 <= x < moves@.len() && moves@[x] == m;
                assert(keys@[base + x] == child_key(saved@, moves@[x]));
            }
            assert forall|m1: Move, m2: Move|
                legal_move(saved@, m1) && legal_move(saved@, m2) && m1 != m2 implies #[trigger] child_key(saved@, m1)
                != #[trigger] child_key(saved@, m2) by {
                assert(moves@.contains(m1));
                assert(moves@.contains(m2));
                let x1 = choose|x: int| 0 <= x < moves@.len() && moves@[x] == m1;
                let x2 = choose|x: int| 0 <= x < moves@.len() && moves@[x] == m2;
                if x1 < x2 {
                    assert(child_key(saved@, moves@[x1]) != child_key(saved@, moves@[x2]));
                } else {
                    assert(child_key(saved@, moves@[x2]) != child_key(saved@, moves@[x1]));
                }
            }
            match best_move {
                Some(b) => {
                    assert forall|m2: Move| #[trigger] legal_move(saved@, m2) implies score_at_most(
                        t,
                        saved@,
                        m2,
                        ply,
                        best_score as int,
                    ) by {
                        assert(moves@.contains(m2));
                        let x = choose|x: int| 0 <= x < moves@.len() && moves@[x] == m2;
                        assert(score_at_most(t, saved@, moves@[x], ply, best_score as int));
                    }
                    reveal(first_best);
                    assert forall|m2: Move| #[trigger] best_pv_move(t, saved@, m2, ply) implies m2 == b || move_key(
                        saved@,
                        b,
                    ) < move_key(saved@, m2) by {
                        assert(moves@.contains(m2));
                        let x = choose|x: int| 0 <= x < moves@.len() && moves@[x] == m2;
                        assert(score_at_most(t, saved@, moves@[x], ply, best_score as int));
                        assert(score_at_most(t, saved@, b, ply, pv_score(t, saved@, m2, ply)->Some_0));
                        assert(pv_score(t, saved@, moves@[x], ply) == Some(best_score as int));
                        if x != best_idx {
                            assert(x >= best_idx);
                            assert(move_key(saved@, moves@[best_idx]) < move_key(saved@, moves@[x]));
                        }
                    }
                },
                None => {
                    assert forall|m: Move| !#[trigger] best_pv_move(t, saved@, m, ply) by {
                        if best_pv_move(t, saved@, m, ply) {
                            assert(moves@.contains(m));
                            let x = choose|x: int| 0 <= x < moves@.len() && moves@[x] == m;
                            assert(score_at_most(t, saved@, moves@[x], ply, best_score as int));
                        }
                    }
                },
            }
        }
        (best_move, false)
    }

    /// The line of best play that the table records from the position: from each position the
    /// legal move to a principal-variation node with the best score for the side to move (of
    /// equally scored moves, the first in the generator's order), until none is recorded, a
    /// position comes round again (the line stops before the first such position) or `MAX_LINE`
    /// moves are found; where that line is empty, the first legal
    /// move in the generator's order. The board is left as it was.
    #[verifier::spinoff_prover]
    #[verifier::rlimit(40)]
    pub fn principal_variation(&self, board: &mut Board) -> (r: Vec<Move>)
        requires
            self.wf(),
            self.sound(),
            self@.len() > 0,
            old(board).wf(),
        ensures
            *final(board) == *old(board),
            legal_line(old(board)@, r@),
            r@.len() == 0 <==> forall|m: Move| !#[trigger] legal_move(old(board)@, m),
            (recorded_line(self@, old(board)@, r@) && ends_line(self@, old(board)@, r@) && forall|k: int|
                0 <= k < r@.len() ==> !repeats(old(board)@, #[trigger] r@.take(k))) || (r@.len() == 1 && ends_line(
                self@,
                old(board)@,
                Seq::<Move>::empty(),
            ) && first_legal(old(board)@, r@[0])),
    {
        let ghost before = *board;
        let ghost t = self@;
        let mut pv: Vec<PlayedMove> = Vec::new();
        let mut keys: Vec<Key> = Vec::new();
        let mut adjust: i32 = 1;
        let ghost mut states: Seq<BoardState> = seq![before@];
        let ghost mut line: Seq<Move> = Seq::empty();
        let mut stop = false;
        proof {
            before.lemma_wf_len();
        }
        proof {
            reveal(keys_from);
            reveal(recorded_line);
            reveal(keys_cover);
        }
        while !stop && pv.len() < MAX_LINE
            invariant_except_break
                !stop ==> adjust == (if pv@.len() % 2 == 0 {
                    1i32
                } else {
                    -1i32
                }),
                !stop ==> keys_from(keys@, before@, line),
                !stop ==> keys_cover(keys@, before@, line),
            invariant
                self.wf(),
                self.sound(),
                self@.len() > 0,
                t == self@,
                board.wf(),
                pv@.len() <= MAX_LINE,
                states.len() == pv@.len() + 1,
                line.len() == pv@.len(),
                states[0] == before@,
                board@ == states[pv@.len() as int],
                forall|k: int| 0 <= k < states.len() ==> (#[trigger] states[k]).pieces.len() == 64 && castle_ok(states[k].pieces, states[k].flags),
                forall|k: int| 0 <= k < line.len() ==> legal_move(states[k], #[trigger] line[k]) && states[k + 1]
                    == spec_make_move(states[k], line[k]) && pv@[k] == spec_played_move(states[k], line[k]) && pv@[k].mov == line[k],
                states[line.len() as int] == line_state(before@, line, line.len() as int),
                recorded_line(t, before@, line),
                forall|k: int| 0 <= k < line.len() ==> !repeats(before@, #[trigger] line.take(k)),
                stop ==> (forall|m: Move| !#[trigger] best_pv_move(t, line_state(before@, line, line.len() as int), m, line.len() as int))
                    || repeats(before@, line),
            ensures
                stop || pv@.len() == MAX_LINE,
            decreases MAX_LINE - pv@.len(), if stop { 0int } else { 1int },
        {
            // Negate score based on who is playing
            adjust = -adjust;
            let ghost n = line.len() as int;
            let ghost keys_before = keys@;
            proof {
                assert(states[n] == line_state(before@, line, n));
            }
            let (best_move, seen) = self.best_child(board, &mut keys, adjust, Ghost(n));
            if seen {
                proof {
                    lemma_pv_repeat(before@, line, keys_before);
                }
                stop = true;
                break;
            }
            match best_move {
                Some(best) => {
                    let ghost st = board@;
                    proof {
                        lemma_unmake_undoes_make(st, best);
                        lemma_pv_step(t, before@, line, best, keys_before, keys@);
                        lemma_no_repeat(before@, line, keys_before);
                        lemma_no_repeat_push(before@, line, best);
                    }
                    let pmov = board.make_move(best);
                    pv.push(pmov);
                    proof {
                        lemma_line_state_push(before@, line, best, n);
                        states = states.push(board@);
                        line = line.push(best);
                    }
                },
                None => {
                    stop = true;
                },
            }
        }
        proof {
            let n = line.len() as int;
            assert(ends_line(t, before@, line));
        }
        let ghost n = pv@.len();
        let mut i = pv.len();
        while i > 0
            invariant
                i <= pv@.len(),
                n == pv@.len(),
                board.wf(),
                states.len() == pv@.len() + 1,
                line.len() == pv@.len(),
                board@ == states[i as int],
                forall|k: int| 0 <= k < states.len() ==> (#[trigger] states[k]).pieces.len() == 64 && castle_ok(states[k].pieces, states[k].flags),
                forall|k: int| 0 <= k < line.len() ==> legal_move(states[k], #[trigger] line[k]) && states[k + 1]
                    == spec_make_move(states[k], line[k]) && pv@[k] == spec_played_move(states[k], line[k]),
            decreases i,
        {
            i = i - 1;
            proof {
                lemma_unmake_undoes_make(states[i as int], line[i as int]);
            }
            board.unmake_move(pv[i]);
        }
        proof {
            lemma_view_determines_board(*board, before);
        }
        // Return a totally random move if we couldn't find anything.
        // This can happen if search is stopped very quickly.
        if pv.len() == 0 {
            proof {
                assert(line =~= Seq::<Move>::empty());
            }
            let legal_moves = board.moves();
            let moves = in_order(board, &legal_moves);
            if moves.len() > 0 {
                let first = moves[0];
                assert(moves@.contains(first));
                let r = vec![first];
                proof {
                    assert forall|m: Move| #[trigger] legal_move(before@, m) implies m == first || move_key(before@, first)
                        < move_key(before@, m) by {
                        assert(moves@.contains(m));
                        let k = choose|k: int| 0 <= k < moves@.len() && moves@[k] == m;
                        if k > 0 {
                            assert(move_key(before@, moves@[0]) < move_key(before@, moves@[k]));
                        }
                    }
                    assert(r@.drop_first() =~= Seq::<Move>::empty());
                    assert(legal_move(before@, first));
                    reveal_with_fuel(legal_line, 2);
                }
                return r;
            }
            proof {
                assert forall|m: Move| !#[trigger] legal_move(before@, m) by {
                    if legal_move(before@, m) {
                        assert(moves@.contains(m));
                    }
                }
            }
            let r: Vec<Move> = Vec::new();
            proof {
                assert(r@ =~= Seq::<Move>::empty());
            }
            return r;
        }
        let mut r: Vec<Move> = Vec::new();
        let mut k: usize = 0;
        while k < pv.len()
            invariant
                k <= pv@.len(),
                line.len() == pv@.len(),
                forall|j: int| 0 <= j < line.len() ==> pv@[j].mov == #[trigger] line[j],
                r@ == line.take(k as int),
            decreases pv@.len() - k,
        {
            r.push(pv[k].mov);
            assert(r@ =~= line.take(k + 1));
            k = k + 1;
        }
        proof {
            assert(r@ =~= line);
            lemma_legal_line(states, line, 0);
            assert(line.skip(0) =~= line);
            assert(legal_move(before@, line[0]));
        }
        r
    }
}

/// Reading a key just stored gives back the node stored.
pub proof fn law_get_after_insert(t: Seq<(u64, u64)>, h: u64, node: Node)
    requires
        t.len() > 0,
    ensures
        spec_get(t.update(slot(h, t.len()), (h ^ encode(node), encode(node))), h) == Some(node),
{
    let e = encode(node);
    assert((h ^ e) ^ e == h) by (bit_vector);
    law_decode_encode(node);
}

/// Storing a node leaves what is read for a key of another slot as it was.
pub proof fn law_get_other_slot(t: Seq<(u64, u64)>, h: u64, node: Node, h2: u64)
    requires
        t.len() > 0,
        slot(h2, t.len()) != slot(h, t.len()),
    ensures
        spec_get(t.update(slot(h, t.len()), (h ^ encode(node), encode(node))), h2) == spec_get(t, h2),
{
}

} // verus!
