//! Searching for the best move: iterative deepening alpha-beta search with a transposition
//! table, and a quiescence search at the leaves.
use vstd::prelude::*;
use arrayvec::ArrayVec;

use crate::board::{can_make, holds, spec_eval, spec_make_move, lemma_unmake_undoes_make, lemma_view_determines_board, Board, BoardState};
use crate::move_generation::{capturing_move, legal, legal_move, pseudo_legal, spec_check};
use crate::moves::Move;
use crate::piece::{Piece, PieceTypeV};
use crate::player::PlayerV;
use crate::search::order::{capture_order, in_order, lemma_capture_order, lemma_pseudo_legal_order, pseudo_legal_order};
use crate::search::ttable::{board_of, encode, lemma_board_of, slot, ends_line, key_hash, law_get_after_insert, lemma_recorded_line_take, legal_line, recorded_line, spec_get, Node, NodeType, TranspositionTable};

pub mod order;
pub mod tree;
pub mod ttable;

verus! {

/// A score higher than any position's.
pub const HIGH_SCORE: i32 = 2147483647;

/// A score lower than any position's; not `i32::MIN`, so that it can be negated.
pub const LOW_SCORE: i32 = -2147483647;

/// The score of a won position.
pub const WIN: i32 = 1000000;

/// The longest principal variation kept between iterations.
pub const MAX_PV: usize = 32;

/// What an `ArrayVec` of moves holds, first pushed first.
pub uninterp spec fn pv_moves(v: ArrayVec<Move, 32>) -> Seq<Move>;

/// `ArrayVec::new` for moves: an empty vector.
#[verifier::external_body]
fn pv_new() -> (r: ArrayVec<Move, 32>)
    ensures
        pv_moves(r) == Seq::<Move>::empty(),
{
    ArrayVec::new()
}

/// `ArrayVec::clear` for moves: empties the vector.
#[verifier::external_body]
fn pv_clear(v: &mut ArrayVec<Move, 32>)
    ensures
        pv_moves(*final(v)) == Seq::<Move>::empty(),
{
    v.clear()
}

/// `ArrayVec::try_push` for moves: appends where fewer than 32 are held, and fails, leaving the
/// vector as it was, where 32 are.
#[verifier::external_body]
fn pv_push(v: &mut ArrayVec<Move, 32>, m: Move) -> (ok: bool)
    ensures
        ok == (pv_moves(*old(v)).len() < 32),
        ok ==> pv_moves(*final(v)) == pv_moves(*old(v)).push(m),
        !ok ==> pv_moves(*final(v)) == pv_moves(*old(v)),
{
    v.try_push(m).is_ok()
}

/// Slice `get` on the moves an `ArrayVec` holds: the move at the index, where there is one.
#[verifier::external_body]
fn pv_get(v: &ArrayVec<Move, 32>, i: usize) -> (r: Option<Move>)
    ensures
        i < pv_moves(*v).len() ==> r == Some(pv_moves(*v)[i as int]),
        i >= pv_moves(*v).len() ==> r is None,
{
    v.get(i).copied()
}

/// Something that can ask a running search to stop.
pub trait AbortSignal {
    /// A stop has been asked for since the last call.
    fn abort_requested(&mut self) -> bool;
}

/// The state of one search: when to stop, how deep the current iteration goes, and the line
/// found by the previous iteration.
pub struct ThreadSearcher<A: AbortSignal> {
    pub abort_signal: A,
    pub abort: bool,
    pub target_depth: u16,
    pub max_depth: u16,
    pub principal_variation: ArrayVec<Move, MAX_PV>,
    /// true while we are searching the left-most tree (i.e. the principal variation)
    pub leftmost: bool,
}

/// `make_move` and `unmake_move` can be used on the move: `make_move` accepts it, and it
/// promotes only a pawn.
fn playable(board: &Board, mov: Move) -> (r: bool)
    requires
        board.wf(),
    ensures
        r == (crate::board::can_make(board@, mov) && (mov.promoting is Some ==> board@.pieces[mov.from.index()] == Some(
            Piece { player: board@.player, piece_type: PieceTypeV::Pawn },
        ))),
{
    if !board.can_make_move(mov) {
        return false;
    }
    match mov.promoting() {
        None => true,
        Some(_) => holds(board.get(mov.from()), Piece::new(board.player(), PieceTypeV::Pawn)),
    }
}

/// The table's entry for the position (hash `h`) settles a search to `depth` plies within
/// `alpha` and `beta`: it was searched at least as deep, and is exact, or its bound closes the
/// window.
pub open spec fn table_cut(t: Seq<(u64, u64)>, h: u64, depth: u16, alpha: i32, beta: i32) -> bool {
    match spec_get(t, h) {
        Some(e) => e.depth >= depth && (e.node_type == NodeType::PV || {
            let a = if e.node_type == NodeType::Cut && e.value > alpha {
                e.value
            } else {
                alpha
            };
            let b = if e.node_type == NodeType::All && e.value < beta {
                e.value
            } else {
                beta
            };
            a >= b
        }),
        None => false,
    }
}

/// The upper bound a search to `depth` plies works with at the position (hash `h`): `beta`,
/// lowered to the value of a table entry searched at least as deep that bounds the position from
/// above.
pub open spec fn search_upper(t: Seq<(u64, u64)>, h: u64, depth: u16, beta: i32) -> i32 {
    match spec_get(t, h) {
        Some(e) => if e.depth >= depth && e.node_type == NodeType::All && e.value < beta {
            e.value
        } else {
            beta
        },
        None => beta,
    }
}

/// The lower bound a search to `depth` plies works with at the position (hash `h`): `alpha`,
/// raised to the value of a table entry searched at least as deep that bounds the position from
/// below.
pub open spec fn search_lower(t: Seq<(u64, u64)>, h: u64, depth: u16, alpha: i32) -> i32 {
    match spec_get(t, h) {
        Some(e) => if e.depth >= depth && e.node_type == NodeType::Cut && e.value > alpha {
            e.value
        } else {
            alpha
        },
        None => alpha,
    }
}

/// The hash the table stores the position under.
pub open spec fn position_hash(st: BoardState) -> u64 {
    key_hash(board_of(st).spec_key())
}

/// The table with `node` stored under the hash `h`, as `TranspositionTable::insert` leaves it.
pub open spec fn table_insert(t: Seq<(u64, u64)>, h: u64, node: Node) -> Seq<(u64, u64)> {
    t.update(slot(h, t.len()), (h ^ encode(node), encode(node)))
}

/// The moves of `s` other than `p`'s move, in order.
pub open spec fn without(s: Seq<Move>, p: Option<Move>) -> Seq<Move>
    decreases s.len(),
{
    if s.len() == 0 {
        s
    } else if p == Some(s.last()) {
        without(s.drop_last(), p)
    } else {
        without(s.drop_last(), p).push(s.last())
    }
}

/// The moves a search tries, in order: the kept line's move first (where `pvc` has it), then
/// the other pseudo-legal moves in the searches' order.
pub open spec fn search_moves(st: BoardState, player: PlayerV, pvc: Option<Move>) -> Seq<Move> {
    pv_prefix(pvc) + without(pseudo_legal_order(st, player), pvc)
}

/// The kept line's move, where there is one, as a sequence.
pub open spec fn pv_prefix(pvc: Option<Move>) -> Seq<Move> {
    match pvc {
        Some(p) => seq![p],
        None => Seq::empty(),
    }
}

/// The result of an alpha-beta search (see `ThreadSearcher::search`) that is not stopped: its
/// value, the table after it, and whether it is still in the left-most part of the tree. `t` is
/// the table, `st` the position, `pv` the kept line and `leftmost` whether the search is in the
/// left-most part of the tree.
pub open spec fn spec_search(
    t: Seq<(u64, u64)>,
    st: BoardState,
    player: PlayerV,
    depth: u16,
    alpha: i32,
    beta: i32,
    leftmost: bool,
    pv: Seq<Move>,
    max_depth: int,
) -> (int, Seq<(u64, u64)>, bool)
    decreases depth, 1int, 0int,
{
    let h = position_hash(st);
    if table_cut(t, h, depth, alpha, beta) {
        (spec_get(t, h)->Some_0.value as int, t, leftmost)
    } else {
        let lower = search_lower(t, h, depth, alpha);
        let upper = search_upper(t, h, depth, beta);
        if depth == 0 {
            (spec_quiesce(st, player, lower as int, upper as int, 0), t, leftmost)
        } else {
            let pvc = pv_candidate(leftmost, pv, max_depth - depth);
            let r = search_loop(
                t,
                st,
                player,
                depth,
                search_moves(st, player, pvc),
                0,
                LOW_SCORE as int,
                lower as int,
                upper as int,
                leftmost,
                pv,
                max_depth,
            );
            let v = if r.0 == LOW_SCORE {
                no_move_value(st)
            } else {
                r.0
            };
            let node = Node { depth, value: v as i32, node_type: recorded_type(v, alpha as int, upper as int) };
            (v, table_insert(r.1, h, node), r.2)
        }
    }
}

/// The search's moves from the `i`-th of `moves` on, with `value` the best value so far and
/// `lower` and `upper` the bounds: each legal move's value is minus the search one ply less
/// deep from the position it leads to; a move reaching `upper` ends the search, and after any
/// other move the search is no longer in the left-most part of the tree.
pub open spec fn search_loop(
    t: Seq<(u64, u64)>,
    st: BoardState,
    player: PlayerV,
    depth: u16,
    moves: Seq<Move>,
    i: int,
    value: int,
    lower: int,
    upper: int,
    leftmost: bool,
    pv: Seq<Move>,
    max_depth: int,
) -> (int, Seq<(u64, u64)>, bool)
    decreases depth, 0int, moves.len() - i,
{
    if depth == 0 || i < 0 || i >= moves.len() {
        (value, t, leftmost)
    } else if !searched_move(st, moves[i]) {
        search_loop(t, st, player, depth, moves, i + 1, value, lower, upper, leftmost, pv, max_depth)
    } else {
        let c = spec_search(
            t,
            spec_make_move(st, moves[i]),
            player.spec_opponent(),
            (depth - 1) as u16,
            (-upper) as i32,
            (-lower) as i32,
            leftmost,
            pv,
            max_depth,
        );
        let mv = -c.0;
        let value2 = if mv > value {
            mv
        } else {
            value
        };
        let lower2 = if value2 > lower {
            value2
        } else {
            lower
        };
        if lower2 >= upper {
            (value2, c.1, c.2)
        } else {
            search_loop(c.1, st, player, depth, moves, i + 1, value2, lower2, upper, false, pv, max_depth)
        }
    }
}

/// A move the search does not play leaves the rest of the search as it is.
proof fn lemma_search_loop_skip(
    t: Seq<(u64, u64)>,
    st: BoardState,
    player: PlayerV,
    depth: u16,
    moves: Seq<Move>,
    i: int,
    value: int,
    lower: int,
    upper: int,
    leftmost: bool,
    pv: Seq<Move>,
    max_depth: int,
)
    requires
        depth > 0,
        0 <= i < moves.len(),
        !searched_move(st, moves[i]),
    ensures
        search_loop(t, st, player, depth, moves, i, value, lower, upper, leftmost, pv, max_depth) == search_loop(
            t,
            st,
            player,
            depth,
            moves,
            i + 1,
            value,
            lower,
            upper,
            leftmost,
            pv,
            max_depth,
        ),
{
}

/// A move the search plays: its value is minus the child search's, and the search ends where
/// the value reaches the upper bound.
proof fn lemma_search_loop_step(
    t: Seq<(u64, u64)>,
    st: BoardState,
    player: PlayerV,
    depth: u16,
    moves: Seq<Move>,
    i: int,
    value: int,
    lower: int,
    upper: int,
    leftmost: bool,
    pv: Seq<Move>,
    max_depth: int,
    c: (int, Seq<(u64, u64)>, bool),
)
    requires
        depth > 0,
        0 <= i < moves.len(),
        searched_move(st, moves[i]),
        c == spec_search(
            t,
            spec_make_move(st, moves[i]),
            player.spec_opponent(),
            (depth - 1) as u16,
            (-upper) as i32,
            (-lower) as i32,
            leftmost,
            pv,
            max_depth,
        ),
    ensures
        ({
            let value2 = if -c.0 > value {
                -c.0
            } else {
                value
            };
            let lower2 = if value2 > lower {
                value2
            } else {
                lower
            };
            search_loop(t, st, player, depth, moves, i, value, lower, upper, leftmost, pv, max_depth) == if lower2
                >= upper {
                (value2, c.1, c.2)
            } else {
                search_loop(c.1, st, player, depth, moves, i + 1, value2, lower2, upper, false, pv, max_depth)
            }
        }),
{
}

/// How a search records its value `v` found within `alpha` and `upper`: a bound from above
/// where it does not rise over `alpha`, from below where it reaches `upper`, exact otherwise.
pub open spec fn recorded_type(v: int, alpha: int, upper: int) -> NodeType {
    if v <= alpha {
        NodeType::All
    } else if v >= upper {
        NodeType::Cut
    } else {
        NodeType::PV
    }
}

/// A move that the quiescence search tries from `st` for `player`: any pseudo-legal move when
/// in check, a capture otherwise.
pub open spec fn quiesce_candidate(st: BoardState, player: PlayerV, m: Move) -> bool {
    if spec_check(st, player) {
        pseudo_legal(st, player, m)
    } else {
        capturing_move(st, player, m)
    }
}

/// Where the quiescence search starts from at `st` within `alpha` and `beta`: `alpha`, raised to
/// the position's own material score where `player` is not in check.
pub open spec fn quiesce_floor(st: BoardState, player: PlayerV, alpha: int) -> int {
    if !spec_check(st, player) && spec_eval(st) > alpha {
        spec_eval(st)
    } else {
        alpha
    }
}

/// The value of playing `m` from `st` one ply before the quiescence search stops: minus the
/// material score of the position it leads to.
pub open spec fn quiesce_leaf_value(st: BoardState, m: Move) -> int {
    -spec_eval(spec_make_move(st, m))
}

/// The moves the quiescence search tries, in the order it tries them: every pseudo-legal move in
/// check, the captures otherwise.
pub open spec fn quiesce_moves(st: BoardState, player: PlayerV) -> Seq<Move> {
    if spec_check(st, player) {
        pseudo_legal_order(st, player)
    } else {
        capture_order(st, player)
    }
}

/// The value of the quiescence search (see `ThreadSearcher::quiesce`) from `st` for `player`
/// within `alpha` and `beta`, `depth` plies above its cut-off.
pub open spec fn spec_quiesce(st: BoardState, player: PlayerV, alpha: int, beta: int, depth: int) -> int
    decreases depth + 1, 1int, 0int,
{
    if depth <= -1 {
        spec_eval(st)
    } else if !spec_check(st, player) && spec_eval(st) >= beta {
        beta
    } else {
        quiesce_loop(st, player, beta, depth, quiesce_moves(st, player), 0, quiesce_floor(st, player, alpha), false)
    }
}

/// The quiescence search from the `i`-th of `moves` on, with `lower` the best value so far and
/// `played` whether a move was played yet: each legal move's value is minus the search one ply
/// deeper from the position it leads to; a value reaching `beta` ends the search.
pub open spec fn quiesce_loop(
    st: BoardState,
    player: PlayerV,
    beta: int,
    depth: int,
    moves: Seq<Move>,
    i: int,
    lower: int,
    played: bool,
) -> int
    decreases depth + 1, 0int, moves.len() - i,
{
    if depth < 0 || i < 0 || i >= moves.len() {
        if !played && spec_check(st, player) {
            -WIN
        } else {
            lower
        }
    } else if !searched_move(st, moves[i]) {
        quiesce_loop(st, player, beta, depth, moves, i + 1, lower, played)
    } else {
        let v = -spec_quiesce(spec_make_move(st, moves[i]), player.spec_opponent(), -beta, -lower, depth - 1);
        let lower2 = if v > lower {
            v
        } else {
            lower
        };
        if lower2 >= beta {
            lower2
        } else {
            quiesce_loop(st, player, beta, depth, moves, i + 1, lower2, true)
        }
    }
}

/// A move that the quiescence search tries and plays from `st` for `player`.
pub open spec fn quiesce_played(st: BoardState, player: PlayerV, m: Move) -> bool {
    quiesce_candidate(st, player, m) && searched_move(st, m)
}

/// The move of the kept principal variation that the search tries first at a node `idx`
/// plies below the root, while it is still in the left-most part of the tree.
pub open spec fn pv_candidate(leftmost: bool, pv: Seq<Move>, idx: int) -> Option<Move> {
    if leftmost && 0 <= idx < pv.len() {
        Some(pv[idx])
    } else {
        None
    }
}

/// The value of a position without a move to play: a loss where the side to move is
/// checkmated, a draw otherwise.
pub open spec fn no_move_value(st: BoardState) -> int {
    if spec_check(st, st.player) && forall|m: Move| !#[trigger] legal_move(st, m) {
        -WIN
    } else {
        0
    }
}

/// A move that the searches play: `make_move` accepts it, it promotes only a pawn, and it is
/// legal.
pub open spec fn searched_move(st: BoardState, m: Move) -> bool {
    &&& can_make(st, m)
    &&& m.promoting is Some ==> st.pieces[m.from.index()] == Some(Piece { player: st.player, piece_type: PieceTypeV::Pawn })
    &&& legal(st, m)
}

/// The first moves of a legal line form a legal line.
pub proof fn lemma_legal_line_prefix(st: BoardState, moves: Seq<Move>, k: int)
    requires
        legal_line(st, moves),
        0 <= k <= moves.len(),
    ensures
        legal_line(st, moves.take(k)),
    decreases k,
{
    if k > 0 {
        assert(moves.take(k)[0] == moves[0]);
        assert(moves.take(k).drop_first() =~= moves.drop_first().take(k - 1));
        lemma_legal_line_prefix(spec_make_move(st, moves[0]), moves.drop_first(), k - 1);
    }
}

impl<A: AbortSignal> ThreadSearcher<A> {
    /// A search that stops at `target_depth` (never, where none is given) or when the signal
    /// asks it to.
    pub fn new(abort_signal: A, target_depth: Option<u16>) -> (r: Self)
        ensures
            !r.abort,
            r.target_depth == (match target_depth {
                Some(d) => d,
                None => 65535u16,
            }),
            r.max_depth == 0,
            r.leftmost,
            pv_moves(r.principal_variation) == Seq::<Move>::empty(),
    {
        ThreadSearcher {
            abort_signal,
            abort: false,
            target_depth: match target_depth {
                Some(d) => d,
                None => 65535u16,
            },
            max_depth: 0,
            principal_variation: pv_new(),
            leftmost: true,
        }
    }

    /// Whether to stop: once asked to, or once deeper than the target depth, it stays stopped.
    pub fn should_abort(&mut self) -> (r: bool)
        ensures
            r == final(self).abort,
            old(self).abort ==> r,
            old(self).max_depth > old(self).target_depth ==> r,
            !r ==> final(self).max_depth <= final(self).target_depth,
            final(self).max_depth == old(self).max_depth,
            final(self).target_depth == old(self).target_depth,
            final(self).principal_variation == old(self).principal_variation,
            final(self).leftmost == old(self).leftmost,
    {
        self.abort = self.abort || self.max_depth > self.target_depth || self.abort_signal.abort_requested();
        self.abort
    }

    /// The line kept from the one the table records from `st`: its first `MAX_PV` moves (all of
    /// them where fewer), each a best move of the table, or where the table records no line, a
    /// single legal move.
    pub open spec fn keeps_line(self, t: Seq<(u64, u64)>, st: BoardState) -> bool {
        let kept = pv_moves(self.principal_variation);
        &&& legal_line(st, kept)
        &&& kept.len() <= MAX_PV
        &&& (kept.len() == 0 <==> forall|m: Move| !#[trigger] legal_move(st, m))
        &&& ((recorded_line(t, st, kept) && (kept.len() < MAX_PV ==> ends_line(t, st, kept))) || (kept.len() == 1
            && ends_line(t, st, Seq::<Move>::empty())))
    }

    /// One iteration of `run`, given whether a stop has just been asked for. Where stopped
    /// before, deeper than the target, or asked to stop, marks itself stopped, changes nothing
    /// else and returns false. Otherwise searches the position `max_depth` plies deep over the
    /// whole window (after which, unless the search was stopped, the table holds the position
    /// at that depth or deeper), keeps the first `MAX_PV` moves of the line the table then
    /// records, goes one ply deeper (up to 65535) and returns true. The board is left as it
    /// was.
    pub fn deepen(&mut self, board: &mut Board, table: &mut TranspositionTable, stop: bool) -> (r: bool)
        requires
            old(board).wf(),
            old(table).wf(),
            old(table).sound(),
            old(table)@.len() > 0,
            old(self).max_depth >= 1,
        ensures
            *final(board) == *old(board),
            final(table).wf(),
            final(table).sound(),
            final(table)@.len() == old(table)@.len(),
            final(self).target_depth == old(self).target_depth,
            r == !(old(self).abort || old(self).max_depth > old(self).target_depth || stop),
            !r ==> final(self).abort && *final(table) == *old(table) && final(self).principal_variation == old(
                self,
            ).principal_variation && final(self).max_depth == old(self).max_depth,
            r ==> final(self).max_depth == (if old(self).max_depth < 65535 {
                old(self).max_depth + 1
            } else {
                65535
            }),
            r ==> final(self).keeps_line(final(table)@, old(board)@),
            r && !final(self).abort ==> (spec_get(final(table)@, key_hash(old(board).spec_key())) matches Some(n)
                && n.depth >= old(self).max_depth),
    {
        self.abort = self.abort || self.max_depth > self.target_depth || stop;
        if self.abort {
            return false;
        }
        let ghost before = *board;
        self.leftmost = true;
        let player = board.player();
        self.search(board, table, player, self.max_depth, LOW_SCORE, HIGH_SCORE);
        let pv = table.principal_variation(board);
        pv_clear(&mut self.principal_variation);
        let mut i: usize = 0;
        let ghost depth_now = self.max_depth;
        let ghost target_now = self.target_depth;
        let ghost abort_now = self.abort;
        while i < pv.len()
            invariant
                self.max_depth == depth_now,
                self.target_depth == target_now,
                self.abort == abort_now,
                i <= pv@.len(),
                pv_moves(self.principal_variation) == pv@.take(i as int),
                pv_moves(self.principal_variation).len() <= MAX_PV,
            ensures
                i == pv@.len() || i == MAX_PV,
            decreases pv@.len() - i,
        {
            if !pv_push(&mut self.principal_variation, pv[i]) {
                break;
            }
            assert(pv@.take(i as int).push(pv@[i as int]) =~= pv@.take(i + 1));
            i = i + 1;
        }
        proof {
            let kept = pv_moves(self.principal_variation);
            let k = kept.len() as int;
            assert(kept =~= pv@.take(k));
            lemma_legal_line_prefix(before@, pv@, k);
            if recorded_line(table@, before@, pv@) && ends_line(table@, before@, pv@) {
                lemma_recorded_line_take(table@, before@, pv@, k);
                if k < MAX_PV {
                    assert(pv@.take(k) =~= pv@);
                }
            } else {
                assert(pv@.take(k) =~= pv@);
            }
            if k == 0 {
                assert(pv@.len() == 0);
            }
            if pv@.len() == 0 {
                assert(kept =~= Seq::<Move>::empty());
            }
        }
        if self.max_depth < 65535 {
            self.max_depth = self.max_depth + 1;
        }
        true
    }

    /// Searches deeper and deeper, one more ply per iteration (the first one ply deep), until
    /// stopped or 65535 plies deep, asking the signal before each iteration whether to stop
    /// (see `deepen`). Where stopped before the first iteration, the table and the kept line are
    /// left as they were; otherwise the kept line is taken from what the table records at the
    /// end. The board is left as it was.
    pub fn run(&mut self, board: &mut Board, table: &mut TranspositionTable)
        requires
            old(board).wf(),
            old(table).wf(),
            old(table).sound(),
            old(table)@.len() > 0,
        ensures
            *final(board) == *old(board),
            final(table).wf(),
            final(table).sound(),
            final(table)@.len() == old(table)@.len(),
            final(self).abort || final(self).max_depth == 65535,
            final(self).target_depth == old(self).target_depth,
            1 <= final(self).max_depth,
            final(self).max_depth == 1 ==> *final(table) == *old(table) && final(self).principal_variation == old(
                self,
            ).principal_variation,
            final(self).max_depth > 1 ==> final(self).keeps_line(final(table)@, old(board)@),
    {
        let ghost size = table@.len();
        self.max_depth = 1;
        loop
            invariant
                *board == *old(board),
                board.wf(),
                table.wf(),
                table.sound(),
                table@.len() == size,
                size == old(table)@.len(),
                size > 0,
                self.max_depth >= 1,
                self.max_depth <= self.target_depth + 1,
                self.target_depth == old(self).target_depth,
                self.max_depth == 1 ==> *table == *old(table) && self.principal_variation == old(self).principal_variation,
                self.max_depth > 1 ==> self.keeps_line(table@, old(board)@),
            ensures
                self.abort || self.max_depth == 65535,
            decreases self.target_depth + 1 - self.max_depth,
        {
            let asked = if self.abort || self.max_depth > self.target_depth {
                false
            } else {
                self.abort_signal.abort_requested()
            };
            let at = self.max_depth;
            if !self.deepen(board, table, asked) {
                break;
            }
            if at == 65535 {
                break;
            }
        }
    }

    /// Alpha-beta search to `depth` plies for `player`, with `alpha` the lower and `beta` the
    /// upper bound of the values of interest. Where the table's entry for the position settles
    /// the search (see `table_cut`), returns its value and leaves the table as it was;
    /// otherwise, unless stopped, records the result under the position, at this depth, as a
    /// bound or exact (see `recorded_type`). Unless stopped, the value, the table and whether the
    /// search is still in the left-most part of the tree are those `spec_search` gives: the
    /// negamax value over the moves in the generator's order (the kept line's move first), each
    /// move worth minus the value of the search one ply less deep after it, with alpha-beta
    /// cut-offs. Where no move is legal, the result is the score of a loss when in check and 0 (a
    /// draw) otherwise. Returns 0 where stopped. The board is left as it was.
    #[verifier::rlimit(100)]
    #[verifier::spinoff_prover]
    pub fn search(
        &mut self,
        board: &mut Board,
        table: &mut TranspositionTable,
        player: PlayerV,
        depth: u16,
        alpha: i32,
        beta: i32,
    ) -> (r: i32)
        requires
            old(board).wf(),
            old(table).wf(),
            old(table).sound(),
            old(table)@.len() > 0,
            LOW_SCORE <= alpha <= HIGH_SCORE,
            LOW_SCORE <= beta <= HIGH_SCORE,
            depth <= old(self).max_depth,
        ensures
            *final(board) == *old(board),
            final(table).wf(),
            final(table).sound(),
            final(table)@.len() == old(table)@.len(),
            LOW_SCORE <= r <= HIGH_SCORE,
            final(self).max_depth == old(self).max_depth,
            final(self).target_depth == old(self).target_depth,
            final(self).abort && !old(self).abort ==> r == 0,
            final(self).principal_variation == old(self).principal_variation,
            !final(self).abort ==> (r as int, final(table)@, final(self).leftmost) == spec_search(
                old(table)@,
                old(board)@,
                player,
                depth,
                alpha,
                beta,
                old(self).leftmost,
                pv_moves(old(self).principal_variation),
                old(self).max_depth as int,
            ),
            table_cut(old(table)@, key_hash(old(board).spec_key()), depth, alpha, beta) ==> r == spec_get(
                old(table)@,
                key_hash(old(board).spec_key()),
            )->Some_0.value && final(table)@ == old(table)@,
            !final(self).abort && depth > 0 && !table_cut(old(table)@, key_hash(old(board).spec_key()), depth, alpha, beta)
                ==> (spec_get(final(table)@, key_hash(old(board).spec_key())) matches Some(n) && n.depth == depth && n.value
                == r && n.node_type == recorded_type(
                r as int,
                alpha as int,
                search_upper(old(table)@, key_hash(old(board).spec_key()), depth, beta) as int,
            )),
            depth > 0 && !table_cut(old(table)@, key_hash(old(board).spec_key()), depth, alpha, beta) && (forall|m: Move|
                #[trigger] searched_move(old(board)@, m) ==> !pseudo_legal(old(board)@, player, m) && pv_candidate(
                    old(self).leftmost,
                    pv_moves(old(self).principal_variation),
                    old(self).max_depth - depth,
                ) != Some(m)) ==> r == no_move_value(old(board)@) && (spec_get(
                final(table)@,
                key_hash(old(board).spec_key()),
            ) matches Some(n) && n.depth == depth && n.value == r && n.node_type == recorded_type(
                r as int,
                alpha as int,
                search_upper(old(table)@, key_hash(old(board).spec_key()), depth, beta) as int,
            )),
        decreases depth,
    {
        let ghost before = *board;
        let ghost size = table@.len();
        let ghost t_in = table@;
        let mut lower = alpha;
        let mut upper = beta;
        let key = board.key();
        proof {
            lemma_board_of(before);
        }
        let lower_orig = lower;

        match table.get(&key) {
            Some(entry) => {
                if entry.depth >= depth {
                    match entry.node_type {
                        NodeType::PV => {
                            return entry.value;
                        },
                        NodeType::Cut => {
                            if entry.value > lower {
                                lower = entry.value;
                            }
                        },
                        NodeType::All => {
                            if entry.value < upper {
                                upper = entry.value;
                            }
                        },
                    }
                    if lower >= upper {
                        return entry.value;
                    }
                }
            },
            None => {},
        }

        proof {
            assert(lower == search_lower(t_in, key_hash(key), depth, alpha));
            assert(upper == search_upper(t_in, key_hash(key), depth, beta));
        }
        if depth == 0 {
            return self.quiesce(board, player, lower, upper, 0);
        }
        let ghost lower_init = lower as int;

        let mut value: i32 = LOW_SCORE;

        // Try the PV if we're still searching the left-most tree
        let pv = if self.leftmost {
            pv_get(&self.principal_variation, (self.max_depth - depth) as usize)
        } else {
            None
        };
        let generated = board.pseudo_legal_moves_for(player);
        let other_moves = in_order(board, &generated);
        proof {
            lemma_pseudo_legal_order(before@, player, other_moves@);
        }
        let mut candidates: Vec<Move> = Vec::new();
        match pv {
            Some(m) => candidates.push(m),
            None => {},
        }
        let ghost pvc = pv_candidate(
            old(self).leftmost,
            pv_moves(old(self).principal_variation),
            old(self).max_depth - depth,
        );
        assert(pv == pvc);
        assert(forall|m: Move| #[trigger] candidates@.contains(m) ==> pseudo_legal(before@, player, m) || pvc == Some(m)) by {
            assert forall|m: Move| #[trigger] candidates@.contains(m) implies pseudo_legal(before@, player, m) || pvc == Some(m) by {
                let j = choose|j: int| 0 <= j < candidates@.len() && candidates@[j] == m;
            }
        }
        assert(candidates@ =~= pv_prefix(pvc) + without(other_moves@.take(0), pvc));
        let mut k: usize = 0;
        while k < other_moves.len()
            invariant
                forall|m: Move| #[trigger] other_moves@.contains(m) == pseudo_legal(before@, player, m),
                forall|m: Move| #[trigger] candidates@.contains(m) ==> pseudo_legal(before@, player, m) || pvc == Some(m),
                k <= other_moves@.len(),
                pv == pvc,
                candidates@ == pv_prefix(pvc) + without(other_moves@.take(k as int), pvc),
            decreases other_moves@.len() - k,
        {
            proof {
                let tk = other_moves@.take(k + 1);
                assert(tk.drop_last() =~= other_moves@.take(k as int));
                assert(tk.last() == other_moves@[k as int]);
            }
            let m = other_moves[k];
            let same = match pv {
                Some(p) => p == m,
                None => false,
            };
            if !same {
                proof {
                    assert(other_moves@.contains(m));
                    assert forall|x: Move| #[trigger] candidates@.push(m).contains(x) implies pseudo_legal(before@, player, x)
                        || pvc == Some(x) by {
                        crate::move_generation::lemma_push_contains(candidates@, m, x);
                    }
                }
                candidates.push(m);
                assert(candidates@ =~= pv_prefix(pvc) + without(other_moves@.take(k + 1), pvc));
            }
            k = k + 1;
        }
        proof {
            assert(other_moves@.take(other_moves@.len() as int) =~= other_moves@);
            assert(candidates@ == search_moves(before@, player, pvc));
        }
        let ghost pvm = pv_moves(old(self).principal_variation);
        let ghost target_loop = search_loop(
            t_in,
            before@,
            player,
            depth,
            candidates@,
            0,
            LOW_SCORE as int,
            lower_init,
            upper as int,
            old(self).leftmost,
            pvm,
            old(self).max_depth as int,
        );
        let ghost mut cut = false;

        let mut i: usize = 0;
        while i < candidates.len()
            invariant_except_break
                !cut,
                search_loop(
                    table@,
                    before@,
                    player,
                    depth,
                    candidates@,
                    i as int,
                    value as int,
                    lower as int,
                    upper as int,
                    self.leftmost,
                    pvm,
                    self.max_depth as int,
                ) == target_loop,
            invariant
                cut ==> (value as int, table@, self.leftmost) == target_loop,
                self.principal_variation == old(self).principal_variation,
                pvm == pv_moves(old(self).principal_variation),
                *board == before,
                before == *old(board),
                size == old(table)@.len(),
                board.wf(),
                table.wf(),
                table.sound(),
                table@.len() == size,
                size > 0,
                LOW_SCORE <= lower <= HIGH_SCORE,
                LOW_SCORE <= upper <= HIGH_SCORE,
                LOW_SCORE <= value <= HIGH_SCORE,
                0 < depth <= self.max_depth,
                self.max_depth == old(self).max_depth,
                self.target_depth == old(self).target_depth,
                t_in == old(table)@,
                !table_cut(t_in, key_hash(before.spec_key()), depth, alpha, beta),
                upper == search_upper(t_in, key_hash(before.spec_key()), depth, beta),
                self.abort ==> old(self).abort,
                lower_orig == alpha,
                i <= candidates@.len(),
                pvc == pv_candidate(old(self).leftmost, pv_moves(old(self).principal_variation), old(self).max_depth - depth),
                forall|m: Move| #[trigger] candidates@.contains(m) ==> pseudo_legal(before@, player, m) || pvc == Some(m),
                value != LOW_SCORE ==> exists|k: int| 0 <= k < i && #[trigger] searched_move(before@, candidates@[k]),
            ensures
                !cut ==> i == candidates@.len() && search_loop(
                    table@,
                    before@,
                    player,
                    depth,
                    candidates@,
                    i as int,
                    value as int,
                    lower as int,
                    upper as int,
                    self.leftmost,
                    pvm,
                    self.max_depth as int,
                ) == target_loop,
            decreases candidates@.len() - i,
        {
            let ghost i0 = i as int;
            let ghost value0 = value as int;
            let ghost lower0 = lower as int;
            let ghost left0 = self.leftmost;
            let ghost table0 = table@;
            let mov = candidates[i];
            i = i + 1;
            if !playable(board, mov) {
                proof {
                    lemma_search_loop_skip(table0, before@, player, depth, candidates@, i0, value0, lower0, upper as int,
                        left0, pvm, self.max_depth as int);
                }
                continue;
            }
            proof {
                before.lemma_wf_len();
                lemma_unmake_undoes_make(before@, mov);
            }
            let pmov = match board.make_if_legal(mov) {
                None => {
                    proof {
                        lemma_search_loop_skip(table0, before@, player, depth, candidates@, i0, value0, lower0,
                            upper as int, left0, pvm, self.max_depth as int);
                    }
                    continue;
                },
                Some(pmov) => pmov,
            };
            let ghost after = *board;
            assert(searched_move(before@, candidates@[i - 1]));

            // Evaluate value of move for current player
            let child_value = self.search(
                board,
                table,
                player.opponent(),
                depth - 1,
                // If our maximum possible score is `x`, then the opponent is guaranteed to
                // score at least `-x`
                -upper,
                // If we're guaranteed a score of `y` already, then the opponent can't possibly
                // get more than `-y`
                -lower,
            );
            let mov_value = -child_value;
            board.unmake_move(pmov);
            proof {
                lemma_view_determines_board(*board, before);
                assert(candidates@.contains(candidates@[i - 1]));
            }

            if self.should_abort() {
                return 0;
            }

            if mov_value > value {
                value = mov_value;
            }

            // If value exceeds the old lower-bound, then we can increase the lower-bound
            if value > lower {
                lower = value;
            }

            proof {
                lemma_search_loop_step(
                    table0,
                    before@,
                    player,
                    depth,
                    candidates@,
                    i0,
                    value0,
                    lower0,
                    upper as int,
                    left0,
                    pvm,
                    self.max_depth as int,
                    (child_value as int, table@, self.leftmost),
                );
            }
            if lower >= upper {
                // We've found a move that reaches our upper-bound, so no point searching further
                proof {
                    cut = true;
                }
                break;
            }

            self.leftmost = false;
        }

        proof {
            if value != LOW_SCORE {
                let k = choose|k: int| 0 <= k < i && #[trigger] searched_move(before@, candidates@[k]);
                assert(candidates@.contains(candidates@[k]));
            }
        }
        let no_legal_moves = value == LOW_SCORE;
        if no_legal_moves {
            value = if board.checkmate() {
                -WIN
            } else {
                0 // In stalemate, so this is a tie
            };
        }

        let node_type = if value <= lower_orig {
            NodeType::All
        } else if value >= upper {
            NodeType::Cut
        } else {
            NodeType::PV
        };

        let entry = Node { depth, value, node_type };
        let ghost t0 = table@;
        table.insert(key, entry);
        proof {
            law_get_after_insert(t0, key_hash(key), entry);
        }
        value
    }

    /// Quiescence search: from a position not in check, its own material score where that
    /// reaches `beta` (then `beta`), else the best of `alpha`, that score and what captures give,
    /// a capture that reaches `beta` ending the search (see `quiesce_floor` and
    /// `quiesce_leaf_value`); in check, the same over every move, without the position's own
    /// score. Not in check, the position's own score is a lower bound, also where no capture
    /// can be played; in check with no legal move, the score of a loss. Goes `depth + 1` plies
    /// deep (one capture from the search), and returns the material score below that; unless
    /// stopped, the value is `spec_quiesce`'s,
    /// over the moves in the generator's order. Returns 0 where stopped. The board is left as it
    /// was.
    pub fn quiesce(&mut self, board: &mut Board, player: PlayerV, alpha: i32, beta: i32, depth: i16) -> (r: i32)
        requires
            old(board).wf(),
            LOW_SCORE <= alpha <= HIGH_SCORE,
            LOW_SCORE <= beta <= HIGH_SCORE,
        ensures
            *final(board) == *old(board),
            LOW_SCORE <= r <= HIGH_SCORE,
            final(self).max_depth == old(self).max_depth,
            final(self).target_depth == old(self).target_depth,
            final(self).abort && !old(self).abort ==> r == 0,
            !final(self).abort ==> r == spec_quiesce(old(board)@, player, alpha as int, beta as int, depth as int),
            final(self).principal_variation == old(self).principal_variation,
            final(self).leftmost == old(self).leftmost,
            depth <= -1 ==> r == spec_eval(old(board)@),
            depth >= 0 && !spec_check(old(board)@, player) && spec_eval(old(board)@) >= beta ==> r == beta,
            depth >= 0 && spec_check(old(board)@, player) && (forall|m: Move|
                #[trigger] quiesce_candidate(old(board)@, player, m) ==> !searched_move(old(board)@, m)) ==> r == -WIN,
            depth >= 0 && !final(self).abort && !(!spec_check(old(board)@, player) && spec_eval(old(board)@) >= beta) && (
            !spec_check(old(board)@, player) || exists|m: Move| #[trigger] quiesce_played(old(board)@, player, m)) ==> r
                >= quiesce_floor(old(board)@, player, alpha as int),
            depth == 0 && !final(self).abort && !(!spec_check(old(board)@, player) && spec_eval(old(board)@) >= beta) && (
            !spec_check(old(board)@, player) || exists|m: Move| #[trigger] quiesce_played(old(board)@, player, m)) ==> (
            forall|m: Move| #[trigger]
                quiesce_played(old(board)@, player, m) ==> r >= quiesce_leaf_value(old(board)@, m) || r >= beta) && (r
                == quiesce_floor(old(board)@, player, alpha as int) || exists|m: Move| #[trigger]
                quiesce_played(old(board)@, player, m) && r == quiesce_leaf_value(old(board)@, m)),
        decreases depth + 1,
    {
        let ghost before = *board;
        let mut lower = alpha;
        // hard cut-off to depth of quiescent search
        if depth <= -1 {
            return board.eval();
        }

        let in_check = board.check(player);
        let candidates = if in_check {
            // When in check, assess all moves that get out of check, not just captures
            board.pseudo_legal_moves_for(player)
        } else {
            // "standing pat" is a heuristic based on current board state.
            let stand_pat = board.eval();
            if stand_pat >= beta {
                return beta;
            }
            if stand_pat > lower {
                lower = stand_pat;
            }
            board.capturing_moves(player)
        };
        let moves = in_order(board, &candidates);
        proof {
            if in_check {
                lemma_pseudo_legal_order(before@, player, moves@);
            } else {
                lemma_capture_order(before@, player, moves@);
            }
            assert(moves@ == quiesce_moves(before@, player));
        }
        let ghost target = spec_quiesce(before@, player, alpha as int, beta as int, depth as int);
        let ghost mut cut = false;

        let mut no_legal_moves = true;
        let mut i: usize = 0;
        while i < moves.len()
            invariant_except_break
                !cut,
                quiesce_loop(before@, player, beta as int, depth as int, moves@, i as int, lower as int, !no_legal_moves)
                    == target,
            invariant
                cut ==> lower == target && !no_legal_moves,
                self.principal_variation == old(self).principal_variation,
                self.leftmost == old(self).leftmost,
                target == spec_quiesce(before@, player, alpha as int, beta as int, depth as int),
                *board == before,
                before == *old(board),
                board.wf(),
                LOW_SCORE <= lower <= HIGH_SCORE,
                LOW_SCORE <= beta <= HIGH_SCORE,
                depth >= 0,
                self.max_depth == old(self).max_depth,
                self.target_depth == old(self).target_depth,
                i <= moves@.len(),
                forall|m: Move| #[trigger] moves@.contains(m) == quiesce_candidate(before@, player, m),
                !(!spec_check(before@, player) && spec_eval(before@) >= beta),
                !no_legal_moves ==> exists|k: int| 0 <= k < i && #[trigger] searched_move(before@, moves@[k]),
                no_legal_moves ==> forall|k: int| 0 <= k < i ==> !#[trigger] searched_move(before@, moves@[k]),
                !no_legal_moves ==> !self.abort,
                self.abort ==> old(self).abort,
                lower >= quiesce_floor(before@, player, alpha as int),
                depth == 0 ==> forall|k: int|
                    0 <= k < i && #[trigger] searched_move(before@, moves@[k]) ==> lower >= quiesce_leaf_value(
                        before@,
                        moves@[k],
                    ) || lower >= beta,
                depth == 0 ==> (lower == quiesce_floor(before@, player, alpha as int) || exists|k: int|
                    0 <= k < i && #[trigger] searched_move(before@, moves@[k]) && lower == quiesce_leaf_value(
                        before@,
                        moves@[k],
                    )),
            ensures
                i == moves@.len() || lower >= beta,
                no_legal_moves ==> i == moves@.len(),
                !cut ==> quiesce_loop(before@, player, beta as int, depth as int, moves@, i as int, lower as int, !no_legal_moves)
                    == target,
                !cut ==> i == moves@.len(),
            decreases moves@.len() - i,
        {
            let ghost i0 = i as int;
            let ghost lower0 = lower as int;
            let ghost played0 = !no_legal_moves;
            let mov = moves[i];
            assert(moves@.contains(mov));
            i = i + 1;
            if !playable(board, mov) {
                continue;
            }
            proof {
                before.lemma_wf_len();
                lemma_unmake_undoes_make(before@, mov);
            }
            let pmov = match board.make_if_legal(mov) {
                None => {
                    continue;
                },
                Some(pmov) => pmov,
            };
            no_legal_moves = false;
            assert(searched_move(before@, moves@[i - 1]));

            let ghost lower_before = lower;
            let mov_value = -self.quiesce(board, player.opponent(), -beta, -lower, depth - 1);
            board.unmake_move(pmov);
            proof {
                lemma_view_determines_board(*board, before);
            }

            if self.should_abort() {
                return 0;
            }
            assert(depth == 0 ==> mov_value == quiesce_leaf_value(before@, moves@[i - 1]));

            if mov_value > lower {
                lower = mov_value;
            }
            proof {
                if depth == 0 {
                    assert forall|k: int|
                        0 <= k < i && #[trigger] searched_move(before@, moves@[k]) implies lower >= quiesce_leaf_value(
                            before@,
                            moves@[k],
                        ) || lower >= beta by {
                        if k < i - 1 {
                            assert(lower_before >= quiesce_leaf_value(before@, moves@[k]) || lower_before >= beta);
                        }
                    }
                    if lower != quiesce_floor(before@, player, alpha as int) {
                        if lower == mov_value {
                            assert(searched_move(before@, moves@[i - 1]));
                        } else {
                            let j = choose|j: int|
                                0 <= j < i - 1 && #[trigger] searched_move(before@, moves@[j]) && lower_before
                                    == quiesce_leaf_value(before@, moves@[j]);
                            assert(searched_move(before@, moves@[j]));
                        }
                    }
                }
                assert(mov_value == -spec_quiesce(
                    spec_make_move(before@, moves@[i0]),
                    player.spec_opponent(),
                    -beta,
                    -lower0,
                    depth - 1,
                ));
                assert(quiesce_loop(before@, player, beta as int, depth as int, moves@, i0, lower0, played0) == target);
            }
            if lower >= beta {
                proof {
                    cut = true;
                }
                break;
            }
        }

        if no_legal_moves {
            proof {
                assert forall|m: Move| #[trigger] quiesce_played(before@, player, m) implies false by {
                    assert(moves@.contains(m));
                    let k = choose|k: int| 0 <= k < moves@.len() && moves@[k] == m;
                    assert(searched_move(before@, moves@[k]));
                }
                if depth == 0 && lower != quiesce_floor(before@, player, alpha as int) {
                    let j = choose|j: int|
                        0 <= j < i && #[trigger] searched_move(before@, moves@[j]) && lower == quiesce_leaf_value(
                            before@,
                            moves@[j],
                        );
                    assert(!searched_move(before@, moves@[j]));
                }
            }
            assert(quiesce_loop(before@, player, beta as int, depth as int, moves@, i as int, lower as int, false) == target);
            if in_check {
                return -WIN;
            }
            lower
        } else {
            proof {
                let k = choose|k: int| 0 <= k < i && #[trigger] searched_move(before@, moves@[k]);
                assert(moves@.contains(moves@[k]));
                if depth == 0 {
                    assert forall|m: Move| #[trigger] quiesce_played(before@, player, m) implies lower
                        >= quiesce_leaf_value(before@, m) || lower >= beta by {
                        if lower < beta {
                            assert(moves@.contains(m));
                            let j = choose|j: int| 0 <= j < moves@.len() && moves@[j] == m;
                            assert(searched_move(before@, moves@[j]));
                        }
                    }
                    if lower != quiesce_floor(before@, player, alpha as int) {
                        let j = choose|j: int|
                            0 <= j < i && #[trigger] searched_move(before@, moves@[j]) && lower == quiesce_leaf_value(
                                before@,
                                moves@[j],
                            );
                        assert(moves@.contains(moves@[j]));
                        assert(quiesce_played(before@, player, moves@[j]));
                    }
                }
                if !cut {
                    assert(quiesce_loop(before@, player, beta as int, depth as int, moves@, i as int, lower as int, true)
                        == lower);
                }
            }
            lower
        }
    }
}

} // verus!
