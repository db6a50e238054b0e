//! The order in which the searches try moves: the order the move generator gives them in.
use vstd::prelude::*;

use crate::board::{Board, BoardState};
use crate::move_generation::{capturing_move, pseudo_legal};
use crate::moves::Move;
use crate::piece::PieceTypeV;
use crate::player::PlayerV;
use crate::square::group_square;

verus! {

broadcast use group_square;

/// The part of the generator's output a move falls in: king, queen, rook, bishop and knight
/// moves, then pawn pushes, two-square pushes, captures towards the `a` file and captures
/// towards the `h` file.
pub open spec fn segment(st: BoardState, m: Move) -> int {
    match st.pieces[m.from.index()] {
        Some(p) => match p.piece_type {
            PieceTypeV::King => 0,
            PieceTypeV::Queen => 1,
            PieceTypeV::Rook => 2,
            PieceTypeV::Bishop => 3,
            PieceTypeV::Knight => 4,
            PieceTypeV::Pawn => {
                let d = m.to.index() - m.from.index();
                if d == 8 || d == -8 {
                    5
                } else if d == 16 || d == -16 {
                    6
                } else if m.to.file_index() < m.from.file_index() {
                    7
                } else {
                    8
                }
            },
        },
        None => 9,
    }
}

/// The rank of a promotion in the generator's output: queen, rook, bishop, knight.
pub open spec fn promotion_rank(m: Move) -> int {
    match m.promoting {
        None => 0,
        Some(PieceTypeV::Queen) => 0,
        Some(PieceTypeV::Rook) => 1,
        Some(PieceTypeV::Bishop) => 2,
        Some(PieceTypeV::Knight) => 3,
        Some(PieceTypeV::King) => 4,
        Some(PieceTypeV::Pawn) => 5,
    }
}

/// A number for each move, different for different moves.
pub open spec fn move_code(m: Move) -> int {
    m.from.index() * 512 + m.to.index() * 8 + promotion_rank(m) + if m.promoting is Some {
        1int
    } else {
        0int
    }
}

/// Where the generator puts a move: by segment; within a piece's segment by source square and
/// then target square; within a pawn segment by target square and then promotion.
pub open spec fn generator_key(st: BoardState, m: Move) -> int {
    if segment(st, m) < 5 {
        segment(st, m) * 4096 + m.from.index() * 64 + m.to.index()
    } else {
        segment(st, m) * 4096 + m.to.index() * 8 + promotion_rank(m)
    }
}

/// The order of the searches: the generator's, ties (which the generator never makes) broken by
/// the move's code.
#[verifier::opaque]
pub open spec fn move_key(st: BoardState, m: Move) -> int {
    generator_key(st, m) * 32768 + move_code(m)
}

/// The moves come in increasing order of `move_key`.
pub open spec fn in_move_order(st: BoardState, s: Seq<Move>) -> bool {
    forall|i: int, j: int| 0 <= i < j < s.len() ==> move_key(st, #[trigger] s[i]) < move_key(st, #[trigger] s[j])
}

/// The pseudo-legal moves of `player` in the searches' order.
pub open spec fn pseudo_legal_order(st: BoardState, player: PlayerV) -> Seq<Move> {
    choose|s: Seq<Move>| in_move_order(st, s) && forall|m: Move| #[trigger] s.contains(m) == pseudo_legal(st, player, m)
}

/// The capturing moves of `player` in the searches' order.
pub open spec fn capture_order(st: BoardState, player: PlayerV) -> Seq<Move> {
    choose|s: Seq<Move>| in_move_order(st, s) && forall|m: Move| #[trigger] s.contains(m) == capturing_move(st, player, m)
}

/// Different moves have different codes.
proof fn lemma_move_code_injective(a: Move, b: Move)
    requires
        move_code(a) == move_code(b),
    ensures
        a == b,
{
    let pa = promotion_rank(a) + if a.promoting is Some { 1int } else { 0int };
    let pb = promotion_rank(b) + if b.promoting is Some { 1int } else { 0int };
    assert(0 <= pa < 8 && 0 <= pb < 8);
    assert(a.from.index() * 512 + a.to.index() * 8 + pa == b.from.index() * 512 + b.to.index() * 8 + pb);
    assert(a.from.index() == b.from.index() && a.to.index() == b.to.index() && pa == pb) by (nonlinear_arith)
        requires
            a.from.index() * 512 + a.to.index() * 8 + pa == b.from.index() * 512 + b.to.index() * 8 + pb,
            0 <= pa < 8,
            0 <= pb < 8,
            0 <= a.to.index() < 64,
            0 <= b.to.index() < 64,
    ;
    assert(a.from == b.from);
    assert(a.to == b.to);
}

/// Different moves have different keys.
proof fn lemma_move_key_injective(st: BoardState, a: Move, b: Move)
    requires
        move_key(st, a) == move_key(st, b),
    ensures
        a == b,
{
    reveal(move_key);
    let ca = move_code(a);
    let cb = move_code(b);
    let ga = generator_key(st, a);
    let gb = generator_key(st, b);
    assert(0 <= ca < 32768 && 0 <= cb < 32768);
    assert(ca == cb) by (nonlinear_arith)
        requires
            ga * 32768 + ca == gb * 32768 + cb,
            0 <= ca < 32768,
            0 <= cb < 32768,
    ;
    lemma_move_code_injective(a, b);
}

/// Moves in order, with the same moves, are the same sequence.
pub proof fn lemma_move_order_unique(st: BoardState, s1: Seq<Move>, s2: Seq<Move>)
    requires
        in_move_order(st, s1),
        in_move_order(st, s2),
        forall|m: Move| #![trigger s1.contains(m)] #![trigger s2.contains(m)] s1.contains(m) == s2.contains(m),
    ensures
        s1 == s2,
    decreases s1.len(),
{
    if s1.len() == 0 {
        if s2.len() > 0 {
            assert(s2.contains(s2[0]));
            assert(s1.contains(s2[0]));
        }
        assert(s1 =~= s2);
    } else {
        assert(s1.contains(s1[0]));
        let j = choose|j: int| 0 <= j < s2.len() && s2[j] == s1[0];
        assert(s2.contains(s2[0]));
        assert(s1.contains(s2[0]));
        let i = choose|i: int| 0 <= i < s1.len() && s1[i] == s2[0];
        if j > 0 {
            assert(move_key(st, s2[0]) < move_key(st, s2[j]));
            if i > 0 {
                assert(move_key(st, s1[0]) < move_key(st, s1[i]));
            }
            assert(false);
        }
        let t1 = s1.drop_first();
        let t2 = s2.drop_first();
        assert forall|m: Move| #![trigger t1.contains(m)] #![trigger t2.contains(m)] t1.contains(m) == t2.contains(m) by {
            if t1.contains(m) {
                let k = choose|k: int| 0 <= k < t1.len() && t1[k] == m;
                assert(s1[k + 1] == m);
                assert(move_key(st, s1[0]) < move_key(st, s1[k + 1]));
                assert(s2.contains(m));
                let l = choose|l: int| 0 <= l < s2.len() && s2[l] == m;
                if l == 0 {
                    assert(false);
                }
                assert(t2[l - 1] == m);
            }
            if t2.contains(m) {
                let k = choose|k: int| 0 <= k < t2.len() && t2[k] == m;
                assert(s2[k + 1] == m);
                assert(move_key(st, s2[0]) < move_key(st, s2[k + 1]));
                assert(s1.contains(m));
                let l = choose|l: int| 0 <= l < s1.len() && s1[l] == m;
                if l == 0 {
                    assert(false);
                }
                assert(t1[l - 1] == m);
            }
        }
        assert forall|a: int, b: int| 0 <= a < b < t1.len() implies move_key(st, #[trigger] t1[a]) < move_key(
            st,
            #[trigger] t1[b],
        ) by {
            assert(t1[a] == s1[a + 1] && t1[b] == s1[b + 1]);
        }
        assert forall|a: int, b: int| 0 <= a < b < t2.len() implies move_key(st, #[trigger] t2[a]) < move_key(
            st,
            #[trigger] t2[b],
        ) by {
            assert(t2[a] == s2[a + 1] && t2[b] == s2[b + 1]);
        }
        lemma_move_order_unique(st, t1, t2);
        assert(s1 =~= seq![s1[0]] + t1);
        assert(s2 =~= seq![s2[0]] + t2);
    }
}

/// Putting a move where its key fits keeps the moves in order.
proof fn lemma_insert_in_order(st: BoardState, s: Seq<Move>, j: int, m: Move)
    requires
        in_move_order(st, s),
        0 <= j <= s.len(),
        forall|k: int| 0 <= k < j ==> move_key(st, #[trigger] s[k]) < move_key(st, m),
        j < s.len() ==> move_key(st, m) < move_key(st, s[j]),
    ensures
        in_move_order(st, s.insert(j, m)),
{
    let r = s.insert(j, m);
    assert forall|a: int, b: int| 0 <= a < b < r.len() implies move_key(st, #[trigger] r[a]) < move_key(st, #[trigger] r[b]) by {
        if b < j {
            assert(r[a] == s[a] && r[b] == s[b]);
        } else if b == j {
            assert(r[a] == s[a]);
        } else if a < j {
            assert(r[a] == s[a] && r[b] == s[b - 1]);
            assert(move_key(st, m) < move_key(st, s[j]));
            if b - 1 > j {
                assert(move_key(st, s[j]) < move_key(st, s[b - 1]));
            }
        } else if a == j {
            assert(r[b] == s[b - 1]);
            if b - 1 > j {
                assert(move_key(st, s[j]) < move_key(st, s[b - 1]));
            }
        } else {
            assert(r[a] == s[a - 1] && r[b] == s[b - 1]);
        }
    }
}

/// Putting the next move of `moves` into a sequence holding the ones before it gives one holding
/// the ones up to it.
proof fn lemma_insert_contains(s: Seq<Move>, j: int, m: Move, moves: Seq<Move>, i: int)
    requires
        0 <= j <= s.len(),
        0 <= i < moves.len(),
        moves[i] == m,
        forall|x: Move| #[trigger] s.contains(x) == moves.take(i).contains(x),
    ensures
        forall|x: Move| #[trigger] s.insert(j, m).contains(x) == moves.take(i + 1).contains(x),
{
    let r = s.insert(j, m);
    let t0 = moves.take(i);
    let t1 = moves.take(i + 1);
    assert(t1 =~= t0.push(m));
    assert forall|x: Move| #[trigger] r.contains(x) == t1.contains(x) by {
        if r.contains(x) {
            let k = choose|k: int| 0 <= k < r.len() && r[k] == x;
            if k == j {
                assert(t1[i] == x);
            } else {
                let k2 = if k < j { k } else { k - 1 };
                assert(s[k2] == x);
                assert(s.contains(x));
                assert(t0.contains(x));
                let l = choose|l: int| 0 <= l < t0.len() && t0[l] == x;
                assert(t1[l] == x);
            }
        }
        if t1.contains(x) {
            let l = choose|l: int| 0 <= l < t1.len() && t1[l] == x;
            if l == i {
                assert(r[j] == x);
            } else {
                assert(t0[l] == x);
                assert(t0.contains(x));
                assert(s.contains(x));
                let k = choose|k: int| 0 <= k < s.len() && s[k] == x;
                if k < j {
                    assert(r[k] == x);
                } else {
                    assert(r[k + 1] == x);
                }
            }
        }
    }
}

/// Moves in order hold no move twice.
pub proof fn lemma_ordered_no_duplicates(st: BoardState, s: Seq<Move>)
    requires
        in_move_order(st, s),
    ensures
        s.no_duplicates(),
{
    assert forall|i: int, j: int| 0 <= i < s.len() && 0 <= j < s.len() && i != j implies s[i] != s[j] by {
        if i < j {
            assert(move_key(st, s[i]) < move_key(st, s[j]));
        } else {
            assert(move_key(st, s[j]) < move_key(st, s[i]));
        }
    }
}

/// Pseudo-legal moves in order are the pseudo-legal moves in the searches' order.
pub proof fn lemma_pseudo_legal_order(st: BoardState, player: PlayerV, s: Seq<Move>)
    requires
        in_move_order(st, s),
        forall|m: Move| #[trigger] s.contains(m) == pseudo_legal(st, player, m),
    ensures
        pseudo_legal_order(st, player) == s,
{
    let c = pseudo_legal_order(st, player);
    assert(in_move_order(st, c) && forall|m: Move| #[trigger] c.contains(m) == pseudo_legal(st, player, m));
    lemma_move_order_unique(st, c, s);
}

/// Capturing moves in order are the capturing moves in the searches' order.
pub proof fn lemma_capture_order(st: BoardState, player: PlayerV, s: Seq<Move>)
    requires
        in_move_order(st, s),
        forall|m: Move| #[trigger] s.contains(m) == capturing_move(st, player, m),
    ensures
        capture_order(st, player) == s,
{
    let c = capture_order(st, player);
    assert(in_move_order(st, c) && forall|m: Move| #[trigger] c.contains(m) == capturing_move(st, player, m));
    lemma_move_order_unique(st, c, s);
}

/// The key of a move on the board.
fn key_of(board: &Board, m: Move) -> (r: u64)
    requires
        board.wf(),
    ensures
        r == move_key(board@, m),
{
    let f = m.from.to_index() as u64;
    let t = m.to.to_index() as u64;
    let pr: u64 = match m.promoting {
        None => 0,
        Some(PieceTypeV::Queen) => 0,
        Some(PieceTypeV::Rook) => 1,
        Some(PieceTypeV::Bishop) => 2,
        Some(PieceTypeV::Knight) => 3,
        Some(PieceTypeV::King) => 4,
        Some(PieceTypeV::Pawn) => 5,
    };
    let code = f * 512 + t * 8 + pr + if m.promoting.is_some() {
        1u64
    } else {
        0u64
    };
    let seg: u64 = match board.get(m.from) {
        Some(p) => match p.piece_type() {
            PieceTypeV::King => 0,
            PieceTypeV::Queen => 1,
            PieceTypeV::Rook => 2,
            PieceTypeV::Bishop => 3,
            PieceTypeV::Knight => 4,
            PieceTypeV::Pawn => {
                if t == f + 8 || f == t + 8 {
                    5
                } else if t == f + 16 || f == t + 16 {
                    6
                } else if t % 8 < f % 8 {
                    7
                } else {
                    8
                }
            },
        },
        None => 9,
    };
    let g = if seg < 5 {
        seg * 4096 + f * 64 + t
    } else {
        seg * 4096 + t * 8 + pr
    };
    proof {
        reveal(move_key);
    }
    g * 32768 + code
}

/// The moves, in the searches' order.
pub fn in_order(board: &Board, moves: &Vec<Move>) -> (r: Vec<Move>)
    requires
        board.wf(),
        moves@.no_duplicates(),
    ensures
        in_move_order(board@, r@),
        forall|m: Move| #[trigger] r@.contains(m) == moves@.contains(m),
{
    let ghost st = board@;
    let mut out: Vec<Move> = Vec::new();
    let mut keys: Vec<u64> = Vec::new();
    let mut i: usize = 0;
    while i < moves.len()
        invariant
            i <= moves@.len(),
            st == board@,
            board.wf(),
            moves@.no_duplicates(),
            keys@.len() == out@.len(),
            forall|k: int| 0 <= k < out@.len() ==> keys@[k] == move_key(st, #[trigger] out@[k]),
            in_move_order(st, out@),
            forall|m: Move| #[trigger] out@.contains(m) == moves@.take(i as int).contains(m),
        decreases moves@.len() - i,
    {
        let m = moves[i];
        let key = key_of(board, m);
        let mut j: usize = 0;
        while j < out.len() && keys[j] < key
            invariant
                j <= out@.len(),
                keys@.len() == out@.len(),
                forall|k: int| 0 <= k < out@.len() ==> keys@[k] == move_key(st, #[trigger] out@[k]),
                key == move_key(st, m),
                forall|k: int| 0 <= k < j ==> move_key(st, #[trigger] out@[k]) < key,
            decreases out@.len() - j,
        {
            j = j + 1;
        }
        proof {
            assert(!out@.contains(m)) by {
                if out@.contains(m) {
                    let k = choose|k: int| 0 <= k < out@.len() && out@[k] == m;
                    assert(moves@.take(i as int).contains(m));
                    let l = choose|l: int| 0 <= l < i && moves@.take(i as int)[l] == m;
                    assert(moves@[l] == moves@[i as int]);
                }
            }
            if j < out@.len() {
                assert(move_key(st, out@[j as int]) >= key);
                if move_key(st, out@[j as int]) == key {
                    lemma_move_key_injective(st, out@[j as int], m);
                    assert(false);
                }
            }
        }
        let ghost old_out = out@;
        out.insert(j, m);
        keys.insert(j, key);
        proof {
            lemma_insert_in_order(st, old_out, j as int, m);
            lemma_insert_contains(old_out, j as int, m, moves@, i as int);
            assert forall|k: int| 0 <= k < out@.len() implies keys@[k] == move_key(st, #[trigger] out@[k]) by {
                if k < j {
                    assert(out@[k] == old_out[k]);
                } else if k > j {
                    assert(out@[k] == old_out[k - 1]);
                }
            }
        }
        i = i + 1;
    }
    proof {
        assert(moves@.take(moves@.len() as int) =~= moves@);
    }
    out
}

} // verus!
