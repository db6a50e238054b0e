//! Which moves each side can make.
use vstd::prelude::*;

use crate::bitboard::{bitboards, Bitboard};
use crate::bits::{bit, group_bits};
use crate::board::{ep_target, can_make, holds, law_unmake_undoes_make, lemma_view_determines_board, owned_by, occ_word, spec_make_move, spec_played_move, Board, BoardState};
use crate::bits::lemma_and_nonzero;
use crate::moves::{Move, PlayedMove};
use crate::move_generation::pieces::{castle_target, castling_moves, capture_boards, king_step, move_boards, pawn_attack, pawn_push, piece_attack};
use crate::piece::{Piece, PieceTypeV};
use crate::player::{Player, PlayerV};
use crate::board::lemma_occ_upto;
use crate::square::{File, Square, group_square};

pub mod pieces;
pub mod rays;

verus! {

broadcast use {group_bits, group_square};

/// The piece `p`, standing somewhere on the board, attacks square `t`.
pub open spec fn attacked_by_piece(st: BoardState, p: Piece, t: int) -> bool {
    exists|s: int|
        0 <= s < 64 && #[trigger] st.pieces[s] == Some(p) && piece_attack(p.piece_type, p.player, s, occ_word(st.pieces), t)
}

/// Some piece of `player` attacks square `t`.
pub open spec fn attacked(st: BoardState, player: PlayerV, t: int) -> bool {
    exists|s: int|
        0 <= s < 64 && #[trigger] owned_by(st.pieces[s], player) && piece_attack(
            st.pieces[s].unwrap().piece_type,
            player,
            s,
            occ_word(st.pieces),
            t,
        )
}

/// The promotion a move carries fits its target square: a queen, rook, bishop or knight on the
/// first and last ranks, none elsewhere.
pub open spec fn promotion_ok(m: Move) -> bool {
    if m.to.rank_index() == 0 || m.to.rank_index() == 7 {
        m.promoting matches Some(x) && x != PieceTypeV::King && x != PieceTypeV::Pawn
    } else {
        m.promoting is None
    }
}

/// A move that `player` could make if it did not matter whether it leaves the king attacked or
/// castles across an attacked square: a piece of `player` moves as its kind does to a square
/// without a piece of `player`.
pub open spec fn pseudo_legal(st: BoardState, player: PlayerV, m: Move) -> bool {
    let s = m.from.index();
    let t = m.to.index();
    let occ = occ_word(st.pieces);
    &&& owned_by(st.pieces[s], player)
    &&& !owned_by(st.pieces[t], player)
    &&& match st.pieces[s].unwrap().piece_type {
        PieceTypeV::Pawn => (pawn_push(player, s, occ, t) || (pawn_attack(player, s, t) && (owned_by(
            st.pieces[t],
            player.spec_opponent(),
        ) || t == ep_target(st, player)))) && promotion_ok(m),
        PieceTypeV::King => m.promoting is None && (king_step(s, t) || castle_target(player, occ, st.flags, t)),
        pt => m.promoting is None && piece_attack(pt, player, s, occ, t),
    }
}

/// A pseudo-legal move of `player` that captures a piece of the other side, or takes en passant.
pub open spec fn capturing_move(st: BoardState, player: PlayerV, m: Move) -> bool {
    let s = m.from.index();
    let t = m.to.index();
    let pt = st.pieces[s].unwrap().piece_type;
    &&& owned_by(st.pieces[s], player)
    &&& (owned_by(st.pieces[t], player.spec_opponent()) || (pt == PieceTypeV::Pawn && t == ep_target(st, player)))
    &&& piece_attack(pt, player, s, occ_word(st.pieces), t)
    &&& if pt == PieceTypeV::Pawn {
        promotion_ok(m)
    } else {
        m.promoting is None
    }
}

/// Appending an item adds it and keeps what was there.
pub proof fn lemma_push_contains<T>(s: Seq<T>, x: T, y: T)
    ensures
        s.push(x).contains(y) == (s.contains(y) || y == x),
{
    if s.contains(y) {
        let k = choose|k: int| 0 <= k < s.len() && s[k] == y;
        assert(s.push(x)[k] == y);
    }
    if y == x {
        assert(s.push(x)[s.len() as int] == y);
    }
    if s.push(x).contains(y) {
        let k = choose|k: int| 0 <= k < s.push(x).len() && s.push(x)[k] == y;
        if k < s.len() {
            assert(s[k] == y);
        }
    }
}

/// Appending an item that is not there keeps a sequence free of duplicates.
pub proof fn lemma_push_no_duplicates<T>(s: Seq<T>, x: T)
    requires
        s.no_duplicates(),
        !s.contains(x),
    ensures
        s.push(x).no_duplicates(),
{
    assert forall|i: int, j: int| 0 <= i < s.len() + 1 && 0 <= j < s.len() + 1 && i != j implies s.push(x)[i]
        != s.push(x)[j] by {
        if i == s.len() {
            assert(s[j] == s.push(x)[j]);
        } else if j == s.len() {
            assert(s[i] == s.push(x)[i]);
        }
    }
}

/// Appends a move from `source` to each square of `targets`.
fn push_moves(out: &mut Vec<Move>, source: Square, targets: Bitboard)
    ensures
        forall|m: Move| #[trigger] final(out)@.contains(m) == (old(out)@.contains(m) || (m.from == source
            && m.promoting is None && bit(targets.0, m.to.index()))),
        old(out)@.no_duplicates() && (forall|m: Move| #[trigger] old(out)@.contains(m) ==> m.from != source)
            ==> final(out)@.no_duplicates(),
{
    let ts = targets.squares();
    let ghost nd = old(out)@.no_duplicates() && (forall|m: Move| #[trigger] old(out)@.contains(m) ==> m.from != source);
    let mut j: usize = 0;
    while j < ts.len()
        invariant
            j <= ts@.len(),
            nd == (old(out)@.no_duplicates() && (forall|m: Move| #[trigger] old(out)@.contains(m) ==> m.from != source)),
            nd ==> out@.no_duplicates(),
            forall|k: int, l: int| 0 <= k < l < ts@.len() ==> (#[trigger] ts@[k]).index() < (#[trigger] ts@[l]).index(),
            forall|m: Move| #[trigger] out@.contains(m) == (old(out)@.contains(m) || (m.from == source
                && m.promoting is None && exists|k: int| 0 <= k < j && ts@[k] == m.to)),
        decreases ts@.len() - j,
    {
        let mov = Move::new(source, ts[j]);
        let ghost before = out@;
        proof {
            if nd && before.contains(mov) {
                if !old(out)@.contains(mov) {
                    let k = choose|k: int| 0 <= k < j && ts@[k] == mov.to;
                    assert(ts@[k].index() < ts@[j as int].index());
                }
            }
            if nd {
                lemma_push_no_duplicates(before, mov);
            }
        }
        out.push(mov);
        assert forall|m: Move| #[trigger] out@.contains(m) == (old(out)@.contains(m) || (m.from == source
            && m.promoting is None && exists|k: int| 0 <= k < j + 1 && ts@[k] == m.to)) by {
            lemma_push_contains(before, mov, m);
            if m.from == source && m.promoting is None && m.to == ts@[j as int] {
                assert(m == mov);
            }
        }
        j = j + 1;
    }
    assert forall|m: Move| #[trigger] out@.contains(m) == (old(out)@.contains(m) || (m.from == source
        && m.promoting is None && bit(targets.0, m.to.index()))) by {
        if bit(targets.0, m.to.index()) {
            assert(targets.has(m.to));
            assert(ts@.contains(m.to));
        }
        if exists|k: int| 0 <= k < ts@.len() && ts@[k] == m.to {
            let k = choose|k: int| 0 <= k < ts@.len() && ts@[k] == m.to;
            assert(targets.has(ts@[k]));
        }
    }
}

/// Appends `mov` with each promotion a move to its target square may carry.
fn push_promotions(out: &mut Vec<Move>, mov: Move)
    requires
        mov.promoting is None,
    ensures
        forall|m: Move| #[trigger] final(out)@.contains(m) == (old(out)@.contains(m) || (m.from == mov.from
            && m.to == mov.to && promotion_ok(m))),
        old(out)@.no_duplicates() && (forall|m: Move| #[trigger] old(out)@.contains(m) ==> m.from != mov.from || m.to
            != mov.to) ==> final(out)@.no_duplicates(),
{
    let rank = mov.to().rank();
    let ghost before = out@;
    let ghost nd = old(out)@.no_duplicates() && (forall|m: Move| #[trigger] old(out)@.contains(m) ==> m.from != mov.from
        || m.to != mov.to);
    if rank == PlayerV::White.back_rank() || rank == PlayerV::Black.back_rank() {
        let q = Move::new_promoting(mov.from, mov.to, PieceTypeV::Queen);
        let r = Move::new_promoting(mov.from, mov.to, PieceTypeV::Rook);
        let b = Move::new_promoting(mov.from, mov.to, PieceTypeV::Bishop);
        let n = Move::new_promoting(mov.from, mov.to, PieceTypeV::Knight);
        proof {
            if nd {
                lemma_push_no_duplicates(before, q);
                lemma_push_contains(before, q, r);
                lemma_push_no_duplicates(before.push(q), r);
                lemma_push_contains(before, q, b);
                lemma_push_contains(before.push(q), r, b);
                lemma_push_no_duplicates(before.push(q).push(r), b);
                lemma_push_contains(before, q, n);
                lemma_push_contains(before.push(q), r, n);
                lemma_push_contains(before.push(q).push(r), b, n);
                lemma_push_no_duplicates(before.push(q).push(r).push(b), n);
            }
        }
        out.push(q);
        out.push(r);
        out.push(b);
        out.push(n);
        assert forall|m: Move| #[trigger] out@.contains(m) == (before.contains(m) || (m.from == mov.from
            && m.to == mov.to && promotion_ok(m))) by {
            lemma_push_contains(before, q, m);
            lemma_push_contains(before.push(q), r, m);
            lemma_push_contains(before.push(q).push(r), b, m);
            lemma_push_contains(before.push(q).push(r).push(b), n, m);
        }
    } else {
        proof {
            if nd {
                lemma_push_no_duplicates(before, mov);
            }
        }
        out.push(mov);
        assert forall|m: Move| #[trigger] out@.contains(m) == (before.contains(m) || (m.from == mov.from
            && m.to == mov.to && promotion_ok(m))) by {
            lemma_push_contains(before, mov, m);
        }
    }
}

/// Appends pawn moves onto each square of `targets`, each from the square `rank_back` rows and
/// `file_back` columns away, with the promotions its target square calls for.
fn push_pawn_moves(out: &mut Vec<Move>, targets: Bitboard, rank_back: i8, file_back: i8)
    requires
        -2 <= rank_back <= 2,
        -1 <= file_back <= 1,
        forall|t: int| #[trigger] bit(targets.0, t) ==> 0 <= t + 8 * rank_back < 64 && 0 <= t + 8 * rank_back + file_back < 64,
    ensures
        forall|m: Move| #[trigger] final(out)@.contains(m) == (old(out)@.contains(m) || (bit(targets.0, m.to.index())
            && m.from.index() == m.to.index() + 8 * rank_back + file_back && promotion_ok(m))),
        old(out)@.no_duplicates() && (forall|m: Move| #[trigger] old(out)@.contains(m) && bit(targets.0, m.to.index())
            ==> m.from.index() != m.to.index() + 8 * rank_back + file_back) ==> final(out)@.no_duplicates(),
{
    let ts = targets.squares();
    let ghost nd = old(out)@.no_duplicates() && (forall|m: Move| #[trigger] old(out)@.contains(m) && bit(targets.0, m.to.index())
        ==> m.from.index() != m.to.index() + 8 * rank_back + file_back);
    let mut j: usize = 0;
    while j < ts.len()
        invariant
            j <= ts@.len(),
            nd == (old(out)@.no_duplicates() && (forall|m: Move| #[trigger] old(out)@.contains(m) && bit(targets.0, m.to.index())
                ==> m.from.index() != m.to.index() + 8 * rank_back + file_back)),
            nd ==> out@.no_duplicates(),
            forall|k: int, l: int| 0 <= k < l < ts@.len() ==> (#[trigger] ts@[k]).index() < (#[trigger] ts@[l]).index(),
            -2 <= rank_back <= 2,
            -1 <= file_back <= 1,
            forall|k: int| 0 <= k < ts@.len() ==> targets.has(#[trigger] ts@[k]),
            forall|t: int| #[trigger] bit(targets.0, t) ==> 0 <= t + 8 * rank_back < 64 && 0 <= t + 8 * rank_back + file_back < 64,
            forall|m: Move| #[trigger] out@.contains(m) == (old(out)@.contains(m) || (exists|k: int|
                0 <= k < j && ts@[k] == m.to) && m.from.index() == m.to.index() + 8 * rank_back + file_back && promotion_ok(m)),
        decreases ts@.len() - j,
    {
        let target = ts[j];
        assert(targets.has(target));
        let source = target.shift_rank(rank_back).shift_file(file_back);
        let ghost before = out@;
        proof {
            assert forall|m: Move| #[trigger] out@.contains(m) implies !nd || m.from != source || m.to != target by {
                if nd && m.from == source && m.to == target {
                    if !old(out)@.contains(m) {
                        let k = choose|k: int| 0 <= k < j && ts@[k] == m.to;
                        assert(ts@[k].index() < ts@[j as int].index());
                    }
                }
            }
        }
        push_promotions(out, Move::new(source, target));
        assert forall|m: Move| #[trigger] out@.contains(m) == (old(out)@.contains(m) || (exists|k: int|
            0 <= k < j + 1 && ts@[k] == m.to) && m.from.index() == m.to.index() + 8 * rank_back + file_back && promotion_ok(m)) by {
            if m.to == target && m.from.index() == m.to.index() + 8 * rank_back + file_back {
                assert(m.from == source);
            }
        }
        j = j + 1;
    }
    assert forall|m: Move| #[trigger] out@.contains(m) == (old(out)@.contains(m) || (bit(targets.0, m.to.index())
        && m.from.index() == m.to.index() + 8 * rank_back + file_back && promotion_ok(m))) by {
        if bit(targets.0, m.to.index()) {
            assert(targets.has(m.to));
            assert(ts@.contains(m.to));
        }
        if exists|k: int| 0 <= k < ts@.len() && ts@[k] == m.to {
            let k = choose|k: int| 0 <= k < ts@.len() && ts@[k] == m.to;
            assert(targets.has(ts@[k]));
        }
    }
}

/// A move of a piece `piece` (not a pawn) to a square of `mask`: where it attacks or, for a
/// king and where not only captures are asked for, where it castles.
pub open spec fn piece_move(st: BoardState, piece: Piece, mask: u64, capturing: bool, m: Move) -> bool {
    let s = m.from.index();
    let t = m.to.index();
    let occ = occ_word(st.pieces);
    &&& st.pieces[s] == Some(piece)
    &&& m.promoting is None
    &&& bit(mask, t)
    &&& (piece_attack(piece.piece_type, piece.player, s, occ, t) || (!capturing && piece.piece_type == PieceTypeV::King
        && castle_target(piece.player, occ, st.flags, t)))
}

/// A move of a pawn of `player`: a capture of a piece of the other side, or (where not only
/// captures are asked for) a push; with the promotion its target square calls for.
pub open spec fn pawn_move(st: BoardState, player: PlayerV, capturing: bool, m: Move) -> bool {
    let s = m.from.index();
    let t = m.to.index();
    let occ = occ_word(st.pieces);
    &&& st.pieces[s] == Some(Piece { player, piece_type: PieceTypeV::Pawn })
    &&& promotion_ok(m)
    &&& ((!capturing && pawn_push(player, s, occ, t)) || (pawn_attack(player, s, t) && (owned_by(
        st.pieces[t],
        player.spec_opponent(),
    ) || t == ep_target(st, player))))
}

impl Board {
    /// The square `player` can take en passant, as a set: empty where there is none.
    pub fn ep_board(&self, player: PlayerV) -> (r: Bitboard)
        requires
            self.wf(),
        ensures
            forall|t: int| #[trigger] bit(r.0, t) == (0 <= t < 64 && t == ep_target(self@, player)),
    {
        let f = self.flags().0;
        if player == self.player() && (f / 8) % 2 == 1 {
            let rank: u8 = if player == PlayerV::White {
                5
            } else {
                2
            };
            let sq = Square::from_index(f % 8 + 8 * rank);
            if self.get(sq).is_none() {
                return Bitboard::from_square(sq);
            }
        }
        Bitboard(0)
    }

    /// Appends the moves of the pieces `piece` (not pawns) to squares of `mask`.
    fn add_piece_moves(&self, out: &mut Vec<Move>, piece: Piece, mask: Bitboard, capturing: bool)
        requires
            self.wf(),
        ensures
            forall|m: Move| #[trigger] final(out)@.contains(m) == (old(out)@.contains(m) || piece_move(self@, piece, mask.0, capturing, m)),
            old(out)@.no_duplicates() && (forall|m: Move| #[trigger] old(out)@.contains(m) ==> self@.pieces[m.from.index()]
                != Some(piece)) ==> final(out)@.no_duplicates(),
    {
        let occupancy = self.occupancy();
        let flags = self.flags();
        let pieces = self.bitboard_piece(piece);
        let sources = pieces.squares();
        let ghost nd = old(out)@.no_duplicates() && (forall|m: Move| #[trigger] old(out)@.contains(m) ==> self@.pieces[m.from.index()]
            != Some(piece));
        let mut j: usize = 0;
        while j < sources.len()
            invariant
                j <= sources@.len(),
                nd == (old(out)@.no_duplicates() && (forall|m: Move| #[trigger] old(out)@.contains(m) ==> self@.pieces[m.from.index()]
                    != Some(piece))),
                nd ==> out@.no_duplicates(),
                forall|k: int| 0 <= k < sources@.len() ==> pieces.has(#[trigger] sources@[k]),
                forall|i: int| #[trigger] bit(pieces.0, i) == (0 <= i < 64 && self@.pieces[i] == Some(piece)),
                forall|k: int, l: int| 0 <= k < l < sources@.len() ==> (#[trigger] sources@[k]).index() < (#[trigger] sources@[l]).index(),
                occupancy.0 == occ_word(self@.pieces),
                flags.0 == self@.flags,
                forall|m: Move| #[trigger] out@.contains(m) == (old(out)@.contains(m) || ((exists|k: int| 0 <= k < j && sources@[k] == m.from)
                    && m.promoting is None && bit(mask.0, m.to.index()) && (piece_attack(piece.piece_type, piece.player, m.from.index(), occupancy.0, m.to.index())
                    || (!capturing && piece.piece_type == PieceTypeV::King && castle_target(piece.player, occupancy.0, flags.0, m.to.index()))))),
            decreases sources@.len() - j,
        {
            let source = sources[j];
            let attacks = pieces::attacks(piece.piece_type, source, occupancy, piece.player);
            let movement = if !capturing && piece.piece_type == PieceTypeV::King {
                attacks | castling_moves(occupancy, piece.player, flags)
            } else {
                attacks
            };
            let targets = movement & mask;
            proof {
                assert(pieces.has(sources@[j as int]));
                assert forall|m: Move| #[trigger] out@.contains(m) implies !nd || m.from != source by {
                    if nd && !old(out)@.contains(m) {
                        let k = choose|k: int| 0 <= k < j && sources@[k] == m.from;
                        assert(sources@[k].index() < sources@[j as int].index());
                    }
                }
            }
            push_moves(out, source, targets);
            j = j + 1;
        }
        proof {
            let st = self@;
            assert forall|m: Move| #[trigger] out@.contains(m) == (old(out)@.contains(m) || piece_move(st, piece, mask.0, capturing, m)) by {
                if st.pieces[m.from.index()] == Some(piece) {
                    assert(pieces.has(m.from));
                    assert(sources@.contains(m.from));
                }
                if exists|k: int| 0 <= k < sources@.len() && sources@[k] == m.from {
                    let k = choose|k: int| 0 <= k < sources@.len() && sources@[k] == m.from;
                    assert(pieces.has(sources@[k]));
                }
            }
        }
    }

    /// Appends the moves of the pawns of `player`: captures, and pushes where not only captures
    /// are asked for.
    #[verifier::rlimit(40)]
    fn add_pawn_moves(&self, out: &mut Vec<Move>, player: PlayerV, capturing: bool)
        requires
            self.wf(),
        ensures
            forall|m: Move| #[trigger] final(out)@.contains(m) == (old(out)@.contains(m) || pawn_move(self@, player, capturing, m)),
            old(out)@.no_duplicates() && (forall|m: Move| #[trigger] old(out)@.contains(m) ==> self@.pieces[m.from.index()]
                != Some(Piece { player, piece_type: PieceTypeV::Pawn })) ==> final(out)@.no_duplicates(),
    {
        let ghost st = self@;
        let pawn = Piece::new(player, PieceTypeV::Pawn);
        let pawns = self.bitboard_piece(pawn);
        let occupancy = self.occupancy();
        let opponent_occupancy = self.occupancy_player(player.opponent()) | self.ep_board(player);
        let m = player.multiplier();
        let ghost before = out@;
        let ghost nd = old(out)@.no_duplicates() && (forall|mv: Move| #[trigger] old(out)@.contains(mv) ==> st.pieces[mv.from.index()]
            != Some(pawn));
        let ghost mm = player.spec_multiplier();
        let (pushes, double_pushes) = move_boards(pawns, occupancy, player);
        assert forall|t: int| #[trigger] bit(opponent_occupancy.0, t) == (0 <= t < 64 && (owned_by(
            st.pieces[t],
            player.spec_opponent(),
        ) || t == ep_target(st, player))) by {}
        let (west, east) = capture_boards(pawns, opponent_occupancy, player);
        let ghost o1 = out@;
        if !capturing {
            proof {
                assert forall|mv: Move| #[trigger] out@.contains(mv) && bit(pushes.0, mv.to.index()) implies !nd
                    || mv.from.index() != mv.to.index() + 8 * (-mm) + 0 by {
                    if nd && mv.from.index() == mv.to.index() + 8 * (-mm) {
                        assert(st.pieces[mv.from.index()] == Some(pawn));
                    }
                }
            }
            push_pawn_moves(out, pushes, -m, 0);
            let ghost o2 = out@;
            proof {
                assert forall|mv: Move| #[trigger] out@.contains(mv) && bit(double_pushes.0, mv.to.index()) implies !nd
                    || mv.from.index() != mv.to.index() + 8 * (-2 * mm) + 0 by {
                    if nd && mv.from.index() == mv.to.index() + 8 * (-2 * mm) && o1.contains(mv) {
                        assert(st.pieces[mv.from.index()] == Some(pawn));
                    }
                }
            }
            push_pawn_moves(out, double_pushes, -2 * m, 0);
        }
        let ghost o3 = out@;
        proof {
            assert forall|mv: Move| #[trigger] out@.contains(mv) && bit(west.0, mv.to.index()) implies !nd
                || mv.from.index() != mv.to.index() + 8 * (-mm) + 1 by {
                if nd && mv.from.index() == mv.to.index() + 8 * (-mm) + 1 && o1.contains(mv) {
                    assert(st.pieces[mv.from.index()] == Some(pawn));
                }
            }
        }
        push_pawn_moves(out, west, -m, 1);
        proof {
            assert forall|mv: Move| #[trigger] out@.contains(mv) && bit(east.0, mv.to.index()) implies !nd
                || mv.from.index() != mv.to.index() + 8 * (-mm) - 1 by {
                if nd && mv.from.index() == mv.to.index() + 8 * (-mm) - 1 && o1.contains(mv) {
                    assert(st.pieces[mv.from.index()] == Some(pawn));
                }
            }
        }
        push_pawn_moves(out, east, -m, -1);
        proof {
            let mm = player.spec_multiplier();
            assert forall|mv: Move| #[trigger] out@.contains(mv) == (before.contains(mv) || pawn_move(st, player, capturing, mv)) by {
                let s = mv.from.index();
                let t = mv.to.index();
                let p1 = !capturing && bit(pushes.0, t) && s == t + 8 * (-mm) + 0 && promotion_ok(mv);
                let p2 = !capturing && bit(double_pushes.0, t) && s == t + 8 * (-2 * mm) + 0 && promotion_ok(mv);
                let p3 = bit(west.0, t) && s == t + 8 * (-mm) + 1 && promotion_ok(mv);
                let p4 = bit(east.0, t) && s == t + 8 * (-mm) - 1 && promotion_ok(mv);
                assert(out@.contains(mv) == (before.contains(mv) || p1 || p2 || p3 || p4));
                lemma_occ_upto(st.pieces, 64, t);
                lemma_occ_upto(st.pieces, 64, s + 8 * mm);
                assert(bit(pawns.0, s) == (0 <= s < 64 && st.pieces[s] == Some(pawn)));
            }
        }
    }
}

impl Board {
    /// The pseudo-legal moves of the side to move (see `pseudo_legal_moves_for`).
    pub fn pseudo_legal_moves(&self) -> (r: Vec<Move>)
        requires
            self.wf(),
        ensures
            forall|m: Move| #[trigger] r@.contains(m) == pseudo_legal(self@, self@.player, m),
            r@.no_duplicates(),
    {
        self.pseudo_legal_moves_for(self.player())
    }

    /// Every pseudo-legal move of `player`: moves that may still leave its king attacked or
    /// castle across an attacked square. King moves come first, then queen, rook, bishop, knight
    /// and pawn moves.
    pub fn pseudo_legal_moves_for(&self, player: impl Player) -> (r: Vec<Move>)
        requires
            self.wf(),
        ensures
            forall|m: Move| #[trigger] r@.contains(m) == pseudo_legal(self@, player.spec_value(), m),
            r@.no_duplicates(),
    {
        let player = player.value();
        let ghost st = self@;
        let own = self.occupancy_player(player);
        let mask = Bitboard::new(!own.0);
        let mut out: Vec<Move> = Vec::new();
        let king = Piece::new(player, PieceTypeV::King);
        let queen = Piece::new(player, PieceTypeV::Queen);
        let rook = Piece::new(player, PieceTypeV::Rook);
        let bishop = Piece::new(player, PieceTypeV::Bishop);
        let knight = Piece::new(player, PieceTypeV::Knight);
        self.add_piece_moves(&mut out, king, mask, false);
        proof {
            assert forall|m: Move| #[trigger] out@.contains(m) implies st.pieces[m.from.index()] == Some(king) by {}
        }
        self.add_piece_moves(&mut out, queen, mask, false);
        proof {
            assert forall|m: Move| #[trigger] out@.contains(m) implies st.pieces[m.from.index()] == Some(king)
                || st.pieces[m.from.index()] == Some(queen) by {}
        }
        self.add_piece_moves(&mut out, rook, mask, false);
        proof {
            assert forall|m: Move| #[trigger] out@.contains(m) implies st.pieces[m.from.index()] == Some(king)
                || st.pieces[m.from.index()] == Some(queen) || st.pieces[m.from.index()] == Some(rook) by {}
        }
        self.add_piece_moves(&mut out, bishop, mask, false);
        proof {
            assert forall|m: Move| #[trigger] out@.contains(m) implies st.pieces[m.from.index()] == Some(king)
                || st.pieces[m.from.index()] == Some(queen) || st.pieces[m.from.index()] == Some(rook)
                || st.pieces[m.from.index()] == Some(bishop) by {}
        }
        self.add_piece_moves(&mut out, knight, mask, false);
        proof {
            assert forall|m: Move| #[trigger] out@.contains(m) implies st.pieces[m.from.index()] == Some(king)
                || st.pieces[m.from.index()] == Some(queen) || st.pieces[m.from.index()] == Some(rook)
                || st.pieces[m.from.index()] == Some(bishop) || st.pieces[m.from.index()] == Some(knight) by {}
        }
        self.add_pawn_moves(&mut out, player, false);
        proof {
            assert forall|m: Move| #[trigger] out@.contains(m) == pseudo_legal(st, player, m) by {
                let t = m.to.index();
                let s = m.from.index();
                assert(!Seq::<Move>::empty().contains(m));
                assert(bit(mask.0, t) == (0 <= t < 64 && !owned_by(st.pieces[t], player)));
                lemma_occ_upto(st.pieces, 64, t);
                if owned_by(st.pieces[s], player) {
                    let p = st.pieces[s].unwrap();
                    assert(p == Piece { player, piece_type: p.piece_type });
                }
            }
        }
        out
    }

    /// Every pseudo-legal move of `player` that captures a piece of the other side. King moves
    /// come first, then queen, rook, bishop, knight and pawn moves.
    pub fn capturing_moves(&self, player: impl Player) -> (r: Vec<Move>)
        requires
            self.wf(),
        ensures
            forall|m: Move| #[trigger] r@.contains(m) == capturing_move(self@, player.spec_value(), m),
            r@.no_duplicates(),
    {
        let player = player.value();
        let ghost st = self@;
        let mask = self.occupancy_player(player.opponent());
        let mut out: Vec<Move> = Vec::new();
        let king = Piece::new(player, PieceTypeV::King);
        let queen = Piece::new(player, PieceTypeV::Queen);
        let rook = Piece::new(player, PieceTypeV::Rook);
        let bishop = Piece::new(player, PieceTypeV::Bishop);
        let knight = Piece::new(player, PieceTypeV::Knight);
        self.add_piece_moves(&mut out, king, mask, true);
        proof {
            assert forall|m: Move| #[trigger] out@.contains(m) implies st.pieces[m.from.index()] == Some(king) by {}
        }
        self.add_piece_moves(&mut out, queen, mask, true);
        proof {
            assert forall|m: Move| #[trigger] out@.contains(m) implies st.pieces[m.from.index()] == Some(king)
                || st.pieces[m.from.index()] == Some(queen) by {}
        }
        self.add_piece_moves(&mut out, rook, mask, true);
        proof {
            assert forall|m: Move| #[trigger] out@.contains(m) implies st.pieces[m.from.index()] == Some(king)
                || st.pieces[m.from.index()] == Some(queen) || st.pieces[m.from.index()] == Some(rook) by {}
        }
        self.add_piece_moves(&mut out, bishop, mask, true);
        proof {
            assert forall|m: Move| #[trigger] out@.contains(m) implies st.pieces[m.from.index()] == Some(king)
                || st.pieces[m.from.index()] == Some(queen) || st.pieces[m.from.index()] == Some(rook)
                || st.pieces[m.from.index()] == Some(bishop) by {}
        }
        self.add_piece_moves(&mut out, knight, mask, true);
        proof {
            assert forall|m: Move| #[trigger] out@.contains(m) implies st.pieces[m.from.index()] == Some(king)
                || st.pieces[m.from.index()] == Some(queen) || st.pieces[m.from.index()] == Some(rook)
                || st.pieces[m.from.index()] == Some(bishop) || st.pieces[m.from.index()] == Some(knight) by {}
        }
        self.add_pawn_moves(&mut out, player, true);
        proof {
            assert forall|m: Move| #[trigger] out@.contains(m) == capturing_move(st, player, m) by {
                let t = m.to.index();
                let s = m.from.index();
                assert(!Seq::<Move>::empty().contains(m));
                if owned_by(st.pieces[s], player) {
                    let p = st.pieces[s].unwrap();
                    assert(p == Piece { player, piece_type: p.piece_type });
                }
            }
        }
        out
    }
}

/// The king of `player` is attacked: a square holds a king of `player` that the other side
/// attacks.
pub open spec fn in_check(st: BoardState, player: PlayerV) -> bool {
    exists|t: int|
        0 <= t < 64 && #[trigger] st.pieces[t] == Some(Piece { player, piece_type: PieceTypeV::King }) && attacked(
            st,
            player.spec_opponent(),
            t,
        )
}

/// `Board::make_if_legal` treats the move as castling: the mover's king moves two files.
pub open spec fn castles(st: BoardState, m: Move) -> bool {
    &&& st.pieces[m.from.index()] == Some(Piece { player: st.player, piece_type: PieceTypeV::King })
    &&& (m.from.file_index() - m.to.file_index() == 2 || m.to.file_index() - m.from.file_index() == 2)
}

/// The squares a castling king stands on and passes over: on the kingside where it moves to
/// the `g` file, on the queenside otherwise.
pub open spec fn castle_through(player: PlayerV, m: Move) -> u64 {
    if m.to.file_index() == 6 {
        player.spec_kingside_through()
    } else {
        player.spec_queenside_through()
    }
}

/// A move that the side to move may make: it does not castle out of, through or into an
/// attacked square, and it does not leave its own king attacked.
pub open spec fn legal(st: BoardState, m: Move) -> bool {
    &&& !(castles(st, m) && exists|t: int| #[trigger] bit(castle_through(st.player, m), t) && attacked(
        st,
        st.player.spec_opponent(),
        t,
    ))
    &&& !in_check(spec_make_move(st, m), st.player)
}

/// `square` holds a king of `player`, and no square with a lower index does.
pub open spec fn first_king(st: BoardState, player: PlayerV, square: int) -> bool {
    &&& 0 <= square < 64
    &&& st.pieces[square] == Some(Piece { player, piece_type: PieceTypeV::King })
    &&& forall|j: int| 0 <= j < square ==> st.pieces[j] != Some(Piece { player, piece_type: PieceTypeV::King })
}

/// What `Board::check` reports: a pseudo-legal move of the other side goes to the square of
/// the first king of `player`.
pub open spec fn spec_check(st: BoardState, player: PlayerV) -> bool {
    exists|k: int|
        #[trigger] first_king(st, player, k) && exists|m: Move|
            #[trigger] pseudo_legal(st, player.spec_opponent(), m) && m.to.index() == k
}

/// The moves that `Board::moves` gives: pseudo-legal moves of the side to move that
/// `Board::make_move` accepts and that are legal.
pub open spec fn legal_move(st: BoardState, m: Move) -> bool {
    &&& pseudo_legal(st, st.player, m)
    &&& can_make(st, m)
    &&& legal(st, m)
}

impl Board {
    /// `make_move` accepts the move: the side to move has a piece on its source square and
    /// none on its target square, and a castling king has its rook and an empty square beside
    /// it.
    pub fn can_make_move(&self, mov: Move) -> (r: bool)
        requires
            self.wf(),
        ensures
            r == can_make(self@, mov),
    {
        let player = self.player();
        let from = self.get(mov.from());
        let to = self.get(mov.to());
        let owns_from = match from {
            Some(p) => p.player() == player,
            None => false,
        };
        let owns_to = match to {
            Some(p) => p.player() == player,
            None => false,
        };
        if !owns_from || owns_to {
            return false;
        }
        let piece = from.unwrap();
        let f = mov.from().file();
        let t = mov.to().file();
        if piece.piece_type() == PieceTypeV::King && f == File::E && (t == File::KINGSIDE || t == File::QUEENSIDE) {
            let (rook_from_file, rook_to_file) = if t == File::KINGSIDE {
                (File::H, File::F)
            } else {
                (File::A, File::D)
            };
            let rook_from = Square::new(rook_from_file, mov.from().rank());
            let rook_to = Square::new(rook_to_file, mov.to().rank());
            let rook = Piece::new(player, PieceTypeV::Rook);
            holds(self.get(rook_from), rook) && self.get(rook_to).is_none()
        } else {
            true
        }
    }

    /// Plays the move where it is legal, and returns what `make_move` returns; leaves the
    /// board as it was and returns nothing where it is not.
    pub fn make_if_legal(&mut self, mov: Move) -> (r: Option<PlayedMove>)
        requires
            old(self).wf(),
            can_make(old(self)@, mov),
            mov.promoting is Some ==> old(self)@.pieces[mov.from.index()] == Some(
                Piece { player: old(self)@.player, piece_type: PieceTypeV::Pawn },
            ),
        ensures
            final(self).wf(),
            r is Some == legal(old(self)@, mov),
            r matches Some(pm) ==> final(self)@ == spec_make_move(old(self)@, mov) && pm == spec_played_move(old(self)@, mov),
            r is Some ==> !spec_check(final(self)@, old(self)@.player),
            r is None ==> *final(self) == *old(self),
    {
        let ghost st = self@;
        let ghost before = *self;
        let me = self.player();
        let my_king = Piece::new(me, PieceTypeV::King);
        let piece = self.get(mov.from()).unwrap();
        let df = mov.from().file().sub(mov.to().file());
        let castling = piece == my_king && (df == 2 || df == -2);
        if castling {
            let through = if mov.to().file() == File::KINGSIDE {
                me.castle_kingside_through()
            } else {
                me.castle_queenside_through()
            };
            let attacks = self.attacks(me.opponent());
            let blocked = through & attacks;
            proof {
                lemma_and_nonzero(through.0, attacks.0);
                assert(castles(st, mov));
                assert(through.0 == castle_through(st.player, mov));
            }
            if blocked.0 != 0 {
                proof {
                    let i = choose|i: int| 0 <= i < 64 && #[trigger] bit(through.0, i) && bit(attacks.0, i);
                    assert(bit(castle_through(st.player, mov), i) && attacked(st, st.player.spec_opponent(), i));
                }
                return None;
            }
            proof {
                assert forall|t: int| #[trigger] bit(castle_through(st.player, mov), t) implies !attacked(st, st.player.spec_opponent(), t) by {
                    assert(bit(through.0, t));
                    if attacked(st, st.player.spec_opponent(), t) {
                        assert(bit(attacks.0, t));
                    }
                }
            }
        } else {
            assert(!castles(st, mov));
        }
        proof {
            law_unmake_undoes_make(*self, mov);
        }
        let pmov = self.make_move(mov);
        let king_board = self.bitboard_piece(my_king);
        let attacks = self.attacks(me.opponent());
        let checked = king_board & attacks;
        proof {
            lemma_and_nonzero(king_board.0, attacks.0);
            let n = self@;
            assert(n == spec_make_move(st, mov));
            if checked.0 != 0 {
                let i = choose|i: int| 0 <= i < 64 && #[trigger] bit(king_board.0, i) && bit(attacks.0, i);
                assert(n.pieces[i] == Some(my_king) && attacked(n, me.spec_opponent(), i));
                assert(in_check(n, me));
            } else {
                assert forall|t: int| 0 <= t < 64 && #[trigger] n.pieces[t] == Some(my_king) implies !attacked(n, me.spec_opponent(), t) by {
                    assert(bit(king_board.0, t));
                    if attacked(n, me.spec_opponent(), t) {
                        assert(bit(attacks.0, t));
                    }
                }
                assert(!in_check(n, me));
            }
        }
        let in_check = checked.0 != 0;
        if in_check {
            self.unmake_move(pmov);
            proof {
                lemma_view_determines_board(*self, before);
            }
            None
        } else {
            proof {
                before.lemma_wf_len();
                law_legal_moves_never_leave_king_in_check(st, mov);
            }
            Some(pmov)
        }
    }

    /// The move is legal; the board is left as it was.
    pub fn check_legal(&mut self, mov: Move) -> (r: bool)
        requires
            old(self).wf(),
            can_make(old(self)@, mov),
            mov.promoting is Some ==> old(self)@.pieces[mov.from.index()] == Some(
                Piece { player: old(self)@.player, piece_type: PieceTypeV::Pawn },
            ),
        ensures
            r == legal(old(self)@, mov),
            *final(self) == *old(self),
    {
        let ghost before = *self;
        match self.make_if_legal(mov) {
            None => false,
            Some(pmov) => {
                proof {
                    law_unmake_undoes_make(before, mov);
                }
                self.unmake_move(pmov);
                proof {
                    lemma_view_determines_board(*self, before);
                }
                true
            },
        }
    }

    /// Every legal move of the side to move; the board is left as it was.
    pub fn moves(&mut self) -> (r: Vec<Move>)
        requires
            old(self).wf(),
        ensures
            forall|m: Move| #[trigger] r@.contains(m) == legal_move(old(self)@, m),
            r@.no_duplicates(),
            *final(self) == *old(self),
    {
        let ghost before = *self;
        let pseudo = self.pseudo_legal_moves();
        let mut out: Vec<Move> = Vec::new();
        let mut j: usize = 0;
        while j < pseudo.len()
            invariant
                j <= pseudo@.len(),
                *self == before,
                self.wf(),
                forall|m: Move| #[trigger] pseudo@.contains(m) == pseudo_legal(before@, before@.player, m),
                forall|m: Move| #[trigger] out@.contains(m) == (exists|k: int| 0 <= k < j && pseudo@[k] == m
                    && can_make(before@, m) && legal(before@, m)),
                pseudo@.no_duplicates(),
                out@.no_duplicates(),
            decreases pseudo@.len() - j,
        {
            let mov = pseudo[j];
            assert(pseudo@.contains(mov));
            let ghost old_out = out@;
            if self.can_make_move(mov) && self.check_legal(mov) {
                proof {
                    if old_out.contains(mov) {
                        let k = choose|k: int| 0 <= k < j && pseudo@[k] == mov && can_make(before@, mov) && legal(before@, mov);
                        assert(pseudo@[k] == pseudo@[j as int]);
                    }
                    lemma_push_no_duplicates(old_out, mov);
                }
                out.push(mov);
            }
            assert forall|m: Move| #[trigger] out@.contains(m) == (exists|k: int| 0 <= k < j + 1 && pseudo@[k] == m
                && can_make(before@, m) && legal(before@, m)) by {
                lemma_push_contains(old_out, mov, m);
                if m == mov && can_make(before@, m) && legal(before@, m) {
                    assert(pseudo@[j as int] == m);
                }
            }
            j = j + 1;
        }
        proof {
            assert forall|m: Move| #[trigger] out@.contains(m) == legal_move(before@, m) by {
                if pseudo_legal(before@, before@.player, m) {
                    assert(pseudo@.contains(m));
                }
                if out@.contains(m) {
                    let k = choose|k: int| 0 <= k < pseudo@.len() && pseudo@[k] == m && can_make(before@, m) && legal(before@, m);
                    assert(pseudo@.contains(m));
                }
            }
        }
        out
    }

    /// The first king of `king_player` (the one on the lowest square) can be captured by a
    /// pseudo-legal move of the other side; false where `king_player` has no king.
    pub fn check(&self, king_player: impl Player) -> (r: bool)
        requires
            self.wf(),
        ensures
            r == spec_check(self@, king_player.spec_value()),
    {
        let player = king_player.value();
        let king = Piece::new(player, PieceTypeV::King);
        let kb = self.bitboard_piece(king);
        let kings = kb.squares();
        let ghost st = self@;
        if kings.len() == 0 {
            proof {
                assert forall|k: int| !#[trigger] first_king(st, player, k) by {
                    if first_king(st, player, k) {
                        let sq = Square::at(k);
                        assert(sq.index() == k);
                        assert(kb.has(sq));
                    }
                }
            }
            return false;
        }
        let king_pos = kings[0];
        proof {
            assert(kb.has(kings@[0]));
            assert forall|j: int| 0 <= j < king_pos.index() implies st.pieces[j] != Some(king) by {
                if st.pieces[j] == Some(king) {
                    let sq = Square::at(j);
                    assert(sq.index() == j);
                    assert(kb.has(sq));
                    assert(kings@.contains(sq));
                    let l = choose|l: int| 0 <= l < kings@.len() && kings@[l] == sq;
                    if l > 0 {
                        assert(kings@[0].index() < kings@[l].index());
                    }
                }
            }
            assert(first_king(st, player, king_pos.index()));
            assert forall|k: int| #[trigger] first_king(st, player, k) implies k == king_pos.index() by {
                if k < king_pos.index() {
                } else if k > king_pos.index() {
                    assert(st.pieces[king_pos.index()] == Some(king));
                }
            }
        }
        let moves = self.pseudo_legal_moves_for(player.opponent());
        let mut j: usize = 0;
        while j < moves.len()
            invariant
                j <= moves@.len(),
                forall|k: int| 0 <= k < j ==> moves@[k].to != king_pos,
                first_king(st, player, king_pos.index()),
                st == self@,
                player == king_player.spec_value(),
                forall|m: Move| #[trigger] moves@.contains(m) == pseudo_legal(st, player.spec_opponent(), m),
            decreases moves@.len() - j,
        {
            if moves[j].to() == king_pos {
                proof {
                    let m = moves@[j as int];
                    assert(moves@.contains(m));
                    assert(pseudo_legal(st, player.spec_opponent(), m) && m.to.index() == king_pos.index());
                    assert(first_king(st, player, king_pos.index()));
                    assert(spec_check(st, player));
                }
                return true;
            }
            j = j + 1;
        }
        proof {
            assert forall|k: int| #[trigger] first_king(st, player, k) implies !exists|m: Move|
                #[trigger] pseudo_legal(st, player.spec_opponent(), m) && m.to.index() == k by {
                if exists|m: Move| #[trigger] pseudo_legal(st, player.spec_opponent(), m) && m.to.index() == k {
                    let m = choose|m: Move| #[trigger] pseudo_legal(st, player.spec_opponent(), m) && m.to.index() == k;
                    assert(moves@.contains(m));
                    let l = choose|l: int| 0 <= l < moves@.len() && moves@[l] == m;
                    assert(m.to == king_pos);
                }
            }
        }
        false
    }

    /// The side to move is in check and has no legal move; the board is left as it was.
    pub fn checkmate(&mut self) -> (r: bool)
        requires
            old(self).wf(),
        ensures
            r == (spec_check(old(self)@, old(self)@.player) && forall|m: Move| !#[trigger] legal_move(old(self)@, m)),
            *final(self) == *old(self),
    {
        let in_check = self.check(self.player());
        if !in_check {
            return false;
        }
        let moves = self.moves();
        proof {
            if moves@.len() > 0 {
                assert(moves@.contains(moves@[0]));
            } else {
                assert forall|m: Move| !#[trigger] legal_move(old(self)@, m) by {
                    if legal_move(old(self)@, m) {
                        assert(moves@.contains(m));
                    }
                }
            }
        }
        moves.len() == 0
    }
}

impl Board {
    /// The squares that pieces `piece` attack.
    fn attacks_for_piece(&self, piece: Piece) -> (r: Bitboard)
        requires
            self.wf(),
        ensures
            forall|t: int| #[trigger] bit(r.0, t) == attacked_by_piece(self@, piece, t),
    {
        let occupancy = self.occupancy();
        let pieces = self.bitboard_piece(piece);
        let sources = pieces.squares();
        let mut attacks = bitboards::empty();
        let mut j: usize = 0;
        while j < sources.len()
            invariant
                j <= sources@.len(),
                forall|t: int| #[trigger] bit(attacks.0, t) == exists|k: int|
                    0 <= k < j && #[trigger] piece_attack(piece.piece_type, piece.player, sources@[k].index(), occupancy.0, t),
            decreases sources@.len() - j,
        {
            let a = pieces::attacks(piece.piece_type, sources[j], occupancy, piece.player);
            let ghost old_attacks = attacks;
            attacks = attacks | a;
            assert forall|t: int| #[trigger] bit(attacks.0, t) == exists|k: int|
                0 <= k < j + 1 && #[trigger] piece_attack(piece.piece_type, piece.player, sources@[k].index(), occupancy.0, t) by {
                if bit(a.0, t) {
                    assert(piece_attack(piece.piece_type, piece.player, sources@[j as int].index(), occupancy.0, t));
                }
            }
            j = j + 1;
        }
        proof {
            let st = self@;
            assert forall|t: int| #[trigger] bit(attacks.0, t) == attacked_by_piece(st, piece, t) by {
                if bit(attacks.0, t) {
                    let k = choose|k: int|
                        0 <= k < sources@.len() && #[trigger] piece_attack(piece.piece_type, piece.player, sources@[k].index(), occupancy.0, t);
                    assert(pieces.has(sources@[k]));
                    let s = sources@[k].index();
                    assert(st.pieces[s] == Some(piece));
                }
                if attacked_by_piece(st, piece, t) {
                    let s = choose|s: int|
                        0 <= s < 64 && #[trigger] st.pieces[s] == Some(piece) && piece_attack(piece.piece_type, piece.player, s, occ_word(st.pieces), t);
                    let sq = Square::at(s);
                    assert(sq.index() == s);
                    assert(pieces.has(sq));
                    assert(sources@.contains(sq));
                    let k = choose|k: int| 0 <= k < sources@.len() && sources@[k] == sq;
                    assert(piece_attack(piece.piece_type, piece.player, sources@[k].index(), occupancy.0, t));
                }
            }
        }
        attacks
    }

    /// The squares that the pieces of `player` attack.
    pub fn attacks(&self, player: PlayerV) -> (r: Bitboard)
        requires
            self.wf(),
        ensures
            forall|t: int| #[trigger] bit(r.0, t) == attacked(self@, player, t),
    {
        let king = self.attacks_for_piece(Piece::new(player, PieceTypeV::King));
        let queen = self.attacks_for_piece(Piece::new(player, PieceTypeV::Queen));
        let rook = self.attacks_for_piece(Piece::new(player, PieceTypeV::Rook));
        let bishop = self.attacks_for_piece(Piece::new(player, PieceTypeV::Bishop));
        let knight = self.attacks_for_piece(Piece::new(player, PieceTypeV::Knight));
        let pawn = self.attacks_for_piece(Piece::new(player, PieceTypeV::Pawn));
        let r = king | queen | rook | bishop | knight | pawn;
        proof {
            let st = self@;
            assert forall|t: int| #[trigger] bit(r.0, t) == attacked(st, player, t) by {
                if attacked(st, player, t) {
                    let s = choose|s: int|
                        0 <= s < 64 && #[trigger] owned_by(st.pieces[s], player) && piece_attack(
                            st.pieces[s].unwrap().piece_type,
                            player,
                            s,
                            occ_word(st.pieces),
                            t,
                        );
                    let p = st.pieces[s].unwrap();
                    assert(st.pieces[s] == Some(p));
                    assert(attacked_by_piece(st, p, t));
                    assert(p == Piece { player, piece_type: p.piece_type });
                }
                if bit(r.0, t) {
                    if bit(king.0, t) {
                        let s = choose|s: int| 0 <= s < 64 && #[trigger] st.pieces[s] == Some(Piece { player, piece_type: PieceTypeV::King })
                            && piece_attack(PieceTypeV::King, player, s, occ_word(st.pieces), t);
                        assert(owned_by(st.pieces[s], player));
                    } else if bit(queen.0, t) {
                        let s = choose|s: int| 0 <= s < 64 && #[trigger] st.pieces[s] == Some(Piece { player, piece_type: PieceTypeV::Queen })
                            && piece_attack(PieceTypeV::Queen, player, s, occ_word(st.pieces), t);
                        assert(owned_by(st.pieces[s], player));
                    } else if bit(rook.0, t) {
                        let s = choose|s: int| 0 <= s < 64 && #[trigger] st.pieces[s] == Some(Piece { player, piece_type: PieceTypeV::Rook })
                            && piece_attack(PieceTypeV::Rook, player, s, occ_word(st.pieces), t);
                        assert(owned_by(st.pieces[s], player));
                    } else if bit(bishop.0, t) {
                        let s = choose|s: int| 0 <= s < 64 && #[trigger] st.pieces[s] == Some(Piece { player, piece_type: PieceTypeV::Bishop })
                            && piece_attack(PieceTypeV::Bishop, player, s, occ_word(st.pieces), t);
                        assert(owned_by(st.pieces[s], player));
                    } else if bit(knight.0, t) {
                        let s = choose|s: int| 0 <= s < 64 && #[trigger] st.pieces[s] == Some(Piece { player, piece_type: PieceTypeV::Knight })
                            && piece_attack(PieceTypeV::Knight, player, s, occ_word(st.pieces), t);
                        assert(owned_by(st.pieces[s], player));
                    } else {
                        let s = choose|s: int| 0 <= s < 64 && #[trigger] st.pieces[s] == Some(Piece { player, piece_type: PieceTypeV::Pawn })
                            && piece_attack(PieceTypeV::Pawn, player, s, occ_word(st.pieces), t);
                        assert(owned_by(st.pieces[s], player));
                    }
                }
            }
        }
        r
    }
}

/// The square a castling king lands on is one of those that must be empty.
proof fn lemma_castle_targets_must_be_clear()
    ensures
        bit(PlayerV::White.spec_kingside_clear(), 6),
        bit(PlayerV::Black.spec_kingside_clear(), 62),
        bit(PlayerV::White.spec_queenside_clear(), 2),
        bit(PlayerV::Black.spec_queenside_clear(), 58),
        bit(PlayerV::White.spec_kingside_clear(), 5),
        bit(PlayerV::Black.spec_kingside_clear(), 61),
        bit(PlayerV::White.spec_queenside_clear(), 3),
        bit(PlayerV::Black.spec_queenside_clear(), 59),
{
    assert((0x60u64 >> 6u64) & 1u64 == 1u64 && (0x6000_0000_0000_0000u64 >> 62u64) & 1u64 == 1u64 && (0x0eu64
        >> 2u64) & 1u64 == 1u64 && (0x0e00_0000_0000_0000u64 >> 58u64) & 1u64 == 1u64 && (0x60u64 >> 5u64) & 1u64
        == 1u64 && (0x6000_0000_0000_0000u64 >> 61u64) & 1u64 == 1u64 && (0x0eu64 >> 3u64) & 1u64 == 1u64 && (
    0x0e00_0000_0000_0000u64 >> 59u64) & 1u64 == 1u64) by (bit_vector);
}

/// No side has two kings.
pub open spec fn single_kings(st: BoardState) -> bool {
    forall|i: int, j: int|
        0 <= i < 64 && 0 <= j < 64 && #[trigger] st.pieces[i] == #[trigger] st.pieces[j] && (st.pieces[i] matches Some(
            p,
        ) && p.piece_type == PieceTypeV::King) ==> i == j
}

/// Where no side has two kings, `make_move` accepts every pseudo-legal move of the side to
/// move, and only a pawn promotes; so the legal moves are exactly the pseudo-legal moves that
/// `make_if_legal` accepts.
pub proof fn law_pseudo_legal_moves_are_playable(st: BoardState, m: Move)
    requires
        st.pieces.len() == 64,
        crate::board::castle_ok(st.pieces, st.flags),
        single_kings(st),
        pseudo_legal(st, st.player, m),
    ensures
        can_make(st, m),
        m.promoting is Some ==> st.pieces[m.from.index()] == Some(Piece { player: st.player, piece_type: PieceTypeV::Pawn }),
        legal_move(st, m) == legal(st, m),
{
    let s = m.from.index();
    let t = m.to.index();
    let piece = st.pieces[s].unwrap();
    let p = st.player;
    let occ = occ_word(st.pieces);
    if crate::board::is_castling(piece, m) {
        lemma_castle_targets_must_be_clear();
        assert(!king_step(s, t));
        assert(castle_target(p, occ, st.flags, t));
        let home = p.back_rank_index() * 8 + 4;
        if crate::board::castling_kingside(m) {
            assert(t == p.back_rank_index() * 8 + 6);
            assert(st.flags & p.spec_kingside_flag() != 0);
            assert(st.pieces[home] == Some(Piece { player: p, piece_type: PieceTypeV::King })) by {
                reveal_with_fuel(crate::board::castle_ok, 1);
            }
            assert(s == home);
            let r = p.back_rank_index() * 8 + 5;
            assert(bit(p.spec_kingside_clear(), r));
            if st.pieces[r] is Some {
                lemma_occ_upto(st.pieces, 64, r);
                lemma_and_nonzero(p.spec_kingside_clear(), occ);
            }
        } else {
            assert(t == p.back_rank_index() * 8 + 2);
            assert(st.flags & p.spec_queenside_flag() != 0);
            assert(st.pieces[home] == Some(Piece { player: p, piece_type: PieceTypeV::King }));
            assert(s == home);
            let r = p.back_rank_index() * 8 + 3;
            assert(bit(p.spec_queenside_clear(), r));
            if st.pieces[r] is Some {
                lemma_occ_upto(st.pieces, 64, r);
                lemma_and_nonzero(p.spec_queenside_clear(), occ);
            }
        }
    }
}

/// The capturing moves are exactly the pseudo-legal moves onto a piece of the other side, and
/// the pawn moves that take en passant.
pub proof fn law_capturing_moves_are_pseudo_legal_captures(st: BoardState, player: PlayerV, m: Move)
    ensures
        capturing_move(st, player, m) <==> (pseudo_legal(st, player, m) && (owned_by(
            st.pieces[m.to.index()],
            player.spec_opponent(),
        ) || (st.pieces[m.from.index()].unwrap().piece_type == PieceTypeV::Pawn && m.to.index() == ep_target(st, player)
            && pawn_attack(player, m.from.index(), m.to.index())))),
{
    let s = m.from.index();
    let t = m.to.index();
    let occ = occ_word(st.pieces);
    lemma_occ_upto(st.pieces, 64, t);
    lemma_occ_upto(st.pieces, 64, t - 8 * player.spec_multiplier());
    if owned_by(st.pieces[t], player.spec_opponent()) {
        assert(bit(occ, t));
        assert(!owned_by(st.pieces[t], player));
        let w = player.back_rank_index() * 8 + 6;
        let q = player.back_rank_index() * 8 + 2;
        if t == w {
            assert(bit(player.spec_kingside_clear(), t)) by {
                lemma_castle_targets_must_be_clear();
            }
            crate::bits::lemma_and_nonzero(player.spec_kingside_clear(), occ);
        }
        if t == q {
            assert(bit(player.spec_queenside_clear(), t)) by {
                lemma_castle_targets_must_be_clear();
            }
            crate::bits::lemma_and_nonzero(player.spec_queenside_clear(), occ);
        }
    }
}

/// A legal move never leaves the mover's king attacked, nor open to a pseudo-legal move of the
/// other side: after it, `check` reports no check for the side that moved.
pub proof fn law_legal_moves_never_leave_king_in_check(st: BoardState, m: Move)
    requires
        st.pieces.len() == 64,
        legal(st, m),
    ensures
        !in_check(spec_make_move(st, m), st.player),
        !spec_check(spec_make_move(st, m), st.player),
{
    let after = spec_make_move(st, m);
    let me = st.player;
    if spec_check(after, me) {
        let k = choose|k: int| #[trigger] first_king(after, me, k) && exists|m2: Move|
            #[trigger] pseudo_legal(after, me.spec_opponent(), m2) && m2.to.index() == k;
        let m2 = choose|m2: Move| #[trigger] pseudo_legal(after, me.spec_opponent(), m2) && m2.to.index() == k;
        assert(me.spec_opponent().spec_opponent() == me);
        law_capturing_moves_are_pseudo_legal_captures(after, me.spec_opponent(), m2);
        let s2 = m2.from.index();
        assert(owned_by(after.pieces[s2], me.spec_opponent()));
        assert(attacked(after, me.spec_opponent(), k));
        assert(in_check(after, me));
    }
}

} // verus!
