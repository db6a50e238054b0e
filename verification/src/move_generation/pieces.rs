//! The squares each kind of piece attacks or moves to from a square.
use vstd::prelude::*;

use crate::bitboard::{bitboards, Bitboard};
use crate::bits::{bit, group_bits};
use crate::board::BoardFlags;
use crate::move_generation::rays::{bishop_attack, rook_attack, SlideDirection};
use crate::piece::{PieceType, PieceTypeV};
use crate::player::{Player, PlayerV};
use crate::square::{File, Rank, Square, group_square};

verus! {

broadcast use {group_bits, group_square};

/// `t` is one king step from `s`.
pub open spec fn king_step(s: int, t: int) -> bool {
    &&& 0 <= t < 64
    &&& t != s
    &&& -1 <= t % 8 - s % 8 <= 1
    &&& -1 <= t / 8 - s / 8 <= 1
}

/// `t` is one knight jump from `s`.
pub open spec fn knight_jump(s: int, t: int) -> bool {
    &&& 0 <= t < 64
    &&& {
        let df = t % 8 - s % 8;
        let dr = t / 8 - s / 8;
        ||| (df == 1 || df == -1) && (dr == 2 || dr == -2)
        ||| (df == 2 || df == -2) && (dr == 1 || dr == -1)
    }
}

/// A pawn of `player` on `s` attacks `t`: one row forward and one column aside.
pub open spec fn pawn_attack(player: PlayerV, s: int, t: int) -> bool {
    &&& 0 <= t < 64
    &&& t / 8 == s / 8 + player.spec_multiplier()
    &&& (t % 8 == s % 8 + 1 || t % 8 == s % 8 - 1)
}

/// A piece of kind `pt` and side `player` on `s` attacks `t`, with the squares of `occ`
/// occupied.
pub open spec fn piece_attack(pt: PieceTypeV, player: PlayerV, s: int, occ: u64, t: int) -> bool {
    match pt {
        PieceTypeV::King => king_step(s, t),
        PieceTypeV::Queen => rook_attack(s, occ, t) || bishop_attack(s, occ, t),
        PieceTypeV::Rook => rook_attack(s, occ, t),
        PieceTypeV::Bishop => bishop_attack(s, occ, t),
        PieceTypeV::Knight => knight_jump(s, t),
        PieceTypeV::Pawn => pawn_attack(player, s, t),
    }
}

/// The square `t` is where a king of `player` lands castling, with the right for it set and the
/// squares between king and rook empty.
pub open spec fn castle_target(player: PlayerV, occ: u64, flags: u8, t: int) -> bool {
    ||| t == player.back_rank_index() * 8 + 6 && flags & player.spec_kingside_flag() != 0
        && player.spec_kingside_clear() & occ == 0
    ||| t == player.back_rank_index() * 8 + 2 && flags & player.spec_queenside_flag() != 0
        && player.spec_queenside_clear() & occ == 0
}

/// A pawn of `player` on `s` can move to the empty square `t` without capturing: one row
/// forward, or two from its starting rank over an empty square.
pub open spec fn pawn_push(player: PlayerV, s: int, occ: u64, t: int) -> bool {
    let m = player.spec_multiplier();
    ||| 0 <= t < 64 && t == s + 8 * m && !bit(occ, t)
    ||| 0 <= t < 64 && t == s + 16 * m && s / 8 == player.pawn_rank_index() && !bit(occ, s + 8 * m)
        && !bit(occ, t)
}

/// The king.
#[derive(Clone, Copy, Default, Debug)]
pub struct KingType;

/// The queen.
#[derive(Clone, Copy, Default, Debug)]
pub struct Queen;

/// The rook.
#[derive(Clone, Copy, Default, Debug)]
pub struct Rook;

/// The bishop.
#[derive(Clone, Copy, Default, Debug)]
pub struct Bishop;

/// The knight.
#[derive(Clone, Copy, Default, Debug)]
pub struct Knight;

/// The pawn.
#[derive(Clone, Copy, Default, Debug)]
pub struct Pawn;

impl PieceType for KingType {
    open spec fn spec_value(self) -> PieceTypeV {
        PieceTypeV::King
    }

    fn value(self) -> (r: PieceTypeV) {
        PieceTypeV::King
    }
}

impl PieceType for Queen {
    open spec fn spec_value(self) -> PieceTypeV {
        PieceTypeV::Queen
    }

    fn value(self) -> (r: PieceTypeV) {
        PieceTypeV::Queen
    }
}

impl PieceType for Rook {
    open spec fn spec_value(self) -> PieceTypeV {
        PieceTypeV::Rook
    }

    fn value(self) -> (r: PieceTypeV) {
        PieceTypeV::Rook
    }
}

impl PieceType for Bishop {
    open spec fn spec_value(self) -> PieceTypeV {
        PieceTypeV::Bishop
    }

    fn value(self) -> (r: PieceTypeV) {
        PieceTypeV::Bishop
    }
}

impl PieceType for Knight {
    open spec fn spec_value(self) -> PieceTypeV {
        PieceTypeV::Knight
    }

    fn value(self) -> (r: PieceTypeV) {
        PieceTypeV::Knight
    }
}

impl PieceType for Pawn {
    open spec fn spec_value(self) -> PieceTypeV {
        PieceTypeV::Pawn
    }

    fn value(self) -> (r: PieceTypeV) {
        PieceTypeV::Pawn
    }
}

/// Where a king step leads, in terms of whole-row and one-column shifts of the square.
spec fn king_shape(s: int, t: int) -> bool {
    &&& 0 <= t < 64
    &&& {
        ||| t == s + 8
        ||| t == s - 8
        ||| t % 8 >= 1 && (t - 1 == s || t - 9 == s || t + 7 == s)
        ||| t % 8 <= 6 && (t + 1 == s || t - 7 == s || t + 9 == s)
    }
}

proof fn lemma_king_shape(s: int, t: int)
    requires
        0 <= s < 64,
    ensures
        king_shape(s, t) == king_step(s, t),
{
}

/// Where a knight jump leads, in terms of row and column shifts of the square.
spec fn knight_shape(s: int, t: int) -> bool {
    &&& 0 <= t < 64
    &&& {
        ||| t % 8 >= 1 && (t - 17 == s || t + 15 == s)
        ||| t % 8 <= 6 && (t - 15 == s || t + 17 == s)
        ||| 0 <= t - 8 && (t - 8) % 8 >= 2 && t - 10 == s
        ||| 0 <= t - 8 && (t - 8) % 8 <= 5 && t - 6 == s
        ||| t + 8 < 64 && (t + 8) % 8 >= 2 && t + 6 == s
        ||| t + 8 < 64 && (t + 8) % 8 <= 5 && t + 10 == s
    }
}

proof fn lemma_knight_shape(s: int, t: int)
    requires
        0 <= s < 64,
    ensures
        knight_shape(s, t) == knight_jump(s, t),
{
}

/// The squares a king on `square` attacks.
pub fn king_moves(square: Square) -> (r: Bitboard)
    ensures
        forall|t: int| #[trigger] bit(r.0, t) == king_step(square.index(), t),
{
    let ghost s = square.index();
    let king = Bitboard::from_square(square);
    let attacks = king.shift_rank(1) | king.shift_rank(-1);
    assert(forall|j: int| #[trigger] bit(attacks.0, j) == (0 <= j < 64 && (j - 8 == s || j + 8 == s)));
    let ranks = king | attacks;
    assert(forall|j: int| #[trigger] bit(ranks.0, j) == (j == s || (0 <= j < 64 && (j - 8 == s || j + 8 == s))));
    let east = ranks.shift_file(1);
    let west = ranks.shift_file(-1);
    let r = attacks | east | west;
    assert forall|t: int| #[trigger] bit(r.0, t) == king_step(s, t) by {
        lemma_king_shape(s, t);
        if 0 <= t < 64 {
            assert(bit(east.0, t) == (0 <= t % 8 - 1 < 8 && bit(ranks.0, t - 1)));
            assert(bit(west.0, t) == (0 <= t % 8 + 1 < 8 && bit(ranks.0, t + 1)));
        }
    }
    r
}

/// The squares a knight on `square` attacks.
pub fn knight_moves(square: Square) -> (r: Bitboard)
    ensures
        forall|t: int| #[trigger] bit(r.0, t) == knight_jump(square.index(), t),
{
    let ghost s = square.index();
    let knight = Bitboard::from_square(square);
    let ranks = knight.shift_rank(2) | knight.shift_rank(-2);
    assert(forall|j: int| #[trigger] bit(ranks.0, j) == (0 <= j < 64 && (j - 16 == s || j + 16 == s)));
    let rank_east = ranks.shift_file(1);
    let rank_west = ranks.shift_file(-1);
    let files = knight.shift_file(2) | knight.shift_file(-2);
    assert(forall|j: int| #[trigger] bit(files.0, j) == (0 <= j < 64 && ((0 <= j % 8 - 2 && j - 2 == s) || (j % 8 + 2 < 8 && j + 2 == s))));
    let file_north = files.shift_rank(1);
    let file_south = files.shift_rank(-1);
    let r = rank_east | rank_west | file_north | file_south;
    assert forall|t: int| #[trigger] bit(r.0, t) == knight_jump(s, t) by {
        lemma_knight_shape(s, t);
        if 0 <= t < 64 {
            assert(bit(rank_east.0, t) == (0 <= t % 8 - 1 < 8 && bit(ranks.0, t - 1)));
            assert(bit(rank_west.0, t) == (0 <= t % 8 + 1 < 8 && bit(ranks.0, t + 1)));
            assert(bit(file_north.0, t) == bit(files.0, t - 8));
            assert(bit(file_south.0, t) == bit(files.0, t + 8));
        }
    }
    r
}

/// The squares that pawns of `player` on `sources` push to: one row forward onto an empty
/// square, and two rows forward from the starting rank over and onto empty squares.
pub fn move_boards(sources: Bitboard, occupancy: Bitboard, player: PlayerV) -> (r: (Bitboard, Bitboard))
    ensures
        forall|t: int| #[trigger] bit(r.0.0, t) == (0 <= t < 64 && bit(sources.0, t - 8 * player.spec_multiplier())
            && !bit(occupancy.0, t)),
        forall|t: int| #[trigger] bit(r.1.0, t) == (0 <= t < 64 && bit(sources.0, t - 16 * player.spec_multiplier())
            && (t - 16 * player.spec_multiplier()) / 8 == player.pawn_rank_index()
            && !bit(occupancy.0, t - 8 * player.spec_multiplier()) && !bit(occupancy.0, t)),
{
    let ghost m = player.spec_multiplier();
    let free_spaces = Bitboard::new(!occupancy.0);
    let pawns_forward = player.advance_bitboard(sources);
    let pushes = pawns_forward & free_spaces;
    assert(forall|t: int| #[trigger] bit(pushes.0, t) == (0 <= t < 64 && bit(sources.0, t - 8 * m) && !bit(occupancy.0, t)));
    let double_rank = if player == PlayerV::White {
        Rank::_3
    } else {
        Rank::_6
    };
    let double_mask = bitboards::ranks(double_rank);
    let on_double_rank = pushes & double_mask;
    let double_pushes = player.advance_bitboard(on_double_rank) & free_spaces;
    assert forall|t: int| #[trigger] bit(double_pushes.0, t) == (0 <= t < 64 && bit(sources.0, t - 16 * m)
        && (t - 16 * m) / 8 == player.pawn_rank_index() && !bit(occupancy.0, t - 8 * m) && !bit(occupancy.0, t)) by {
        if 0 <= t < 64 {
            assert(bit(on_double_rank.0, t - 8 * m) == (bit(pushes.0, t - 8 * m) && bit(double_mask.0, t - 8 * m)));
            assert((t - 8 * m) / 8 == (t - 16 * m) / 8 + m);
        }
    }
    (pushes, double_pushes)
}

/// The squares of `targets` that pawns of `player` on `sources` capture on: one row forward
/// and one column to the west (first) or to the east (second).
pub fn capture_boards(sources: Bitboard, targets: Bitboard, player: PlayerV) -> (r: (Bitboard, Bitboard))
    ensures
        forall|t: int| #[trigger] bit(r.0.0, t) == (0 <= t < 64 && t % 8 <= 6 && bit(sources.0, t + 1 - 8 * player.spec_multiplier())
            && bit(targets.0, t)),
        forall|t: int| #[trigger] bit(r.1.0, t) == (0 <= t < 64 && t % 8 >= 1 && bit(sources.0, t - 1 - 8 * player.spec_multiplier())
            && bit(targets.0, t)),
{
    let pawns_forward = player.advance_bitboard(sources);
    let west = pawns_forward.shift_file(-1);
    let east = pawns_forward.shift_file(1);
    (west & targets, east & targets)
}

/// The squares a pawn of `player` on `source` attacks.
pub fn pawn_attacks(player: PlayerV, source: Square) -> (r: Bitboard)
    ensures
        forall|t: int| #[trigger] bit(r.0, t) == pawn_attack(player, source.index(), t),
{
    let ghost s = source.index();
    let ghost m = player.spec_multiplier();
    let (west, east) = capture_boards(Bitboard::from_square(source), bitboards::full(), player);
    let r = west | east;
    assert forall|t: int| #[trigger] bit(r.0, t) == pawn_attack(player, s, t) by {
        if 0 <= t < 64 {
            assert(bit(west.0, t) == (t % 8 <= 6 && t + 1 - 8 * m == s));
            assert(bit(east.0, t) == (t % 8 >= 1 && t - 1 - 8 * m == s));
        }
    }
    r
}

/// The squares a rook on `source` attacks.
pub fn rook_moves(source: Square, occupancy: Bitboard) -> (r: Bitboard)
    ensures
        forall|t: int| #[trigger] bit(r.0, t) == rook_attack(source.index(), occupancy.0, t),
{
    SlideDirection::NorthSouth.slide(source, occupancy) | SlideDirection::EastWest.slide(source, occupancy)
}

/// The squares a bishop on `source` attacks.
pub fn bishop_moves(source: Square, occupancy: Bitboard) -> (r: Bitboard)
    ensures
        forall|t: int| #[trigger] bit(r.0, t) == bishop_attack(source.index(), occupancy.0, t),
{
    SlideDirection::Diagonal.slide(source, occupancy) | SlideDirection::AntiDiagonal.slide(source, occupancy)
}

/// The squares a piece of kind `piece_type` and side `player` on `source` attacks, with the
/// squares of `occupancy` occupied (whichever side stands there).
pub fn attacks(piece_type: PieceTypeV, source: Square, occupancy: Bitboard, player: PlayerV) -> (r: Bitboard)
    ensures
        forall|t: int| #[trigger] bit(r.0, t) == piece_attack(piece_type, player, source.index(), occupancy.0, t),
{
    match piece_type {
        PieceTypeV::King => king_moves(source),
        PieceTypeV::Queen => rook_moves(source, occupancy) | bishop_moves(source, occupancy),
        PieceTypeV::Rook => rook_moves(source, occupancy),
        PieceTypeV::Bishop => bishop_moves(source, occupancy),
        PieceTypeV::Knight => knight_moves(source),
        PieceTypeV::Pawn => pawn_attacks(player, source),
    }
}

/// The squares a king of `player` castles to: the `g` and `c` squares of its back rank, each
/// where its castling right is set and the squares between king and rook are empty.
pub fn castling_moves(occupancy: Bitboard, player: PlayerV, flags: BoardFlags) -> (r: Bitboard)
    ensures
        forall|t: int| #[trigger] bit(r.0, t) == castle_target(player, occupancy.0, flags.0, t),
{
    let mut movement = bitboards::empty();
    if flags.is_set(player.castle_kingside_flag()) && (player.castle_kingside_clear() & occupancy).is_empty() {
        movement.set(Square::new(File::G, player.back_rank()));
    }
    if flags.is_set(player.castle_queenside_flag()) && (player.castle_queenside_clear() & occupancy).is_empty() {
        movement.set(Square::new(File::C, player.back_rank()));
    }
    movement
}

} // verus!
