use vstd::prelude::*;

use crate::bitboard::Bitboard;
use crate::bits::{bit, group_bits, lemma_bits_ext};
use crate::moves::{Move, PlayedMove};
use crate::piece::{Piece, PieceTypeV};
use crate::piece_map::PieceMap;
use crate::player::{Player, PlayerV};
use crate::search::ttable::Key;
use crate::square::{File, Square, SquareMap, group_square};

verus! {

broadcast use {group_bits, group_square};

/// Castling rights, one bit each: `0b1000_0000` white kingside, `0b0100_0000` white queenside,
/// `0b0010_0000` black kingside, `0b0001_0000` black queenside. The low four bits say where the
/// side to move may take en passant: `0b0000_1000` is set after a pawn's two-square push, and
/// the three bits below it hold that pawn's file.
#[derive(Clone, Copy, PartialEq, Eq, Structural, Hash, Debug)]
pub struct BoardFlags(pub u8);

impl BoardFlags {
    pub fn new(x: u8) -> (r: BoardFlags)
        ensures
            r.0 == x,
    {
        BoardFlags(x)
    }

    /// Some bit of the mask is set.
    pub fn is_set(self, mask: u8) -> (r: bool)
        ensures
            r == (self.0 & mask != 0),
    {
        self.0 & mask != 0
    }

    pub fn set(&mut self, mask: u8)
        ensures
            final(self).0 == old(self).0 | mask,
    {
        self.0 = self.0 | mask;
    }

    pub fn unset(&mut self, mask: u8)
        ensures
            final(self).0 == old(self).0 & !mask,
    {
        self.0 = self.0 & !mask;
    }
}

impl Default for BoardFlags {
    /// Every castling right.
    fn default() -> (r: BoardFlags)
        ensures
            r.0 == 0b1111_0000,
    {
        BoardFlags(0b1111_0000)
    }
}

/// What a board stands for: the piece on each square (index 0 is a1), the side to move, and the
/// castling rights.
pub struct BoardState {
    pub pieces: Seq<Option<Piece>>,
    pub player: PlayerV,
    pub flags: u8,
}

/// The number of squares of `pieces` that hold `p`.
pub open spec fn count_piece(pieces: Seq<Option<Piece>>, p: Piece) -> nat
    decreases pieces.len(),
{
    if pieces.len() == 0 {
        0
    } else {
        count_piece(pieces.drop_last(), p) + if pieces.last() == Some(p) {
            1nat
        } else {
            0nat
        }
    }
}

/// The set of occupied squares among the first `n`, as a word with one bit per square.
pub open spec fn occ_upto(pieces: Seq<Option<Piece>>, n: nat) -> u64
    decreases n,
{
    if n == 0 {
        0u64
    } else {
        occ_upto(pieces, (n - 1) as nat) | (if pieces[n - 1] is Some {
            1u64 << ((n - 1) as u64)
        } else {
            0u64
        })
    }
}

/// The occupied squares of a placement, as a word with one bit per square.
pub open spec fn occ_word(pieces: Seq<Option<Piece>>) -> u64 {
    occ_upto(pieces, 64)
}

/// Bit `i` of `occ_upto(pieces, n)` is set where square `i`, one of the first `n`, is occupied.
pub proof fn lemma_occ_upto(pieces: Seq<Option<Piece>>, n: nat, i: int)
    requires
        n <= 64,
    ensures
        bit(occ_upto(pieces, n), i) == (0 <= i < n && pieces[i] is Some),
    decreases n,
{
    if n > 0 {
        lemma_occ_upto(pieces, (n - 1) as nat, i);
    }
}

/// The square holds a piece of side `c`.
pub open spec fn owned_by(x: Option<Piece>, c: PlayerV) -> bool {
    x matches Some(p) && p.player == c
}

pub open spec fn white_king() -> Piece {
    Piece { player: PlayerV::White, piece_type: PieceTypeV::King }
}

pub open spec fn black_king() -> Piece {
    Piece { player: PlayerV::Black, piece_type: PieceTypeV::King }
}

pub open spec fn white_rook() -> Piece {
    Piece { player: PlayerV::White, piece_type: PieceTypeV::Rook }
}

pub open spec fn black_rook() -> Piece {
    Piece { player: PlayerV::Black, piece_type: PieceTypeV::Rook }
}

/// Each castling right that is set has its king and rook on their starting squares.
pub open spec fn castle_ok(pieces: Seq<Option<Piece>>, flags: u8) -> bool {
    &&& flags & 0x80 != 0 ==> pieces[4] == Some(white_king()) && pieces[7] == Some(white_rook())
    &&& flags & 0x40 != 0 ==> pieces[4] == Some(white_king()) && pieces[0] == Some(white_rook())
    &&& flags & 0x20 != 0 ==> pieces[60] == Some(black_king()) && pieces[63] == Some(black_rook())
    &&& flags & 0x10 != 0 ==> pieces[60] == Some(black_king()) && pieces[56] == Some(black_rook())
}

/// The castling rights that a placement rules out: those whose king or rook is not on its
/// starting square.
pub open spec fn impossible_flags(pieces: Seq<Option<Piece>>) -> u8 {
    (if !(pieces[4] == Some(white_king()) && pieces[7] == Some(white_rook())) { 0x80u8 } else { 0u8 })
        | (if !(pieces[4] == Some(white_king()) && pieces[0] == Some(white_rook())) { 0x40u8 } else { 0u8 })
        | (if !(pieces[60] == Some(black_king()) && pieces[63] == Some(black_rook())) { 0x20u8 } else { 0u8 })
        | (if !(pieces[60] == Some(black_king()) && pieces[56] == Some(black_rook())) { 0x10u8 } else { 0u8 })
}

/// The castling rights that a move from or to `s` takes from `player`: both where `s` is the
/// king's starting square, one where it is a rook's.
pub open spec fn castle_flag_mask(player: PlayerV, s: Square) -> u8 {
    if s.rank_index() == player.back_rank_index() {
        if s.file_index() == 4 {
            player.spec_kingside_flag() | player.spec_queenside_flag()
        } else if s.file_index() == 7 {
            player.spec_kingside_flag()
        } else if s.file_index() == 0 {
            player.spec_queenside_flag()
        } else {
            0
        }
    } else {
        0
    }
}

/// A king's move from the `e` file to the `g` or `c` file: the board treats it as castling.
pub open spec fn is_castling(piece: Piece, m: Move) -> bool {
    &&& piece.piece_type == PieceTypeV::King
    &&& m.from.file_index() == 4
    &&& (m.to.file_index() == 6 || m.to.file_index() == 2)
}

pub open spec fn castling_kingside(m: Move) -> bool {
    m.to.file_index() == 6
}

/// Where the rook stands before castling: the `h` or `a` file of the king's rank.
pub open spec fn rook_from(m: Move) -> int {
    (if castling_kingside(m) { 7int } else { 0int }) + 8 * m.from.rank_index()
}

/// Where the rook stands after castling: the `f` or `d` file of the king's target rank.
pub open spec fn rook_to(m: Move) -> int {
    (if castling_kingside(m) { 5int } else { 3int }) + 8 * m.to.rank_index()
}

/// The piece a move puts on its target square.
pub open spec fn placed_piece(player: PlayerV, piece: Piece, m: Move) -> Piece {
    match m.promoting {
        Some(t) => Piece { player, piece_type: t },
        None => piece,
    }
}

/// The moves that `Board::make_move` accepts: the side to move has a piece on the source square
/// and none on the target square, and a castling king has its rook on the `h` or `a` file and an
/// empty `f` or `d` square.
pub open spec fn can_make(st: BoardState, m: Move) -> bool {
    &&& owned_by(st.pieces[m.from.index()], st.player)
    &&& !owned_by(st.pieces[m.to.index()], st.player)
    &&& is_castling(st.pieces[m.from.index()].unwrap(), m) ==> {
        &&& st.pieces[rook_from(m)] == Some(Piece { player: st.player, piece_type: PieceTypeV::Rook })
        &&& st.pieces[rook_to(m)] is None
    }
}

/// What `Board::make_move` does to what the board stands for.
pub open spec fn spec_make_move(st: BoardState, m: Move) -> BoardState {
    let player = st.player;
    let opp = player.spec_opponent();
    let piece = st.pieces[m.from.index()].unwrap();
    let placed = placed_piece(player, piece, m);
    let pieces0 = st.pieces.update(m.from.index(), None).update(m.to.index(), Some(placed));
    let pieces1 = if is_ep_capture(st, m) {
        pieces0.update(ep_victim(m), None)
    } else {
        pieces0
    };
    let flags1 = st.flags & !(castle_flag_mask(player, m.from) | castle_flag_mask(opp, m.to));
    let flags2 = ((flags1 & !castled_flag(player, piece, m)) & 0xf0u8) | ep_flags(piece, m);
    if is_castling(piece, m) {
        BoardState {
            pieces: pieces1.update(rook_from(m), None).update(
                rook_to(m),
                Some(Piece { player, piece_type: PieceTypeV::Rook }),
            ),
            player: opp,
            flags: flags2,
        }
    } else {
        BoardState { pieces: pieces1, player: opp, flags: flags2 }
    }
}

/// The square of the pawn a capture en passant takes: on the source square's rank and the
/// target square's file.
pub open spec fn ep_victim(m: Move) -> int {
    m.to.file_index() + 8 * m.from.rank_index()
}

/// The move takes en passant: a pawn of the side to move moves diagonally onto the square en
/// passant can be taken on, passing a pawn of the other side.
pub open spec fn is_ep_capture(st: BoardState, m: Move) -> bool {
    &&& st.pieces[m.from.index()] == Some(Piece { player: st.player, piece_type: PieceTypeV::Pawn })
    &&& m.to.index() == ep_target(st, st.player)
    &&& m.to.file_index() != m.from.file_index()
    &&& m.to.rank_index() != m.from.rank_index()
    &&& st.pieces[ep_victim(m)] == Some(Piece { player: st.player.spec_opponent(), piece_type: PieceTypeV::Pawn })
}

/// The castling right that castling uses up; none for another move.
pub open spec fn castled_flag(player: PlayerV, piece: Piece, m: Move) -> u8 {
    if is_castling(piece, m) {
        if castling_kingside(m) {
            player.spec_kingside_flag()
        } else {
            player.spec_queenside_flag()
        }
    } else {
        0u8
    }
}

/// A pawn's two-square push.
pub open spec fn is_double_push(piece: Piece, m: Move) -> bool {
    piece.piece_type == PieceTypeV::Pawn && (m.to.index() == m.from.index() + 16 || m.from.index() == m.to.index() + 16)
}

/// The en passant flags a move leaves (the low four bits): after a pawn's two-square push, bit 3
/// and the pawn's file; none after another move.
pub open spec fn ep_flags(piece: Piece, m: Move) -> u8 {
    if is_double_push(piece, m) {
        0x08u8 | (m.from.file_index() as u8)
    } else {
        0u8
    }
}

/// The square the side to move, `player`, can take en passant: the empty square that a pawn of
/// the other side passed over with a two-square push on the move before; -1 where there is none
/// (also for the side not to move).
pub open spec fn ep_target(st: BoardState, player: PlayerV) -> int {
    let t = (st.flags % 8) as int + 8 * (if player == PlayerV::White {
        5int
    } else {
        2int
    });
    if player == st.player && (st.flags / 8) % 2 == 1 && st.pieces[t] is None {
        t
    } else {
        -1
    }
}

/// What `Board::make_move` returns.
pub open spec fn spec_played_move(st: BoardState, m: Move) -> PlayedMove {
    PlayedMove {
        mov: m,
        capture: match st.pieces[m.to.index()] {
            Some(q) => Some(q.piece_type),
            None => None,
        },
        en_passant_capture: is_ep_capture(st, m),
        flags: BoardFlags(st.flags),
    }
}

/// The piece that `Board::unmake_move` puts back on the source square.
pub open spec fn unmade_piece(st: BoardState, pm: PlayedMove) -> Piece {
    let player = st.player.spec_opponent();
    if pm.mov.promoting is Some {
        Piece { player, piece_type: PieceTypeV::Pawn }
    } else {
        st.pieces[pm.mov.to.index()].unwrap()
    }
}

/// What `Board::unmake_move` does to what the board stands for.
pub open spec fn spec_unmake_move(st: BoardState, pm: PlayedMove) -> BoardState {
    let player = st.player.spec_opponent();
    let m = pm.mov;
    let piece = unmade_piece(st, pm);
    let captured = match pm.capture {
        Some(t) => Some(Piece { player: player.spec_opponent(), piece_type: t }),
        None => None,
    };
    let pieces1 = st.pieces.update(m.to.index(), captured).update(m.from.index(), Some(piece));
    let pieces2 = if is_castling(piece, m) {
        pieces1.update(rook_from(m), Some(Piece { player, piece_type: PieceTypeV::Rook })).update(
            rook_to(m),
            None,
        )
    } else {
        pieces1
    };
    let pieces3 = if pm.en_passant_capture {
        pieces2.update(ep_victim(m), Some(Piece { player: player.spec_opponent(), piece_type: PieceTypeV::Pawn }))
    } else {
        pieces2
    };
    BoardState { pieces: pieces3, player, flags: pm.flags.0 }
}

/// The played moves that `Board::unmake_move` accepts: the side that moved has the piece on the
/// target square (the promoted piece where the move promoted), the source square is empty, a
/// castled rook stands on the `f` or `d` square with its starting square empty, the square of a
/// pawn taken en passant is empty and the move was a pawn's diagonal one, and the castling rights
/// to restore fit the position they restore.
pub open spec fn can_unmake(st: BoardState, pm: PlayedMove) -> bool {
    let player = st.player.spec_opponent();
    let m = pm.mov;
    &&& owned_by(st.pieces[m.to.index()], player)
    &&& m.from != m.to
    &&& st.pieces[m.from.index()] is None
    &&& m.promoting matches Some(t) ==> st.pieces[m.to.index()] == Some(Piece { player, piece_type: t })
    &&& is_castling(unmade_piece(st, pm), m) ==> {
        &&& st.pieces[rook_to(m)] == Some(Piece { player, piece_type: PieceTypeV::Rook })
        &&& st.pieces[rook_from(m)] is None
    }
    &&& pm.en_passant_capture ==> {
        &&& unmade_piece(st, pm).piece_type == PieceTypeV::Pawn
        &&& m.to.file_index() != m.from.file_index()
        &&& m.to.rank_index() != m.from.rank_index()
        &&& st.pieces[ep_victim(m)] is None
    }
    &&& castle_ok(spec_unmake_move(st, pm).pieces, pm.flags.0)
}

/// Represents a game in progress.
#[derive(Clone, Copy, PartialEq, Eq, Hash, Debug)]
pub struct Board {
    /// Bitboards for every piece
    bitboards: PieceMap<Bitboard>,
    /// The player whose turn it is
    player: PlayerV,
    /// Square-wise representation: what piece is on each square
    pieces: SquareMap<Option<Piece>>,
    /// Count for each piece
    piece_count: PieceMap<u8>,
    /// Occupancy for white and black
    occupancy_player: [Bitboard; 2],
    /// Occupancy for all pieces
    occupancy: Bitboard,
    /// Castling rights
    flags: BoardFlags,
}

impl View for Board {
    type V = BoardState;

    closed spec fn view(&self) -> BoardState {
        BoardState { pieces: self.pieces@, player: self.player, flags: self.flags.0 }
    }
}

impl Board {
    /// The redundant parts of the board agree with the piece on each square, and each castling
    /// right has its king and rook in place.
    pub closed spec fn wf(&self) -> bool {
        &&& self.placement_ok()
        &&& castle_ok(self.pieces@, self.flags.0)
    }

    /// The bitboards, occupancies and counts agree with the piece on each square.
    closed spec fn placement_ok(&self) -> bool {
        &&& self.pieces@.len() == 64
        &&& self.bitboards@.len() == 12
        &&& self.piece_count@.len() == 12
        &&& forall|p: Piece, i: int| #[trigger] bit(self.bitboards@[p.index()].0, i)
            == (0 <= i < 64 && self.pieces@[i] == Some(p))
        &&& forall|i: int| #[trigger] bit(self.occupancy.0, i) == (0 <= i < 64 && self.pieces@[i] is Some)
        &&& forall|c: PlayerV, i: int| #[trigger] bit(self.occupancy_player@[c.index()].0, i)
            == (0 <= i < 64 && owned_by(self.pieces@[i], c))
        &&& forall|p: Piece| #[trigger] self.piece_count@[p.index()] == count_piece(self.pieces@, p)
    }

    /// Creates a board from the pieces on each rank (rank 1 first, each rank from file a to h),
    /// the side to move and the castling rights, dropping each castling right whose king or rook
    /// is not on its starting square.
    pub fn new(pieces: [[Option<Piece>; 8]; 8], player: impl Player, flags: BoardFlags) -> (r: Board)
        ensures
            r.wf(),
            forall|i: int| 0 <= i < 64 ==> #[trigger] r@.pieces[i] == pieces@[i / 8]@[i % 8],
            r@.pieces.len() == 64,
            r@.player == player.spec_value(),
            r@.flags == flags.0 & !impossible_flags(r@.pieces),
    {
        let mut squares: [Option<Piece>; 64] = [None; 64];
        let mut i: usize = 0;
        while i < 64
            invariant
                i <= 64,
                forall|j: int| 0 <= j < i ==> #[trigger] squares@[j] == pieces@[j / 8]@[j % 8],
            decreases 64 - i,
        {
            squares[i] = pieces[i / 8][i % 8];
            i = i + 1;
        }
        let pieces = SquareMap::new(squares);
        let wk = Piece::new(PlayerV::White, PieceTypeV::King);
        let wr = Piece::new(PlayerV::White, PieceTypeV::Rook);
        let bk = Piece::new(PlayerV::Black, PieceTypeV::King);
        let br = Piece::new(PlayerV::Black, PieceTypeV::Rook);
        // Remove any impossible castling options
        let white_kingside = if !holds(pieces.get(Square::E1), wk) || !holds(pieces.get(Square::H1), wr) {
            PlayerV::White.castle_kingside_flag()
        } else {
            0
        };
        let white_queenside = if !holds(pieces.get(Square::E1), wk) || !holds(pieces.get(Square::A1), wr) {
            PlayerV::White.castle_queenside_flag()
        } else {
            0
        };
        let black_kingside = if !holds(pieces.get(Square::E8), bk) || !holds(pieces.get(Square::H8), br) {
            PlayerV::Black.castle_kingside_flag()
        } else {
            0
        };
        let black_queenside = if !holds(pieces.get(Square::E8), bk) || !holds(pieces.get(Square::A8), br) {
            PlayerV::Black.castle_queenside_flag()
        } else {
            0
        };
        let unset_flags = white_kingside | white_queenside | black_kingside | black_queenside;
        let ghost f0 = flags.0;
        let mut flags = flags;
        flags.unset(unset_flags);
        proof {
            let p = pieces@;
            let a: bool = p[4] == Some(white_king()) && p[7] == Some(white_rook());
            let b: bool = p[4] == Some(white_king()) && p[0] == Some(white_rook());
            let c: bool = p[60] == Some(black_king()) && p[63] == Some(black_rook());
            let d: bool = p[60] == Some(black_king()) && p[56] == Some(black_rook());
            lemma_unset_flags(f0, unset_flags, a, b, c, d);
        }
        Self::with_states(pieces, player.value(), flags)
    }

    /// The key of the position (see `key`).
    pub closed spec fn spec_key(&self) -> Key {
        Key { pieces: self.bitboards, players: self.occupancy_player, player: self.player, flags: self.flags }
    }

    /// Whether the board is well formed. Every board that the library builds is.
    pub fn is_wf(&self) -> (r: bool)
        ensures
            r == self.wf(),
    {
        proof {
            broadcast use vstd::array::group_array_axioms;
        }
        let pieces = self.pieces;
        let f = self.flags.0;
        let wk = Piece::new(PlayerV::White, PieceTypeV::King);
        let wr = Piece::new(PlayerV::White, PieceTypeV::Rook);
        let bk = Piece::new(PlayerV::Black, PieceTypeV::King);
        let br = Piece::new(PlayerV::Black, PieceTypeV::Rook);
        let white_king_home = holds(pieces.get(Square::E1), wk);
        let black_king_home = holds(pieces.get(Square::E8), bk);
        if (f & 0x80 != 0 && !(white_king_home && holds(pieces.get(Square::H1), wr))) || (f & 0x40
            != 0 && !(white_king_home && holds(pieces.get(Square::A1), wr))) || (f & 0x20 != 0
            && !(black_king_home && holds(pieces.get(Square::H8), br))) || (f & 0x10 != 0
            && !(black_king_home && holds(pieces.get(Square::A8), br))) {
            return false;
        }
        proof {
            pieces.lemma_len();
        }
        let rebuilt = Self::with_states(pieces, self.player, self.flags);
        let mut k: usize = 0;
        while k < 12
            invariant
                k <= 12,
                rebuilt.wf(),
                rebuilt@ == self@,
                forall|j: int| 0 <= j < k ==> #[trigger] self.bitboards.0@[j] == rebuilt.bitboards.0@[j],
                forall|j: int| 0 <= j < k ==> #[trigger] self.piece_count.0@[j] == rebuilt.piece_count.0@[j],
            decreases 12 - k,
        {
            if self.bitboards.0[k].0 != rebuilt.bitboards.0[k].0 || self.piece_count.0[k]
                != rebuilt.piece_count.0[k] {
                proof {
                    if self.wf() {
                        lemma_view_determines_board(*self, rebuilt);
                    }
                }
                return false;
            }
            k = k + 1;
        }
        if self.occupancy_player[0].0 != rebuilt.occupancy_player[0].0 || self.occupancy_player[1].0
            != rebuilt.occupancy_player[1].0 || self.occupancy.0 != rebuilt.occupancy.0 {
            proof {
                if self.wf() {
                    lemma_view_determines_board(*self, rebuilt);
                }
            }
            return false;
        }
        proof {
            assert(self.bitboards.0 =~= rebuilt.bitboards.0);
            assert(self.piece_count.0 =~= rebuilt.piece_count.0);
            assert(self.occupancy_player =~= rebuilt.occupancy_player);
            SquareMap::lemma_ext(self.pieces, rebuilt.pieces);
            assert(*self == rebuilt);
        }
        true
    }

    /// A well-formed board has a piece or none on each of its 64 squares.
    pub proof fn lemma_wf_len(&self)
        requires
            self.wf(),
        ensures
            self@.pieces.len() == 64,
            castle_ok(self@.pieces, self@.flags),
    {
    }

    /// What the position is looked up by in the transposition table: the squares of each piece
    /// and of each side, the side to move and the castling rights.
    pub fn key(&self) -> (r: Key)
        requires
            self.wf(),
        ensures
            r == self.spec_key(),
            r.player == self@.player,
            r.flags.0 == self@.flags,
            forall|p: Piece, i: int| #[trigger] bit(r.pieces@[p.index()].0, i) == (0 <= i < 64 && self@.pieces[i] == Some(p)),
            forall|c: PlayerV, i: int| #[trigger] bit(r.players@[c.index()].0, i) == (0 <= i < 64 && owned_by(self@.pieces[i], c)),
    {
        Key { pieces: self.bitboards, players: self.occupancy_player, player: self.player, flags: self.flags }
    }

    /// The piece on a square.
    pub fn get(&self, square: Square) -> (r: Option<Piece>)
        ensures
            r == self@.pieces[square.index()],
    {
        self.pieces.get(square)
    }

    /// The side to move.
    pub fn player(&self) -> (r: PlayerV)
        ensures
            r == self@.player,
    {
        self.player
    }

    /// The piece on each square.
    pub fn pieces(&self) -> (r: &SquareMap<Option<Piece>>)
        ensures
            r@ == self@.pieces,
    {
        &self.pieces
    }

    /// The squares of every piece.
    pub fn bitboards(&self) -> (r: &PieceMap<Bitboard>)
        requires
            self.wf(),
        ensures
            forall|p: Piece, i: int| #[trigger] bit(r@[p.index()].0, i) == (0 <= i < 64 && self@.pieces[i] == Some(p)),
    {
        &self.bitboards
    }

    /// The squares that hold the piece.
    pub fn bitboard_piece(&self, piece: Piece) -> (r: Bitboard)
        requires
            self.wf(),
        ensures
            forall|i: int| #[trigger] bit(r.0, i) == (0 <= i < 64 && self@.pieces[i] == Some(piece)),
    {
        self.bitboards.get(piece)
    }

    /// The squares that hold a piece.
    pub fn occupancy(&self) -> (r: Bitboard)
        requires
            self.wf(),
        ensures
            forall|i: int| #[trigger] bit(r.0, i) == (0 <= i < 64 && self@.pieces[i] is Some),
            r.0 == occ_word(self@.pieces),
    {
        proof {
            assert forall|i: int| 0 <= i < 64 implies #[trigger] bit(self.occupancy.0, i) == bit(occ_word(self@.pieces), i) by {
                lemma_occ_upto(self@.pieces, 64, i);
            }
            lemma_bits_ext(self.occupancy.0, occ_word(self@.pieces));
        }
        self.occupancy
    }

    /// The squares that hold a piece of the side.
    pub fn occupancy_player(&self, player: impl Player) -> (r: Bitboard)
        requires
            self.wf(),
        ensures
            forall|i: int| #[trigger] bit(r.0, i) == (0 <= i < 64 && owned_by(self@.pieces[i], player.spec_value())),
    {
        let c = player.value();
        let r = self.occupancy_player[c.to_index()];
        assert(r == self.occupancy_player@[c.index()]);
        r
    }

    /// The castling rights.
    pub fn flags(&self) -> (r: BoardFlags)
        ensures
            r.0 == self@.flags,
    {
        self.flags
    }

    /// The number of squares that hold the piece.
    pub fn count(&self, piece: Piece) -> (r: i32)
        requires
            self.wf(),
        ensures
            r == count_piece(self@.pieces, piece),
            0 <= r <= 64,
    {
        proof {
            lemma_count_piece_bound(self@.pieces, piece);
        }
        self.piece_count.get(piece) as i32
    }

    /// Plays a move: moves the piece (putting the promoted piece on the target square where the
    /// move promotes), removes what it captures (the passed pawn where it takes en passant), moves
    /// the rook where a king castles, takes away the castling rights that the move ends, notes
    /// the file of a pawn's two-square push for taking en passant on the next move, and passes
    /// the turn.
    pub fn make_move(&mut self, mov: Move) -> (r: PlayedMove)
        requires
            old(self).wf(),
            can_make(old(self)@, mov),
        ensures
            final(self).wf(),
            final(self)@ == spec_make_move(old(self)@, mov),
            r == spec_played_move(old(self)@, mov),
    {
        let ghost st = self@;
        let prev_flags = self.flags;
        let player = self.player;
        let opp = player.opponent();
        let from = mov.from();
        let to = mov.to();
        let piece = self.pieces.get(from).unwrap();
        let victim = Square::new(to.file(), from.rank());
        let ep_capture = self.takes_en_passant(mov);

        let captured_piece_type = match self.pieces.get(to) {
            Some(captured_piece) => {
                self.remove_piece(to);
                Some(captured_piece.piece_type())
            },
            None => None,
        };
        self.remove_piece(from);
        let placed = match mov.promoting() {
            Some(promotion_type) => Piece::new(player, promotion_type),
            None => piece,
        };
        self.put_piece(to, placed);
        let ghost p0 = st.pieces.update(from.index(), None).update(to.index(), Some(placed));
        assert(self.pieces@ =~= p0);
        if ep_capture {
            self.remove_piece(victim);
        }
        let ghost p1 = if is_ep_capture(st, mov) {
            p0.update(ep_victim(mov), None)
        } else {
            p0
        };
        assert(self.pieces@ =~= p1);

        let unset_flags = castle_flags(player, from) | castle_flags(opp, to);
        self.flags.unset(unset_flags);
        let mut castled: u8 = 0;

        if piece.piece_type() == PieceTypeV::King && from.file() == File::E {
            let kingside_castling = to.file() == File::KINGSIDE;
            let queenside_castling = to.file() == File::QUEENSIDE;

            if kingside_castling || queenside_castling {
                let (rook_from_file, rook_to_file, flag) = if kingside_castling {
                    (File::H, File::F, player.castle_kingside_flag())
                } else {
                    (File::A, File::D, player.castle_queenside_flag())
                };
                castled = flag;

                let rook_from = Square::new(rook_from_file, from.rank());
                let rook_to = Square::new(rook_to_file, to.rank());
                let rook = Piece::new(player, PieceTypeV::Rook);
                self.remove_piece(rook_from);
                self.put_piece(rook_to, rook);
            }
        }

        self.flags.unset(castled);
        let fi = from.to_index();
        let ti = to.to_index();
        let ep: u8 = if piece.piece_type() == PieceTypeV::Pawn && ((fi < 48 && ti == fi + 16) || (ti < 48 && fi == ti + 16)) {
            0x08u8 | from.file().to_index()
        } else {
            0u8
        };
        self.flags = BoardFlags((self.flags.0 & 0xf0u8) | ep);

        self.player = opp;
        proof {
            lemma_castle_after_make(st, mov);
            assert(self@ =~= spec_make_move(st, mov));
        }
        PlayedMove::new(mov, captured_piece_type, ep_capture, prev_flags)
    }

    /// Takes back a move that `make_move` played, given what it returned: puts the piece back
    /// (a pawn where the move promoted), restores what it captured, puts back a castled rook,
    /// restores the castling rights and gives the turn back.
    pub fn unmake_move(&mut self, pmov: PlayedMove)
        requires
            old(self).wf(),
            can_unmake(old(self)@, pmov),
        ensures
            final(self).wf(),
            final(self)@ == spec_unmake_move(old(self)@, pmov),
    {
        let ghost st = self@;
        let mov = pmov.mov;
        let player = self.player.opponent();
        let from = mov.from();
        let to = mov.to();

        let piece = if mov.promoting().is_some() {
            Piece::new(player, PieceTypeV::Pawn)
        } else {
            self.pieces.get(to).unwrap()
        };

        self.remove_piece(to);
        match pmov.capture {
            Some(captured_piece_type) => {
                let captured_piece = Piece::new(player.opponent(), captured_piece_type);
                self.put_piece(to, captured_piece);
            },
            None => {},
        }
        self.put_piece(from, piece);
        self.player = player;

        if piece.piece_type() == PieceTypeV::King && from.file() == File::E {
            let kingside_castling = to.file() == File::KINGSIDE;
            let queenside_castling = to.file() == File::QUEENSIDE;

            if kingside_castling || queenside_castling {
                let (rook_from_file, rook_to_file) = if kingside_castling {
                    (File::H, File::F)
                } else {
                    (File::A, File::D)
                };
                let rook_from = Square::new(rook_from_file, from.rank());
                let rook_to = Square::new(rook_to_file, to.rank());
                let rook = Piece::new(player, PieceTypeV::Rook);
                self.remove_piece(rook_to);
                self.put_piece(rook_from, rook);
            }
        }
        if pmov.en_passant_capture {
            let victim = Square::new(to.file(), from.rank());
            self.put_piece(victim, Piece::new(player.opponent(), PieceTypeV::Pawn));
        }
        self.flags = pmov.flags;
        proof {
            let n = spec_unmake_move(st, pmov);
            assert(self.pieces@ =~= n.pieces);
            assert(self.player == n.player);
            assert(self.flags.0 == n.flags);
            assert(self@ =~= spec_unmake_move(st, pmov));
        }
    }

    /// Whether the move takes en passant (see `is_ep_capture`).
    pub fn takes_en_passant(&self, mov: Move) -> (r: bool)
        requires
            self.wf(),
        ensures
            r == is_ep_capture(self@, mov),
    {
        let from = mov.from();
        let to = mov.to();
        let pawn = Piece::new(self.player, PieceTypeV::Pawn);
        if !holds(self.get(from), pawn) || from.file().to_index() == to.file().to_index()
            || from.rank().to_index() == to.rank().to_index() {
            return false;
        }
        let f = self.flags.0;
        if (f / 8) % 2 != 1 {
            return false;
        }
        let rank: u8 = if self.player == PlayerV::White {
            5
        } else {
            2
        };
        let target = Square::from_index(f % 8 + 8 * rank);
        if target.to_index() != to.to_index() || self.get(target).is_some() {
            return false;
        }
        let victim = Square::new(to.file(), from.rank());
        holds(self.get(victim), Piece::new(self.player.opponent(), PieceTypeV::Pawn))
    }

    /// Empties an occupied square, keeping the redundant parts in step.
    fn remove_piece(&mut self, square: Square)
        requires
            old(self).placement_ok(),
            old(self).pieces@[square.index()] is Some,
        ensures
            final(self).placement_ok(),
            final(self).pieces@ == old(self).pieces@.update(square.index(), None),
            final(self).player == old(self).player,
            final(self).flags == old(self).flags,
    {
        let ghost old_pieces = self.pieces@;
        let piece = self.pieces.get(square).unwrap();
        let mut bb = self.bitboards.get(piece);
        bb.reset(square);
        self.bitboards.set(piece, bb);
        self.occupancy.reset(square);
        let c = piece.player().to_index();
        let mut occ = self.occupancy_player[c];
        occ.reset(square);
        self.occupancy_player[c] = occ;
        let n = self.piece_count.get(piece);
        proof {
            lemma_count_piece_update(old_pieces, square.index(), None, piece);
        }
        self.piece_count.set(piece, n - 1);
        self.pieces.set(square, None);
        proof {
            let p1 = old_pieces.update(square.index(), None);
            assert forall|p: Piece, i: int| #[trigger] bit(self.bitboards@[p.index()].0, i)
                == (0 <= i < 64 && p1[i] == Some(p)) by {
                lemma_piece_index(p);
                lemma_piece_index(piece);
            }
            assert forall|p: Piece| #[trigger] self.piece_count@[p.index()] == count_piece(p1, p) by {
                lemma_piece_index(p);
                lemma_piece_index(piece);
                lemma_count_piece_update(old_pieces, square.index(), None, p);
            }
            assert forall|d: PlayerV, i: int| #[trigger] bit(self.occupancy_player@[d.index()].0, i)
                == (0 <= i < 64 && owned_by(p1[i], d)) by {
            }
            assert forall|i: int| #[trigger] bit(self.occupancy.0, i) == (0 <= i < 64 && p1[i] is Some) by {
            }
        }
    }

    /// Puts a piece on an empty square, keeping the redundant parts in step.
    fn put_piece(&mut self, square: Square, piece: Piece)
        requires
            old(self).placement_ok(),
            old(self).pieces@[square.index()] is None,
        ensures
            final(self).placement_ok(),
            final(self).pieces@ == old(self).pieces@.update(square.index(), Some(piece)),
            final(self).player == old(self).player,
            final(self).flags == old(self).flags,
    {
        let ghost old_pieces = self.pieces@;
        let mut bb = self.bitboards.get(piece);
        bb.set(square);
        self.bitboards.set(piece, bb);
        self.occupancy.set(square);
        let c = piece.player().to_index();
        let mut occ = self.occupancy_player[c];
        occ.set(square);
        self.occupancy_player[c] = occ;
        let n = self.piece_count.get(piece);
        proof {
            lemma_count_piece_bound(old_pieces, piece);
        }
        self.piece_count.set(piece, n + 1);
        self.pieces.set(square, Some(piece));
        proof {
            let p1 = old_pieces.update(square.index(), Some(piece));
            assert forall|p: Piece, i: int| #[trigger] bit(self.bitboards@[p.index()].0, i)
                == (0 <= i < 64 && p1[i] == Some(p)) by {
                lemma_piece_index(p);
                lemma_piece_index(piece);
            }
            assert forall|p: Piece| #[trigger] self.piece_count@[p.index()] == count_piece(p1, p) by {
                lemma_piece_index(p);
                lemma_piece_index(piece);
                lemma_count_piece_update(old_pieces, square.index(), Some(piece), p);
            }
            assert forall|d: PlayerV, i: int| #[trigger] bit(self.occupancy_player@[d.index()].0, i)
                == (0 <= i < 64 && owned_by(p1[i], d)) by {
            }
            assert forall|i: int| #[trigger] bit(self.occupancy.0, i) == (0 <= i < 64 && p1[i] is Some) by {
            }
        }
    }

    /// Builds the redundant parts of a board from the piece on each square.
    fn with_states(pieces: SquareMap<Option<Piece>>, player: PlayerV, flags: BoardFlags) -> (r: Board)
        requires
            pieces@.len() == 64,
            castle_ok(pieces@, flags.0),
        ensures
            r.wf(),
            r@ == (BoardState { pieces: pieces@, player, flags: flags.0 }),
    {
        let mut bitboards = PieceMap::filled(Bitboard::new(0));
        let mut piece_count = PieceMap::filled(0u8);
        let mut i: u8 = 0;
        while i < 64
            invariant
                i <= 64,
                pieces@.len() == 64,
                bitboards@.len() == 12,
                piece_count@.len() == 12,
                forall|p: Piece, j: int| #[trigger] bit(bitboards@[p.index()].0, j)
                    == (0 <= j < i && pieces@[j] == Some(p)),
                forall|p: Piece| #[trigger] piece_count@[p.index()] == count_piece(pieces@.take(i as int), p),
            decreases 64 - i,
        {
            let square = Square::from_index(i);
            let ghost counts0 = piece_count@;
            match pieces.get(square) {
                Some(piece) => {
                    let mut bb = bitboards.get(piece);
                    bb.set(square);
                    bitboards.set(piece, bb);
                    proof {
                        lemma_count_piece_bound(pieces@.take(i as int), piece);
                    }
                    let c = piece_count.get(piece);
                    piece_count.set(piece, c + 1);
                },
                None => {},
            }
            proof {
                assert(pieces@.take(i + 1).drop_last() =~= pieces@.take(i as int));
                assert forall|p: Piece| #[trigger] piece_count@[p.index()] == count_piece(pieces@.take(i + 1), p) by {
                    lemma_piece_index(p);
                }
                assert forall|p: Piece, j: int| #[trigger] bit(bitboards@[p.index()].0, j)
                    == (0 <= j < i + 1 && pieces@[j] == Some(p)) by {
                    lemma_piece_index(p);
                }
            }
            i = i + 1;
        }
        assert(pieces@.take(64) =~= pieces@);
        let mut occupancy_player = [Bitboard::new(0), Bitboard::new(0)];
        let white = bitboards.for_player(PlayerV::White);
        let black = bitboards.for_player(PlayerV::Black);
        occupancy_player[0] = white[0] | white[1] | white[2] | white[3] | white[4] | white[5];
        occupancy_player[1] = black[0] | black[1] | black[2] | black[3] | black[4] | black[5];
        let occupancy = occupancy_player[0] | occupancy_player[1];
        let r = Board {
            bitboards,
            player,
            pieces,
            piece_count,
            occupancy_player,
            occupancy,
            flags,
        };
        proof {
            assert forall|c: PlayerV, j: int| #[trigger] bit(r.occupancy_player@[c.index()].0, j)
                == (0 <= j < 64 && owned_by(r.pieces@[j], c)) by {
                let w = Piece::at(c.index() * 6 + 0);
                lemma_pieces_of_player(c, j, r.pieces@);
                assert(bit(bitboards@[Piece { player: c, piece_type: PieceTypeV::King }.index()].0, j)
                    == (0 <= j < 64 && pieces@[j] == Some(Piece { player: c, piece_type: PieceTypeV::King })));
                assert(bit(bitboards@[Piece { player: c, piece_type: PieceTypeV::Queen }.index()].0, j)
                    == (0 <= j < 64 && pieces@[j] == Some(Piece { player: c, piece_type: PieceTypeV::Queen })));
                assert(bit(bitboards@[Piece { player: c, piece_type: PieceTypeV::Rook }.index()].0, j)
                    == (0 <= j < 64 && pieces@[j] == Some(Piece { player: c, piece_type: PieceTypeV::Rook })));
                assert(bit(bitboards@[Piece { player: c, piece_type: PieceTypeV::Bishop }.index()].0, j)
                    == (0 <= j < 64 && pieces@[j] == Some(Piece { player: c, piece_type: PieceTypeV::Bishop })));
                assert(bit(bitboards@[Piece { player: c, piece_type: PieceTypeV::Knight }.index()].0, j)
                    == (0 <= j < 64 && pieces@[j] == Some(Piece { player: c, piece_type: PieceTypeV::Knight })));
                assert(bit(bitboards@[Piece { player: c, piece_type: PieceTypeV::Pawn }.index()].0, j)
                    == (0 <= j < 64 && pieces@[j] == Some(Piece { player: c, piece_type: PieceTypeV::Pawn })));
            }
            assert forall|j: int| #[trigger] bit(r.occupancy.0, j) == (0 <= j < 64 && r.pieces@[j] is Some) by {
                assert(bit(r.occupancy_player@[PlayerV::White.index()].0, j) == (0 <= j < 64 && owned_by(r.pieces@[j], PlayerV::White)));
                assert(bit(r.occupancy_player@[PlayerV::Black.index()].0, j) == (0 <= j < 64 && owned_by(r.pieces@[j], PlayerV::Black)));
            }
        }
        r
    }
}

/// The piece on square `i` at the start of a game.
pub open spec fn start_piece(i: int) -> Option<Piece> {
    let back = |player: PlayerV, f: int|
        Piece {
            player,
            piece_type: if f == 0 || f == 7 {
                PieceTypeV::Rook
            } else if f == 1 || f == 6 {
                PieceTypeV::Knight
            } else if f == 2 || f == 5 {
                PieceTypeV::Bishop
            } else if f == 3 {
                PieceTypeV::Queen
            } else {
                PieceTypeV::King
            },
        };
    if i / 8 == 0 {
        Some(back(PlayerV::White, i % 8))
    } else if i / 8 == 1 {
        Some(Piece { player: PlayerV::White, piece_type: PieceTypeV::Pawn })
    } else if i / 8 == 6 {
        Some(Piece { player: PlayerV::Black, piece_type: PieceTypeV::Pawn })
    } else if i / 8 == 7 {
        Some(back(PlayerV::Black, i % 8))
    } else {
        None
    }
}

/// The score of a position for the side to move, in hundredths of a pawn: material only, a
/// king 200, a queen 9, a rook 5, a bishop or knight 3 and a pawn 1, own pieces counting for
/// and the other side's against.
pub open spec fn spec_eval(st: BoardState) -> int {
    let c = |t: PieceTypeV|
        count_piece(st.pieces, Piece { player: PlayerV::White, piece_type: t }) - count_piece(
            st.pieces,
            Piece { player: PlayerV::Black, piece_type: t },
        );
    let white_centric = 200 * c(PieceTypeV::King) + 9 * c(PieceTypeV::Queen) + 5 * c(PieceTypeV::Rook) + 3 * c(
        PieceTypeV::Bishop,
    ) + 3 * c(PieceTypeV::Knight) + c(PieceTypeV::Pawn);
    white_centric * st.player.spec_multiplier() * 100
}

impl Board {
    /// The material score of the position for the side to move (see `spec_eval`).
    pub fn eval(&self) -> (r: i32)
        requires
            self.wf(),
        ensures
            r == spec_eval(self@),
            -1414400 <= r <= 1414400,
    {
        let wk = self.count(Piece::new(PlayerV::White, PieceTypeV::King));
        let bk = self.count(Piece::new(PlayerV::Black, PieceTypeV::King));
        let wq = self.count(Piece::new(PlayerV::White, PieceTypeV::Queen));
        let bq = self.count(Piece::new(PlayerV::Black, PieceTypeV::Queen));
        let wr = self.count(Piece::new(PlayerV::White, PieceTypeV::Rook));
        let br = self.count(Piece::new(PlayerV::Black, PieceTypeV::Rook));
        let wb = self.count(Piece::new(PlayerV::White, PieceTypeV::Bishop));
        let bb = self.count(Piece::new(PlayerV::Black, PieceTypeV::Bishop));
        let wn = self.count(Piece::new(PlayerV::White, PieceTypeV::Knight));
        let bn = self.count(Piece::new(PlayerV::Black, PieceTypeV::Knight));
        let wp = self.count(Piece::new(PlayerV::White, PieceTypeV::Pawn));
        let bp = self.count(Piece::new(PlayerV::Black, PieceTypeV::Pawn));
        let white_centric_score = 200 * (wk - bk) + 9 * (wq - bq) + 5 * (wr - br) + 3 * (wb - bb) + 3 * (wn - bn) + (wp - bp);
        let multiplier = self.player.multiplier() as i32;
        assert(-14144 <= white_centric_score * multiplier <= 14144) by (nonlinear_arith)
            requires
                -14144 <= white_centric_score <= 14144,
                multiplier == 1 || multiplier == -1,
        ;
        white_centric_score * multiplier * 100
    }
}

impl Default for Board {
    /// The position at the start of a game: white to move, every castling right.
    fn default() -> (r: Board)
        ensures
            r.wf(),
            forall|i: int| 0 <= i < 64 ==> #[trigger] r@.pieces[i] == start_piece(i),
            r@.player == PlayerV::White,
            r@.flags == 0xf0,
    {
        let wk = Some(Piece::new(PlayerV::White, PieceTypeV::King));
        let wq = Some(Piece::new(PlayerV::White, PieceTypeV::Queen));
        let wr = Some(Piece::new(PlayerV::White, PieceTypeV::Rook));
        let wb = Some(Piece::new(PlayerV::White, PieceTypeV::Bishop));
        let wn = Some(Piece::new(PlayerV::White, PieceTypeV::Knight));
        let wp = Some(Piece::new(PlayerV::White, PieceTypeV::Pawn));
        let bk = Some(Piece::new(PlayerV::Black, PieceTypeV::King));
        let bq = Some(Piece::new(PlayerV::Black, PieceTypeV::Queen));
        let br = Some(Piece::new(PlayerV::Black, PieceTypeV::Rook));
        let bb = Some(Piece::new(PlayerV::Black, PieceTypeV::Bishop));
        let bn = Some(Piece::new(PlayerV::Black, PieceTypeV::Knight));
        let bp = Some(Piece::new(PlayerV::Black, PieceTypeV::Pawn));
        let e: Option<Piece> = None;
        let pieces = [
            [wr, wn, wb, wq, wk, wb, wn, wr],
            [wp, wp, wp, wp, wp, wp, wp, wp],
            [e, e, e, e, e, e, e, e],
            [e, e, e, e, e, e, e, e],
            [e, e, e, e, e, e, e, e],
            [e, e, e, e, e, e, e, e],
            [bp, bp, bp, bp, bp, bp, bp, bp],
            [br, bn, bb, bq, bk, bb, bn, br],
        ];
        let r = Board::new(pieces, PlayerV::White, BoardFlags::default());
        proof {
            assert forall|i: int| 0 <= i < 64 implies #[trigger] r@.pieces[i] == start_piece(i) by {
                assert(r@.pieces[i] == pieces@[i / 8]@[i % 8]);
            }
            assert(impossible_flags(r@.pieces) == 0) by {
                assert(r@.pieces[4] == start_piece(4));
                assert(r@.pieces[0] == start_piece(0));
                assert(r@.pieces[7] == start_piece(7));
                assert(r@.pieces[60] == start_piece(60));
                assert(r@.pieces[56] == start_piece(56));
                assert(r@.pieces[63] == start_piece(63));
                assert((0u8 | 0u8 | 0u8 | 0u8) == 0u8) by (bit_vector);
            }
            assert(0xf0u8 & !0u8 == 0xf0u8) by (bit_vector);
        }
        r
    }
}

/// Taking back a move restores the position: on a well-formed board, for a move that
/// `Board::make_move` accepts and that promotes only a pawn, `Board::unmake_move` accepts what
/// `make_move` returned, and gives back the position before the move.
pub proof fn law_unmake_undoes_make(b: Board, m: Move)
    requires
        b.wf(),
        can_make(b@, m),
        m.promoting is Some ==> b@.pieces[m.from.index()] == Some(
            Piece { player: b@.player, piece_type: PieceTypeV::Pawn },
        ),
    ensures
        can_unmake(spec_make_move(b@, m), spec_played_move(b@, m)),
        spec_unmake_move(spec_make_move(b@, m), spec_played_move(b@, m)) == b@,
{
    lemma_unmake_undoes_make(b@, m);
}

/// `law_unmake_undoes_make`, for any position with 64 squares whose castling rights have
/// their kings and rooks in place.
pub proof fn lemma_unmake_undoes_make(st: BoardState, m: Move)
    requires
        st.pieces.len() == 64,
        castle_ok(st.pieces, st.flags),
        can_make(st, m),
        m.promoting is Some ==> st.pieces[m.from.index()] == Some(
            Piece { player: st.player, piece_type: PieceTypeV::Pawn },
        ),
    ensures
        can_unmake(spec_make_move(st, m), spec_played_move(st, m)),
        spec_unmake_move(spec_make_move(st, m), spec_played_move(st, m)) == st,
        spec_make_move(st, m).pieces.len() == 64,
        castle_ok(spec_make_move(st, m).pieces, spec_make_move(st, m).flags),
{
    let n = spec_make_move(st, m);
    let pm = spec_played_move(st, m);
    let back = spec_unmake_move(n, pm);
    assert(back.pieces =~= st.pieces);
    assert(back == st);
    lemma_castle_after_make(st, m);
}

/// Two well-formed boards that stand for the same position are the same board: the bitboards,
/// occupancies and counts follow from the piece on each square.
pub proof fn lemma_view_determines_board(a: Board, b: Board)
    requires
        a.wf(),
        b.wf(),
        a@ == b@,
    ensures
        a == b,
{
    broadcast use vstd::array::group_array_axioms;
    SquareMap::lemma_ext(a.pieces, b.pieces);
    assert forall|k: int| 0 <= k < 12 implies a.bitboards@[k] == b.bitboards@[k] by {
        let p = Piece::at(k);
        assert(p.index() == k);
        assert forall|i: int| 0 <= i < 64 implies #[trigger] bit(a.bitboards@[k].0, i) == bit(
            b.bitboards@[k].0,
            i,
        ) by {
            assert(bit(a.bitboards@[p.index()].0, i) == (0 <= i < 64 && a.pieces@[i] == Some(p)));
            assert(bit(b.bitboards@[p.index()].0, i) == (0 <= i < 64 && b.pieces@[i] == Some(p)));
        }
        lemma_bits_ext(a.bitboards@[k].0, b.bitboards@[k].0);
    }
    assert(a.bitboards@ =~= b.bitboards@);
    PieceMap::lemma_ext(a.bitboards, b.bitboards);
    assert forall|k: int| 0 <= k < 12 implies a.piece_count@[k] == b.piece_count@[k] by {
        let p = Piece::at(k);
        assert(p.index() == k);
        assert(a.piece_count@[p.index()] == count_piece(a.pieces@, p));
        assert(b.piece_count@[p.index()] == count_piece(b.pieces@, p));
    }
    assert(a.piece_count@ =~= b.piece_count@);
    PieceMap::lemma_ext(a.piece_count, b.piece_count);
    assert forall|k: int| 0 <= k < 2 implies a.occupancy_player[k] == b.occupancy_player[k] by {
        let c = if k == 0 { PlayerV::White } else { PlayerV::Black };
        assert(c.index() == k);
        assert forall|i: int| 0 <= i < 64 implies #[trigger] bit(a.occupancy_player@[k].0, i) == bit(
            b.occupancy_player@[k].0,
            i,
        ) by {
            assert(bit(a.occupancy_player@[c.index()].0, i) == (0 <= i < 64 && owned_by(a.pieces@[i], c)));
            assert(bit(b.occupancy_player@[c.index()].0, i) == (0 <= i < 64 && owned_by(b.pieces@[i], c)));
        }
        lemma_bits_ext(a.occupancy_player@[k].0, b.occupancy_player@[k].0);
    }
    assert(a.occupancy_player =~= b.occupancy_player);
    assert forall|i: int| 0 <= i < 64 implies #[trigger] bit(a.occupancy.0, i) == bit(b.occupancy.0, i) by {
        assert(bit(a.occupancy.0, i) == (0 <= i < 64 && a.pieces@[i] is Some));
        assert(bit(b.occupancy.0, i) == (0 <= i < 64 && b.pieces@[i] is Some));
    }
    lemma_bits_ext(a.occupancy.0, b.occupancy.0);
}

/// The castling rights that a move from or to `square` takes from `player`.
fn castle_flags(player: PlayerV, square: Square) -> (r: u8)
    ensures
        r == castle_flag_mask(player, square),
{
    if player.back_rank() == square.rank() {
        match square.file() {
            File::E => player.castle_flags(),
            File::H => player.castle_kingside_flag(),
            File::A => player.castle_queenside_flag(),
            _ => 0,
        }
    } else {
        0
    }
}

/// The en passant bits of a file: bit 3 set, the file in the bits below it.
pub proof fn lemma_ep_flags_small(x: u8)
    by (bit_vector)
    requires
        x < 8,
    ensures
        (0x08u8 | x) < 16,
        ((0x08u8 | x) / 8) % 2 == 1,
        (0x08u8 | x) % 8 == x,
{
}

/// Which castling right each castling mask holds.
proof fn lemma_flag_masks()
    ensures
        (0x80u8 | 0x40u8) & 0x80u8 != 0,
        (0x80u8 | 0x40u8) & 0x40u8 != 0,
        (0x80u8 | 0x40u8) & 0x20u8 == 0,
        (0x80u8 | 0x40u8) & 0x10u8 == 0,
        (0x20u8 | 0x10u8) & 0x80u8 == 0,
        (0x20u8 | 0x10u8) & 0x40u8 == 0,
        (0x20u8 | 0x10u8) & 0x20u8 != 0,
        (0x20u8 | 0x10u8) & 0x10u8 != 0,
        0x80u8 & 0x80u8 != 0,
        0x80u8 & 0x40u8 == 0,
        0x80u8 & 0x20u8 == 0,
        0x80u8 & 0x10u8 == 0,
        0x40u8 & 0x80u8 == 0,
        0x40u8 & 0x40u8 != 0,
        0x40u8 & 0x20u8 == 0,
        0x40u8 & 0x10u8 == 0,
        0x20u8 & 0x80u8 == 0,
        0x20u8 & 0x40u8 == 0,
        0x20u8 & 0x20u8 != 0,
        0x20u8 & 0x10u8 == 0,
        0x10u8 & 0x80u8 == 0,
        0x10u8 & 0x40u8 == 0,
        0x10u8 & 0x20u8 == 0,
        0x10u8 & 0x10u8 != 0,
        0u8 & 0x80u8 == 0,
        0u8 & 0x40u8 == 0,
        0u8 & 0x20u8 == 0,
        0u8 & 0x10u8 == 0,
{
    assert((0x80u8 | 0x40u8) & 0x80u8 != 0 && (0x80u8 | 0x40u8) & 0x40u8 != 0 && (0x80u8 | 0x40u8) & 0x20u8 == 0
        && (0x80u8 | 0x40u8) & 0x10u8 == 0 && (0x20u8 | 0x10u8) & 0x80u8 == 0 && (0x20u8 | 0x10u8) & 0x40u8 == 0
        && (0x20u8 | 0x10u8) & 0x20u8 != 0 && (0x20u8 | 0x10u8) & 0x10u8 != 0 && 0x80u8 & 0x80u8 != 0
        && 0x80u8 & 0x40u8 == 0 && 0x80u8 & 0x20u8 == 0 && 0x80u8 & 0x10u8 == 0 && 0x40u8 & 0x80u8 == 0
        && 0x40u8 & 0x40u8 != 0 && 0x40u8 & 0x20u8 == 0 && 0x40u8 & 0x10u8 == 0 && 0x20u8 & 0x80u8 == 0
        && 0x20u8 & 0x40u8 == 0 && 0x20u8 & 0x20u8 != 0 && 0x20u8 & 0x10u8 == 0 && 0x10u8 & 0x80u8 == 0
        && 0x10u8 & 0x40u8 == 0 && 0x10u8 & 0x20u8 == 0 && 0x10u8 & 0x10u8 != 0 && 0u8 & 0x80u8 == 0
        && 0u8 & 0x40u8 == 0 && 0u8 & 0x20u8 == 0 && 0u8 & 0x10u8 == 0) by (bit_vector);
}

/// A castling right that survives clearing masks and replacing the en passant bits was set
/// before, and no mask holds it.
proof fn lemma_flag_clear(f: u8, m1: u8, m2: u8, m3: u8, e: u8, b: u8)
    requires
        b == 0x80 || b == 0x40 || b == 0x20 || b == 0x10,
        e < 16,
    ensures
        ((((f & !(m1 | m2)) & !m3) & 0xf0u8) | e) & b != 0 ==> f & b != 0 && m1 & b == 0 && m2 & b == 0 && m3 & b
            == 0,
{
    assert(((((f & !(m1 | m2)) & !m3) & 0xf0u8) | e) & b != 0 ==> f & b != 0 && m1 & b == 0 && m2 & b == 0 && m3 & b
        == 0) by (bit_vector)
        requires
            b == 0x80 || b == 0x40 || b == 0x20 || b == 0x10,
            e < 16;
}

/// Playing a move keeps each remaining castling right's king and rook in place.
proof fn lemma_castle_after_make(st: BoardState, m: Move)
    requires
        st.pieces.len() == 64,
        castle_ok(st.pieces, st.flags),
        can_make(st, m),
    ensures
        castle_ok(spec_make_move(st, m).pieces, spec_make_move(st, m).flags),
{
    let n = spec_make_move(st, m);
    let player = st.player;
    let opp = player.spec_opponent();
    let piece = st.pieces[m.from.index()].unwrap();
    let m1 = castle_flag_mask(player, m.from);
    let m2 = castle_flag_mask(opp, m.to);
    let m3 = castled_flag(player, piece, m);
    let e = ep_flags(piece, m);
    assert(e < 16) by {
        if is_double_push(piece, m) {
            lemma_ep_flags_small(m.from.file_index() as u8);
        }
    }
    lemma_flag_masks();
    lemma_flag_clear(st.flags, m1, m2, m3, e, 0x80);
    lemma_flag_clear(st.flags, m1, m2, m3, e, 0x40);
    lemma_flag_clear(st.flags, m1, m2, m3, e, 0x20);
    lemma_flag_clear(st.flags, m1, m2, m3, e, 0x10);
}

/// The square's content is the piece.
pub fn holds(x: Option<Piece>, p: Piece) -> (r: bool)
    ensures
        r == (x == Some(p)),
{
    match x {
        Some(q) => q == p,
        None => false,
    }
}

/// Dropping the castling rights that the placement rules out leaves none without its king and
/// rook.
proof fn lemma_unset_flags(f: u8, u: u8, a: bool, b: bool, c: bool, d: bool)
    requires
        u == (if !a { 0x80u8 } else { 0u8 }) | (if !b { 0x40u8 } else { 0u8 }) | (if !c { 0x20u8 } else { 0u8 }) | (if !d { 0x10u8 } else { 0u8 }),
    ensures
        (f & !u) & 0x80 != 0 ==> a,
        (f & !u) & 0x40 != 0 ==> b,
        (f & !u) & 0x20 != 0 ==> c,
        (f & !u) & 0x10 != 0 ==> d,
{
    assert(u == (if !a { 0x80u8 } else { 0u8 }) | (if !b { 0x40u8 } else { 0u8 }) | (if !c { 0x20u8 } else { 0u8 }) | (if !d { 0x10u8 } else { 0u8 })
        ==> ((f & !u) & 0x80 != 0 ==> a) && ((f & !u) & 0x40 != 0 ==> b) && ((f & !u) & 0x20 != 0 ==> c) && ((f & !u) & 0x10 != 0 ==> d)) by (bit_vector);
}

/// The index of a piece is below 12, and names it.
pub proof fn lemma_piece_index(p: Piece)
    ensures
        0 <= p.index() < 12,
        Piece::at(p.index()) == p,
{
}

/// A square holds a piece of a side exactly when it holds one of the side's six kinds.
pub proof fn lemma_pieces_of_player(c: PlayerV, j: int, pieces: Seq<Option<Piece>>)
    ensures
        owned_by(pieces[j], c) == (pieces[j] == Some(Piece { player: c, piece_type: PieceTypeV::King })
            || pieces[j] == Some(Piece { player: c, piece_type: PieceTypeV::Queen })
            || pieces[j] == Some(Piece { player: c, piece_type: PieceTypeV::Rook })
            || pieces[j] == Some(Piece { player: c, piece_type: PieceTypeV::Bishop })
            || pieces[j] == Some(Piece { player: c, piece_type: PieceTypeV::Knight })
            || pieces[j] == Some(Piece { player: c, piece_type: PieceTypeV::Pawn })),
{
    match pieces[j] {
        Some(p) => {
            match p.piece_type {
                PieceTypeV::King => {},
                PieceTypeV::Queen => {},
                PieceTypeV::Rook => {},
                PieceTypeV::Bishop => {},
                PieceTypeV::Knight => {},
                PieceTypeV::Pawn => {},
            }
        },
        None => {},
    }
}

/// What one piece of a kind is worth in the material score, in pawns.
pub open spec fn piece_worth(t: PieceTypeV) -> int {
    match t {
        PieceTypeV::King => 200,
        PieceTypeV::Queen => 9,
        PieceTypeV::Rook => 5,
        PieceTypeV::Bishop => 3,
        PieceTypeV::Knight => 3,
        PieceTypeV::Pawn => 1,
    }
}

/// Putting a piece on an empty square raises the score of the side to move by the piece's
/// worth times a hundred when the piece is its own, and lowers it by as much when the piece
/// is the other side's: a knight of the side to move is worth 300.
pub proof fn law_eval_counts_material(st: BoardState, s: int, p: Piece)
    requires
        0 <= s < st.pieces.len(),
        st.pieces[s] is None,
    ensures
        spec_eval(BoardState { pieces: st.pieces.update(s, Some(p)), ..st }) == spec_eval(st)
            + (if p.player == st.player { 100 * piece_worth(p.piece_type) } else { -100 * piece_worth(p.piece_type) }),
{
    let ps = st.pieces;
    let q = ps.update(s, Some(p));
    let w = PlayerV::White;
    let b = PlayerV::Black;
    lemma_count_piece_update(ps, s, Some(p), Piece { player: w, piece_type: PieceTypeV::King });
    lemma_count_piece_update(ps, s, Some(p), Piece { player: b, piece_type: PieceTypeV::King });
    lemma_count_piece_update(ps, s, Some(p), Piece { player: w, piece_type: PieceTypeV::Queen });
    lemma_count_piece_update(ps, s, Some(p), Piece { player: b, piece_type: PieceTypeV::Queen });
    lemma_count_piece_update(ps, s, Some(p), Piece { player: w, piece_type: PieceTypeV::Rook });
    lemma_count_piece_update(ps, s, Some(p), Piece { player: b, piece_type: PieceTypeV::Rook });
    lemma_count_piece_update(ps, s, Some(p), Piece { player: w, piece_type: PieceTypeV::Bishop });
    lemma_count_piece_update(ps, s, Some(p), Piece { player: b, piece_type: PieceTypeV::Bishop });
    lemma_count_piece_update(ps, s, Some(p), Piece { player: w, piece_type: PieceTypeV::Knight });
    lemma_count_piece_update(ps, s, Some(p), Piece { player: b, piece_type: PieceTypeV::Knight });
    lemma_count_piece_update(ps, s, Some(p), Piece { player: w, piece_type: PieceTypeV::Pawn });
    lemma_count_piece_update(ps, s, Some(p), Piece { player: b, piece_type: PieceTypeV::Pawn });
}

/// Passing the turn to the other side, with the same pieces, negates the score.
pub proof fn law_eval_other_side(st: BoardState)
    ensures
        spec_eval(BoardState { player: st.player.spec_opponent(), ..st }) == -spec_eval(st),
{
}

/// A board with no piece on it scores nothing.
pub proof fn law_eval_empty_board(st: BoardState)
    requires
        forall|i: int| 0 <= i < st.pieces.len() ==> #[trigger] st.pieces[i] is None,
    ensures
        spec_eval(st) == 0,
{
    assert forall|p: Piece| #[trigger] count_piece(st.pieces, p) == 0 by {
        lemma_count_piece_empty(st.pieces, p);
    }
}

/// A sequence with no piece in it counts none of any piece.
pub proof fn lemma_count_piece_empty(pieces: Seq<Option<Piece>>, p: Piece)
    requires
        forall|i: int| 0 <= i < pieces.len() ==> #[trigger] pieces[i] is None,
    ensures
        count_piece(pieces, p) == 0,
    decreases pieces.len(),
{
    if pieces.len() > 0 {
        assert(pieces.last() is None);
        lemma_count_piece_empty(pieces.drop_last(), p);
    }
}

/// No more squares hold a piece than there are squares.
pub proof fn lemma_count_piece_bound(pieces: Seq<Option<Piece>>, p: Piece)
    ensures
        count_piece(pieces, p) <= pieces.len(),
    decreases pieces.len(),
{
    if pieces.len() > 0 {
        lemma_count_piece_bound(pieces.drop_last(), p);
    }
}

/// Replacing what one square holds changes the count of a piece by at most one.
pub proof fn lemma_count_piece_update(pieces: Seq<Option<Piece>>, k: int, x: Option<Piece>, p: Piece)
    requires
        0 <= k < pieces.len(),
    ensures
        count_piece(pieces.update(k, x), p) + (if pieces[k] == Some(p) { 1int } else { 0int })
            == count_piece(pieces, p) + (if x == Some(p) { 1int } else { 0int }),
    decreases pieces.len(),
{
    let n = pieces.len();
    if k == n - 1 {
        assert(pieces.update(k, x).drop_last() =~= pieces.drop_last());
    } else {
        lemma_count_piece_update(pieces.drop_last(), k, x, p);
        assert(pieces.update(k, x).drop_last() =~= pieces.drop_last().update(k, x));
    }
}

} // verus!
