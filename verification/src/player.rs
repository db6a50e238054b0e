use vstd::prelude::*;
use vstd::string::*;

use crate::bitboard::Bitboard;
use crate::bits::spec_swap_bytes;
use crate::error::ParseError;
use crate::square::Rank;

verus! {

/// One of the two sides.
#[derive(Clone, Copy, PartialEq, Eq, Structural, Hash, PartialOrd, Ord, Debug)]
pub enum PlayerV {
    White,
    Black,
}

/// A value that stands for one of the two sides.
pub trait Player: Copy {
    spec fn spec_value(self) -> PlayerV;

    fn value(self) -> (r: PlayerV)
        ensures
            r == self.spec_value(),
    ;
}

/// A type that stands for one fixed side.
pub trait PlayerT: Player {

}

/// The white side as a type.
#[derive(Clone, Copy, Default, Debug)]
pub struct White;

/// The black side as a type.
#[derive(Clone, Copy, Default, Debug)]
pub struct Black;

impl Player for PlayerV {
    open spec fn spec_value(self) -> PlayerV {
        self
    }

    fn value(self) -> (r: PlayerV) {
        self
    }
}

impl Player for White {
    open spec fn spec_value(self) -> PlayerV {
        PlayerV::White
    }

    fn value(self) -> (r: PlayerV) {
        PlayerV::White
    }
}

impl Player for Black {
    open spec fn spec_value(self) -> PlayerV {
        PlayerV::Black
    }

    fn value(self) -> (r: PlayerV) {
        PlayerV::Black
    }
}

impl PlayerT for White {

}

impl PlayerT for Black {

}

/// The string that a side is written as in FEN: `w` or `b`.
pub open spec fn spec_player_fen(p: PlayerV) -> Seq<char> {
    match p {
        PlayerV::White => seq!['w'],
        PlayerV::Black => seq!['b'],
    }
}

/// The side that a FEN string names: `W`, `w`, `B` or `b`.
pub open spec fn spec_parse_player(s: Seq<char>) -> Option<PlayerV> {
    if s == seq!['W'] || s == seq!['w'] {
        Some(PlayerV::White)
    } else if s == seq!['B'] || s == seq!['b'] {
        Some(PlayerV::Black)
    } else {
        None
    }
}

impl PlayerV {
    /// 0 for white, 1 for black.
    pub open spec fn index(self) -> int {
        match self {
            PlayerV::White => 0,
            PlayerV::Black => 1,
        }
    }

    pub open spec fn spec_opponent(self) -> PlayerV {
        match self {
            PlayerV::White => PlayerV::Black,
            PlayerV::Black => PlayerV::White,
        }
    }

    /// The row number of the side's back rank.
    pub open spec fn back_rank_index(self) -> int {
        match self {
            PlayerV::White => 0,
            PlayerV::Black => 7,
        }
    }

    /// The row number of the rank the side's pawns start on.
    pub open spec fn pawn_rank_index(self) -> int {
        match self {
            PlayerV::White => 1,
            PlayerV::Black => 6,
        }
    }

    /// The direction the side's pawns move in: 1 (up) or -1 (down).
    pub open spec fn spec_multiplier(self) -> int {
        match self {
            PlayerV::White => 1,
            PlayerV::Black => -1,
        }
    }

    pub open spec fn spec_kingside_flag(self) -> u8 {
        match self {
            PlayerV::White => 0x80u8,
            PlayerV::Black => 0x20u8,
        }
    }

    pub open spec fn spec_queenside_flag(self) -> u8 {
        match self {
            PlayerV::White => 0x40u8,
            PlayerV::Black => 0x10u8,
        }
    }

    /// The squares between king and rook that must be empty to castle kingside.
    pub open spec fn spec_kingside_clear(self) -> u64 {
        match self {
            PlayerV::White => 0x60u64,
            PlayerV::Black => 0x6000_0000_0000_0000u64,
        }
    }

    /// The squares between king and rook that must be empty to castle queenside.
    pub open spec fn spec_queenside_clear(self) -> u64 {
        match self {
            PlayerV::White => 0x0eu64,
            PlayerV::Black => 0x0e00_0000_0000_0000u64,
        }
    }

    /// The squares the king stands on or passes over when castling kingside.
    pub open spec fn spec_kingside_through(self) -> u64 {
        match self {
            PlayerV::White => 0x30u64,
            PlayerV::Black => 0x3000_0000_0000_0000u64,
        }
    }

    /// The squares the king stands on or passes over when castling queenside.
    pub open spec fn spec_queenside_through(self) -> u64 {
        match self {
            PlayerV::White => 0x18u64,
            PlayerV::Black => 0x1800_0000_0000_0000u64,
        }
    }

    pub fn to_index(self) -> (r: usize)
        ensures
            r == self.index(),
    {
        match self {
            PlayerV::White => 0,
            PlayerV::Black => 1,
        }
    }

    pub fn opponent(self) -> (r: PlayerV)
        ensures
            r == self.spec_opponent(),
    {
        match self {
            PlayerV::White => PlayerV::Black,
            PlayerV::Black => PlayerV::White,
        }
    }

    pub fn back_rank(self) -> (r: Rank)
        ensures
            r.index() == self.back_rank_index(),
    {
        match self {
            PlayerV::White => Rank::_1,
            PlayerV::Black => Rank::_8,
        }
    }

    pub fn pawn_rank(self) -> (r: Rank)
        ensures
            r.index() == self.pawn_rank_index(),
    {
        match self {
            PlayerV::White => Rank::_2,
            PlayerV::Black => Rank::_7,
        }
    }

    pub fn castle_kingside_clear(self) -> (r: Bitboard)
        ensures
            r.0 == self.spec_kingside_clear(),
    {
        let clear = Bitboard::new(0x60);
        match self {
            PlayerV::White => clear,
            PlayerV::Black => {
                assert(spec_swap_bytes(0x60u64) == 0x6000_0000_0000_0000u64) by (bit_vector);
                clear.reverse()
            },
        }
    }

    pub fn castle_queenside_clear(self) -> (r: Bitboard)
        ensures
            r.0 == self.spec_queenside_clear(),
    {
        let clear = Bitboard::new(0x0e);
        match self {
            PlayerV::White => clear,
            PlayerV::Black => {
                assert(spec_swap_bytes(0x0eu64) == 0x0e00_0000_0000_0000u64) by (bit_vector);
                clear.reverse()
            },
        }
    }

    pub fn castle_kingside_through(self) -> (r: Bitboard)
        ensures
            r.0 == self.spec_kingside_through(),
    {
        let through = Bitboard::new(0x30);
        match self {
            PlayerV::White => through,
            PlayerV::Black => {
                assert(spec_swap_bytes(0x30u64) == 0x3000_0000_0000_0000u64) by (bit_vector);
                through.reverse()
            },
        }
    }

    pub fn castle_queenside_through(self) -> (r: Bitboard)
        ensures
            r.0 == self.spec_queenside_through(),
    {
        let through = Bitboard::new(0x18);
        match self {
            PlayerV::White => through,
            PlayerV::Black => {
                assert(spec_swap_bytes(0x18u64) == 0x1800_0000_0000_0000u64) by (bit_vector);
                through.reverse()
            },
        }
    }

    pub fn castle_kingside_flag(self) -> (r: u8)
        ensures
            r == self.spec_kingside_flag(),
    {
        match self {
            PlayerV::White => 0b1000_0000,
            PlayerV::Black => 0b0010_0000,
        }
    }

    pub fn castle_queenside_flag(self) -> (r: u8)
        ensures
            r == self.spec_queenside_flag(),
    {
        match self {
            PlayerV::White => 0b0100_0000,
            PlayerV::Black => 0b0001_0000,
        }
    }

    /// Both castling flags of the side.
    pub fn castle_flags(self) -> (r: u8)
        ensures
            r == self.spec_kingside_flag() | self.spec_queenside_flag(),
    {
        self.castle_kingside_flag() | self.castle_queenside_flag()
    }

    pub fn multiplier(self) -> (r: i8)
        ensures
            r == self.spec_multiplier(),
    {
        match self {
            PlayerV::White => 1,
            PlayerV::Black => -1,
        }
    }

    /// Moves every square of the set one row in the direction of the side's pawns.
    pub fn advance_bitboard(self, bitboard: Bitboard) -> (r: Bitboard)
        ensures
            forall|i: int| 0 <= i < 64 ==> #[trigger] crate::bits::bit(r.0, i)
                == crate::bits::bit(bitboard.0, i - self.spec_multiplier() * 8),
    {
        match self {
            PlayerV::White => bitboard.shift_rank(1),
            PlayerV::Black => bitboard.shift_rank(-1),
        }
    }

    /// `W` or `B`.
    pub fn char(self) -> (r: char)
        ensures
            r == (match self {
                PlayerV::White => 'W',
                PlayerV::Black => 'B',
            }),
    {
        match self {
            PlayerV::White => 'W',
            PlayerV::Black => 'B',
        }
    }

    /// The side as FEN writes it: `w` or `b`.
    pub fn to_fen(self) -> (r: String)
        ensures
            r@ == spec_player_fen(self),
    {
        proof {
            reveal_strlit("w");
            reveal_strlit("b");
        }
        let mut r = String::new();
        match self {
            PlayerV::White => r.append("w"),
            PlayerV::Black => r.append("b"),
        }
        assert(r@ =~= spec_player_fen(self));
        r
    }

    /// Reads the side from FEN: `W`, `w`, `B` or `b`.
    pub fn from_fen(s: &str) -> (r: Result<PlayerV, ParseError>)
        ensures
            r matches Ok(p) ==> spec_parse_player(s@) == Some(p),
            r is Err <==> spec_parse_player(s@) is None,
            r matches Err(e) ==> e == ParseError::Player,
    {
        if s.unicode_len() != 1 {
            return Err(ParseError::Player);
        }
        let c = s.get_char(0);
        assert(s@ =~= seq![c]);
        if c == 'W' || c == 'w' {
            Ok(PlayerV::White)
        } else if c == 'B' || c == 'b' {
            Ok(PlayerV::Black)
        } else {
            Err(ParseError::Player)
        }
    }

    /// The side as FEN writes it: `w` or `b`.
    pub fn to_string(&self) -> (r: String)
        ensures
            r@ == spec_player_fen(*self),
    {
        self.to_fen()
    }
}

} // verus!
