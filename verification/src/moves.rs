use vstd::prelude::*;
use vstd::string::*;

use crate::board::BoardFlags;
use crate::error::ParseError;
use crate::piece::{spec_parse_piece_type, spec_piece_type_char, PieceTypeV};
use crate::player::{Player, PlayerV};
use crate::square::{decimal, file_char, law_square_name_parses_back, spec_parse_square, File, Square, group_square};

verus! {

/// A move of a piece from one square to another, promoting a pawn where it says so.
#[derive(Clone, Copy, PartialEq, Eq, Structural, Hash, PartialOrd, Ord, Debug)]
pub struct Move {
    pub from: Square,
    pub to: Square,
    pub promoting: Option<PieceTypeV>,
}

/// The move that a string in long algebraic notation names, such as `e2e4` or `a7a8Q`.
pub open spec fn spec_parse_move(s: Seq<char>) -> Option<Move> {
    if s.len() < 4 {
        None
    } else {
        match (spec_parse_square(s.subrange(0, 2)), spec_parse_square(s.subrange(2, 4))) {
            (Some(from), Some(to)) => if s.len() == 4 {
                Some(Move { from, to, promoting: None })
            } else {
                match spec_parse_piece_type(s.subrange(4, s.len() as int)) {
                    Some(t) => Some(Move { from, to, promoting: Some(t) }),
                    None => None,
                }
            },
            _ => None,
        }
    }
}

/// The name of a square, such as `g5`.
pub open spec fn spec_square_name(s: Square) -> Seq<char> {
    seq![file_char(s.file_index())] + decimal(s.rank_index() as nat + 1)
}

/// A move in long algebraic notation.
pub open spec fn spec_move_string(m: Move) -> Seq<char> {
    spec_square_name(m.from) + spec_square_name(m.to) + match m.promoting {
        Some(t) => seq![spec_piece_type_char(t)],
        None => Seq::<char>::empty(),
    }
}

impl Move {
    pub fn new(from: Square, to: Square) -> (r: Move)
        ensures
            r == (Move { from, to, promoting: None }),
    {
        Move { from, to, promoting: None }
    }

    pub fn new_promoting(from: Square, to: Square, promoting: PieceTypeV) -> (r: Move)
        ensures
            r == (Move { from, to, promoting: Some(promoting) }),
    {
        Move { from, to, promoting: Some(promoting) }
    }

    /// The king's move when the side castles kingside.
    pub open spec fn spec_castle_kingside(player: PlayerV) -> Move {
        Move {
            from: Square::at(4 + 8 * player.back_rank_index()),
            to: Square::at(6 + 8 * player.back_rank_index()),
            promoting: None,
        }
    }

    /// The king's move when the side castles queenside.
    pub open spec fn spec_castle_queenside(player: PlayerV) -> Move {
        Move {
            from: Square::at(4 + 8 * player.back_rank_index()),
            to: Square::at(2 + 8 * player.back_rank_index()),
            promoting: None,
        }
    }

    /// The king's move when the side castles kingside: from the `e` file to the `g` file of its
    /// back rank.
    pub fn castle_kingside(player: impl Player) -> (r: Move)
        ensures
            r.from.index() == 4 + 8 * player.spec_value().back_rank_index(),
            r.to.index() == 6 + 8 * player.spec_value().back_rank_index(),
            r.promoting is None,
            r == Self::spec_castle_kingside(player.spec_value()),
    {
        let rank = player.value().back_rank();
        Move { from: Square::new(File::E, rank), to: Square::new(File::KINGSIDE, rank), promoting: None }
    }

    /// The king's move when the side castles queenside: from the `e` file to the `c` file of its
    /// back rank.
    pub fn castle_queenside(player: impl Player) -> (r: Move)
        ensures
            r.from.index() == 4 + 8 * player.spec_value().back_rank_index(),
            r.to.index() == 2 + 8 * player.spec_value().back_rank_index(),
            r.promoting is None,
            r == Self::spec_castle_queenside(player.spec_value()),
    {
        let rank = player.value().back_rank();
        Move { from: Square::new(File::E, rank), to: Square::new(File::QUEENSIDE, rank), promoting: None }
    }

    pub fn from(self) -> (r: Square)
        ensures
            r == self.from,
    {
        self.from
    }

    pub fn to(self) -> (r: Square)
        ensures
            r == self.to,
    {
        self.to
    }

    pub fn promoting(self) -> (r: Option<PieceTypeV>)
        ensures
            r == self.promoting,
    {
        self.promoting
    }

    /// The promotion of the move, to read or to replace.
    pub fn mut_promoting(&mut self) -> (r: &mut Option<PieceTypeV>)
        ensures
            *r == old(self).promoting,
            *final(self) == (Move { promoting: *final(r), ..*old(self) }),
    {
        &mut self.promoting
    }

    /// Reads a move in long algebraic notation, such as `e2e4` or `a7a8Q`.
    pub fn parse(s: &str) -> (r: Result<Move, ParseError>)
        ensures
            r matches Ok(m) ==> spec_parse_move(s@) == Some(m),
            r is Err <==> spec_parse_move(s@) is None,
            r matches Err(e) ==> e == ParseError::Move,
    {
        let n = s.unicode_len();
        if n < 4 {
            return Err(ParseError::Move);
        }
        let from = Square::parse(s.substring_char(0, 2));
        let to = Square::parse(s.substring_char(2, 4));
        match (from, to) {
            (Ok(from), Ok(to)) => {
                if n == 4 {
                    Ok(Move { from, to, promoting: None })
                } else {
                    match PieceTypeV::from_fen(s.substring_char(4, n)) {
                        Ok(t) => Ok(Move { from, to, promoting: Some(t) }),
                        Err(_) => Err(ParseError::Move),
                    }
                }
            },
            _ => Err(ParseError::Move),
        }
    }

    /// The move in long algebraic notation.
    pub fn to_string(&self) -> (r: String)
        ensures
            r@ == spec_move_string(*self),
    {
        let mut s = self.from.to_string();
        let t = self.to.to_string();
        s.append(t.as_str());
        match self.promoting {
            Some(p) => {
                let c = p.to_fen();
                s.append(c.as_str());
            },
            None => {},
        }
        assert(s@ =~= spec_move_string(*self));
        s
    }
}

/// A move that has been played, with what is needed to take it back.
#[derive(Clone, Copy, PartialEq, Eq, Structural, Hash, Debug)]
pub struct PlayedMove {
    pub mov: Move,
    /// The kind of the piece that the move captured.
    pub capture: Option<PieceTypeV>,
    pub en_passant_capture: bool,
    /// The castling rights before the move.
    pub flags: BoardFlags,
}

impl PlayedMove {
    pub fn new(mov: Move, capture: Option<PieceTypeV>, en_passant_capture: bool, flags: BoardFlags) -> (r: PlayedMove)
        ensures
            r == (PlayedMove { mov, capture, en_passant_capture, flags }),
    {
        PlayedMove { mov, capture, en_passant_capture, flags }
    }

    pub fn mov(self) -> (r: Move)
        ensures
            r == self.mov,
    {
        self.mov
    }

    pub fn capture(self) -> (r: Option<PieceTypeV>)
        ensures
            r == self.capture,
    {
        self.capture
    }
}

/// A move's long algebraic notation reads back as the move.
pub proof fn law_move_string_parses_back(m: Move)
    ensures
        spec_parse_move(spec_move_string(m)) == Some(m),
{
    let s = spec_move_string(m);
    let from = spec_square_name(m.from);
    let to = spec_square_name(m.to);
    law_square_name_parses_back(m.from);
    law_square_name_parses_back(m.to);
    assert(decimal(m.from.rank_index() as nat + 1).len() == 1);
    assert(decimal(m.to.rank_index() as nat + 1).len() == 1);
    assert(s.subrange(0, 2) =~= from);
    assert(s.subrange(2, 4) =~= to);
    match m.promoting {
        Some(t) => {
            assert(s.subrange(4, s.len() as int) =~= seq![spec_piece_type_char(t)]);
        },
        None => {
            assert(s.len() == 4);
        },
    }
}

} // verus!
