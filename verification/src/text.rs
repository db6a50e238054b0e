//! Reading the library's values with `str::parse`.
use vstd::prelude::*;
use core::str::FromStr;

use crate::board::{impossible_flags, Board};
use crate::error::ParseError;
use crate::fen::spec_from_fen;
use crate::moves::{spec_parse_move, Move};
use crate::pgn::{parse_from, Algebraic};
use crate::piece::{spec_parse_piece, spec_parse_piece_type, Piece, PieceTypeV};
use crate::player::{spec_parse_player, PlayerV};
use crate::square::{spec_parse_file, spec_parse_rank, spec_parse_square, File, Rank, Square};
use crate::uci::{command_fits, spec_command, Command, CommandSpec};

verus! {

impl FromStr for Move {
    type Err = ParseError;

    /// See `Move::parse`.
    fn from_str(s: &str) -> (r: Result<Move, ParseError>)
        ensures
            r matches Ok(m) ==> spec_parse_move(s@) == Some(m),
            r is Err <==> spec_parse_move(s@) is None,
            r matches Err(e) ==> e == ParseError::Move,
    {
        Move::parse(s)
    }
}

impl FromStr for Piece {
    type Err = ParseError;

    /// See `Piece::from_fen`.
    fn from_str(s: &str) -> (r: Result<Piece, ParseError>)
        ensures
            r matches Ok(p) ==> spec_parse_piece(s@) == Some(p),
            r is Err <==> spec_parse_piece(s@) is None,
            r matches Err(e) ==> e == ParseError::Piece,
    {
        Piece::from_fen(s)
    }
}

impl FromStr for PieceTypeV {
    type Err = ParseError;

    /// See `PieceTypeV::from_fen`.
    fn from_str(s: &str) -> (r: Result<PieceTypeV, ParseError>)
        ensures
            r matches Ok(t) ==> spec_parse_piece_type(s@) == Some(t),
            r is Err <==> spec_parse_piece_type(s@) is None,
            r matches Err(e) ==> e == ParseError::PieceType,
    {
        PieceTypeV::from_fen(s)
    }
}

impl FromStr for PlayerV {
    type Err = ParseError;

    /// See `PlayerV::from_fen`.
    fn from_str(s: &str) -> (r: Result<PlayerV, ParseError>)
        ensures
            r matches Ok(p) ==> spec_parse_player(s@) == Some(p),
            r is Err <==> spec_parse_player(s@) is None,
            r matches Err(e) ==> e == ParseError::Player,
    {
        PlayerV::from_fen(s)
    }
}

impl FromStr for Square {
    type Err = ParseError;

    /// See `Square::parse`.
    fn from_str(s: &str) -> (r: Result<Square, ParseError>)
        ensures
            r matches Ok(x) ==> spec_parse_square(s@) == Some(x),
            r is Err <==> spec_parse_square(s@) is None,
            r matches Err(e) ==> e == ParseError::Square,
    {
        Square::parse(s)
    }
}

impl FromStr for File {
    type Err = ParseError;

    /// See `File::parse`.
    fn from_str(s: &str) -> (r: Result<File, ParseError>)
        ensures
            r matches Ok(f) ==> spec_parse_file(s@) == Some(f),
            r is Err <==> spec_parse_file(s@) is None,
            r matches Err(e) ==> e == ParseError::File,
    {
        File::parse(s)
    }
}

impl FromStr for Rank {
    type Err = ParseError;

    /// See `Rank::parse`.
    fn from_str(s: &str) -> (r: Result<Rank, ParseError>)
        ensures
            r matches Ok(x) ==> spec_parse_rank(s@) == Some(x),
            r is Err <==> spec_parse_rank(s@) is None,
            r matches Err(e) ==> e == ParseError::Rank,
    {
        Rank::parse(s)
    }
}

impl FromStr for Board {
    type Err = ParseError;

    /// See `Board::from_fen`.
    fn from_str(s: &str) -> (r: Result<Board, ParseError>)
        ensures
            spec_from_fen(s@) matches Ok((ranks, player, flags)) ==> {
                &&& r is Ok
                &&& r.unwrap().wf()
                &&& forall|i: int| 0 <= i < 64 ==> #[trigger] r.unwrap()@.pieces[i] == ranks[i / 8][i % 8]
                &&& r.unwrap()@.player == player
                &&& r.unwrap()@.flags == flags & !impossible_flags(r.unwrap()@.pieces)
            },
            spec_from_fen(s@) matches Err(e) ==> r matches Err(f) && f == e,
    {
        Board::from_fen(s)
    }
}

impl FromStr for Algebraic {
    type Err = ParseError;

    /// See `Algebraic::parse`.
    fn from_str(s: &str) -> (r: Result<Algebraic, ParseError>)
        ensures
            r matches Ok(a) ==> parse_from(s@, 0) == Some(a),
            r is Err <==> parse_from(s@, 0) is None,
            r matches Err(e) ==> e == ParseError::Algebraic,
    {
        Algebraic::parse(s)
    }
}

impl FromStr for Command {
    type Err = ParseError;

    /// See `Command::parse`.
    fn from_str(s: &str) -> (r: Result<Command, ParseError>)
        ensures
            r is Ok <==> spec_command(s@) is Ok,
            r matches Ok(c) ==> command_fits(c, spec_command(s@)->Ok_0),
            r matches Err(e) ==> spec_command(s@) == Err::<CommandSpec, ParseError>(e),
    {
        Command::parse(s)
    }
}

} // verus!
