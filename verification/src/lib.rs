use vstd::prelude::*;

pub mod bitboard;
pub mod bits;
pub mod board;
pub mod engine;
pub mod error;
pub mod fen;
pub mod magic;
pub mod move_generation;
pub mod moves;
pub mod perft;
pub mod pgn;
pub mod piece;
pub mod piece_map;
pub mod player;
pub mod search;
pub mod square;
pub mod text;
pub mod uci;

pub use crate::bitboard::{bitboards, Bitboard, SquareIterator};
pub use crate::board::{Board, BoardFlags};
pub use crate::error::ParseError;
pub use crate::moves::{Move, PlayedMove};
pub use crate::piece::{Piece, PieceT, PieceType, PieceTypeT, PieceTypeV, PieceV};
pub use crate::piece_map::PieceMap;
pub use crate::player::{Black, Player, PlayerT, PlayerV, White};
pub use crate::square::{File, FileMap, Rank, RankMap, Square, SquareColor, SquareMap};

verus! {

} // verus!
