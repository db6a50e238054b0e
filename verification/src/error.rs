use vstd::prelude::*;

verus! {

/// Why a piece of text could not be read.
#[derive(Clone, Copy, PartialEq, Eq, Structural, Debug)]
pub enum ParseError {
    File,
    Rank,
    Square,
    Player,
    Piece,
    PieceType,
    Move,
    Algebraic,
    /// The FEN string has no piece placement field.
    ExpectedPieces,
    /// A rank of the FEN placement describes more than eight squares.
    TooManySquares,
    /// A rank of the FEN placement describes fewer than eight squares.
    TooFewSquares,
    /// The FEN placement has more than eight ranks.
    TooManyRanks,
    /// The FEN placement has fewer than eight ranks.
    TooFewRanks,
    /// The FEN string has no side-to-move field.
    ExpectedPlayer,
    /// The line names no command, or one that is not known.
    Command,
    /// An argument that takes a value is the last word of the line.
    Argument,
    /// A value that should be a number is not one.
    Number,
}

} // verus!
