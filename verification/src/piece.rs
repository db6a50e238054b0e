use vstd::prelude::*;
use vstd::string::*;

use crate::error::ParseError;
use crate::player::{Player, PlayerV};

verus! {

/// The kind of a piece.
#[derive(Clone, Copy, PartialEq, Eq, Structural, Hash, PartialOrd, Ord, Debug)]
pub enum PieceTypeV {
    King,
    Queen,
    Rook,
    Bishop,
    Knight,
    Pawn,
}

/// A value that stands for a kind of piece.
pub trait PieceType: Copy {
    spec fn spec_value(self) -> PieceTypeV;

    fn value(self) -> (r: PieceTypeV)
        ensures
            r == self.spec_value(),
    ;
}

/// A type that stands for one fixed kind of piece.
pub trait PieceTypeT: PieceType {

}

impl PieceType for PieceTypeV {
    open spec fn spec_value(self) -> PieceTypeV {
        self
    }

    fn value(self) -> (r: PieceTypeV) {
        self
    }
}

/// The upper-case letter of a kind of piece.
pub open spec fn spec_piece_type_char(t: PieceTypeV) -> char {
    match t {
        PieceTypeV::King => 'K',
        PieceTypeV::Queen => 'Q',
        PieceTypeV::Rook => 'R',
        PieceTypeV::Bishop => 'B',
        PieceTypeV::Knight => 'N',
        PieceTypeV::Pawn => 'P',
    }
}

/// The kind of piece that a one-letter string names, in either case.
pub open spec fn spec_parse_piece_type(s: Seq<char>) -> Option<PieceTypeV> {
    if s.len() != 1 {
        None
    } else {
        let c = s[0];
        if c == 'K' || c == 'k' {
            Some(PieceTypeV::King)
        } else if c == 'Q' || c == 'q' {
            Some(PieceTypeV::Queen)
        } else if c == 'R' || c == 'r' {
            Some(PieceTypeV::Rook)
        } else if c == 'B' || c == 'b' {
            Some(PieceTypeV::Bishop)
        } else if c == 'N' || c == 'n' {
            Some(PieceTypeV::Knight)
        } else if c == 'P' || c == 'p' {
            Some(PieceTypeV::Pawn)
        } else {
            None
        }
    }
}

/// The letter of a piece in FEN: upper case for white, lower case for black.
pub open spec fn spec_piece_char(p: Piece) -> char {
    let c = spec_piece_type_char(p.piece_type);
    match p.player {
        PlayerV::White => c,
        PlayerV::Black => ((c as int) + 32) as char,
    }
}

/// The chess symbol of a piece.
pub open spec fn spec_piece_symbol(p: Piece) -> char {
    match (p.player, p.piece_type) {
        (PlayerV::White, PieceTypeV::King) => '♔',
        (PlayerV::White, PieceTypeV::Queen) => '♕',
        (PlayerV::White, PieceTypeV::Rook) => '♖',
        (PlayerV::White, PieceTypeV::Bishop) => '♗',
        (PlayerV::White, PieceTypeV::Knight) => '♘',
        (PlayerV::White, PieceTypeV::Pawn) => '♙',
        (PlayerV::Black, PieceTypeV::King) => '♚',
        (PlayerV::Black, PieceTypeV::Queen) => '♛',
        (PlayerV::Black, PieceTypeV::Rook) => '♜',
        (PlayerV::Black, PieceTypeV::Bishop) => '♝',
        (PlayerV::Black, PieceTypeV::Knight) => '♞',
        (PlayerV::Black, PieceTypeV::Pawn) => '♟',
    }
}

/// The piece that a one-character string names: its FEN letter or its chess symbol.
pub open spec fn spec_parse_piece(s: Seq<char>) -> Option<Piece> {
    if s.len() != 1 {
        None
    } else if exists|p: Piece| spec_piece_char(p) == s[0] || spec_piece_symbol(p) == s[0] {
        Some(choose|p: Piece| spec_piece_char(p) == s[0] || spec_piece_symbol(p) == s[0])
    } else {
        None
    }
}

impl PieceTypeV {
    /// 0 (king) to 5 (pawn), in the order of the variants.
    pub open spec fn index(self) -> int {
        match self {
            PieceTypeV::King => 0,
            PieceTypeV::Queen => 1,
            PieceTypeV::Rook => 2,
            PieceTypeV::Bishop => 3,
            PieceTypeV::Knight => 4,
            PieceTypeV::Pawn => 5,
        }
    }

    pub fn to_index(self) -> (r: usize)
        ensures
            r == self.index(),
    {
        match self {
            PieceTypeV::King => 0,
            PieceTypeV::Queen => 1,
            PieceTypeV::Rook => 2,
            PieceTypeV::Bishop => 3,
            PieceTypeV::Knight => 4,
            PieceTypeV::Pawn => 5,
        }
    }

    pub open spec fn values_spec() -> Seq<PieceTypeV> {
        seq![
            PieceTypeV::King,
            PieceTypeV::Queen,
            PieceTypeV::Rook,
            PieceTypeV::Bishop,
            PieceTypeV::Knight,
            PieceTypeV::Pawn,
        ]
    }

    /// The six kinds in order.
    pub fn values() -> (r: [PieceTypeV; 6])
        ensures
            forall|i: int| 0 <= i < 6 ==> (#[trigger] r@[i]).index() == i,
            r@ == Self::values_spec(),
    {
        [
            PieceTypeV::King,
            PieceTypeV::Queen,
            PieceTypeV::Rook,
            PieceTypeV::Bishop,
            PieceTypeV::Knight,
            PieceTypeV::Pawn,
        ]
    }

    /// The upper-case letter of the kind.
    pub fn to_char(self) -> (r: char)
        ensures
            r == spec_piece_type_char(self),
    {
        match self {
            PieceTypeV::King => 'K',
            PieceTypeV::Queen => 'Q',
            PieceTypeV::Rook => 'R',
            PieceTypeV::Bishop => 'B',
            PieceTypeV::Knight => 'N',
            PieceTypeV::Pawn => 'P',
        }
    }

    /// The upper-case letter of the kind, as a string.
    pub fn to_fen(self) -> (r: String)
        ensures
            r@ == seq![spec_piece_type_char(self)],
    {
        proof {
            reveal_strlit("K");
            reveal_strlit("Q");
            reveal_strlit("R");
            reveal_strlit("B");
            reveal_strlit("N");
            reveal_strlit("P");
        }
        let s = match self {
            PieceTypeV::King => "K",
            PieceTypeV::Queen => "Q",
            PieceTypeV::Rook => "R",
            PieceTypeV::Bishop => "B",
            PieceTypeV::Knight => "N",
            PieceTypeV::Pawn => "P",
        };
        let mut r = String::new();
        r.append(s);
        assert(r@ =~= seq![spec_piece_type_char(self)]);
        r
    }

    /// The upper-case letter of the kind, as a string.
    pub fn to_string(&self) -> (r: String)
        ensures
            r@ == seq![spec_piece_type_char(*self)],
    {
        self.to_fen()
    }

    /// Reads a kind of piece from its letter, in either case.
    pub fn from_fen(s: &str) -> (r: Result<PieceTypeV, ParseError>)
        ensures
            r matches Ok(t) ==> spec_parse_piece_type(s@) == Some(t),
            r is Err <==> spec_parse_piece_type(s@) is None,
            r matches Err(e) ==> e == ParseError::PieceType,
    {
        if s.unicode_len() != 1 {
            return Err(ParseError::PieceType);
        }
        let c = s.get_char(0);
        assert(s@ =~= seq![c]);
        if c == 'K' || c == 'k' {
            Ok(PieceTypeV::King)
        } else if c == 'Q' || c == 'q' {
            Ok(PieceTypeV::Queen)
        } else if c == 'R' || c == 'r' {
            Ok(PieceTypeV::Rook)
        } else if c == 'B' || c == 'b' {
            Ok(PieceTypeV::Bishop)
        } else if c == 'N' || c == 'n' {
            Ok(PieceTypeV::Knight)
        } else if c == 'P' || c == 'p' {
            Ok(PieceTypeV::Pawn)
        } else {
            Err(ParseError::PieceType)
        }
    }
}

/// A piece: a side and a kind.
#[derive(Clone, Copy, PartialEq, Eq, Structural, Hash, PartialOrd, Ord, Debug)]
pub struct Piece {
    pub player: PlayerV,
    pub piece_type: PieceTypeV,
}

/// A piece whose side and kind are plain values.
pub type PieceV = Piece;

/// A piece whose side and kind may be types.
#[derive(Clone, Copy, Default, Debug)]
pub struct PieceT<P, PT> {
    pub player: P,
    pub piece_type: PT,
}

impl<P: Player, PT: PieceType> PieceT<P, PT> {
    pub fn new(player: P, piece_type: PT) -> (r: Self)
        ensures
            r.player == player,
            r.piece_type == piece_type,
    {
        PieceT { player, piece_type }
    }

    /// The piece as plain values.
    pub fn value(&self) -> (r: Piece)
        ensures
            r == (Piece { player: self.player.spec_value(), piece_type: self.piece_type.spec_value() }),
    {
        Piece { player: self.player.value(), piece_type: self.piece_type.value() }
    }
}

impl Piece {
    /// 0 to 11: six kinds of white pieces, then six of black.
    pub open spec fn index(self) -> int {
        self.player.index() * 6 + self.piece_type.index()
    }

    /// The piece with index `i`.
    pub open spec fn at(i: int) -> Piece {
        Piece {
            player: if i < 6 {
                PlayerV::White
            } else {
                PlayerV::Black
            },
            piece_type: if i % 6 == 0 {
                PieceTypeV::King
            } else if i % 6 == 1 {
                PieceTypeV::Queen
            } else if i % 6 == 2 {
                PieceTypeV::Rook
            } else if i % 6 == 3 {
                PieceTypeV::Bishop
            } else if i % 6 == 4 {
                PieceTypeV::Knight
            } else {
                PieceTypeV::Pawn
            },
        }
    }

    pub fn new(player: PlayerV, piece_type: PieceTypeV) -> (r: Piece)
        ensures
            r.player == player,
            r.piece_type == piece_type,
    {
        Piece { player, piece_type }
    }

    /// The piece of a side and a kind given by any of their representations.
    pub fn newv(player: impl Player, piece_type: impl PieceType) -> (r: Piece)
        ensures
            r.player == player.spec_value(),
            r.piece_type == piece_type.spec_value(),
    {
        Piece { player: player.value(), piece_type: piece_type.value() }
    }

    /// The piece itself.
    pub fn value(&self) -> (r: Piece)
        ensures
            r == *self,
    {
        *self
    }

    pub fn player(self) -> (r: PlayerV)
        ensures
            r == self.player,
    {
        self.player
    }

    pub fn piece_type(self) -> (r: PieceTypeV)
        ensures
            r == self.piece_type,
    {
        self.piece_type
    }

    pub fn to_index(self) -> (r: usize)
        ensures
            r == self.index(),
            r < 12,
    {
        self.player.to_index() * 6 + self.piece_type.to_index()
    }

    /// The letter of the piece in FEN.
    pub fn to_fen(&self) -> (r: String)
        ensures
            r@ == seq![spec_piece_char(*self)],
    {
        proof {
            reveal_strlit("K");
            reveal_strlit("Q");
            reveal_strlit("R");
            reveal_strlit("B");
            reveal_strlit("N");
            reveal_strlit("P");
            reveal_strlit("k");
            reveal_strlit("q");
            reveal_strlit("r");
            reveal_strlit("b");
            reveal_strlit("n");
            reveal_strlit("p");
        }
        let s = match (self.player, self.piece_type) {
            (PlayerV::White, PieceTypeV::King) => "K",
            (PlayerV::White, PieceTypeV::Queen) => "Q",
            (PlayerV::White, PieceTypeV::Rook) => "R",
            (PlayerV::White, PieceTypeV::Bishop) => "B",
            (PlayerV::White, PieceTypeV::Knight) => "N",
            (PlayerV::White, PieceTypeV::Pawn) => "P",
            (PlayerV::Black, PieceTypeV::King) => "k",
            (PlayerV::Black, PieceTypeV::Queen) => "q",
            (PlayerV::Black, PieceTypeV::Rook) => "r",
            (PlayerV::Black, PieceTypeV::Bishop) => "b",
            (PlayerV::Black, PieceTypeV::Knight) => "n",
            (PlayerV::Black, PieceTypeV::Pawn) => "p",
        };
        let mut r = String::new();
        r.append(s);
        assert(r@ =~= seq![spec_piece_char(*self)]);
        r
    }

    /// The chess symbol of the piece.
    pub fn to_string(&self) -> (r: String)
        ensures
            r@ == seq![spec_piece_symbol(*self)],
    {
        proof {
            reveal_strlit("♔");
            reveal_strlit("♕");
            reveal_strlit("♖");
            reveal_strlit("♗");
            reveal_strlit("♘");
            reveal_strlit("♙");
            reveal_strlit("♚");
            reveal_strlit("♛");
            reveal_strlit("♜");
            reveal_strlit("♝");
            reveal_strlit("♞");
            reveal_strlit("♟");
        }
        let s = match (self.player, self.piece_type) {
            (PlayerV::White, PieceTypeV::King) => "♔",
            (PlayerV::White, PieceTypeV::Queen) => "♕",
            (PlayerV::White, PieceTypeV::Rook) => "♖",
            (PlayerV::White, PieceTypeV::Bishop) => "♗",
            (PlayerV::White, PieceTypeV::Knight) => "♘",
            (PlayerV::White, PieceTypeV::Pawn) => "♙",
            (PlayerV::Black, PieceTypeV::King) => "♚",
            (PlayerV::Black, PieceTypeV::Queen) => "♛",
            (PlayerV::Black, PieceTypeV::Rook) => "♜",
            (PlayerV::Black, PieceTypeV::Bishop) => "♝",
            (PlayerV::Black, PieceTypeV::Knight) => "♞",
            (PlayerV::Black, PieceTypeV::Pawn) => "♟",
        };
        let mut r = String::new();
        r.append(s);
        assert(r@ =~= seq![spec_piece_symbol(*self)]);
        r
    }

    /// Reads a piece from its FEN letter or its chess symbol.
    pub fn from_fen(s: &str) -> (r: Result<Piece, ParseError>)
        ensures
            r matches Ok(p) ==> spec_parse_piece(s@) == Some(p),
            r is Err <==> spec_parse_piece(s@) is None,
            r matches Err(e) ==> e == ParseError::Piece,
    {
        if s.unicode_len() != 1 {
            return Err(ParseError::Piece);
        }
        let c = s.get_char(0);
        assert(s@ =~= seq![c]);
        let r = if c == '♔' || c == 'K' {
            Some(Piece::new(PlayerV::White, PieceTypeV::King))
        } else if c == '♕' || c == 'Q' {
            Some(Piece::new(PlayerV::White, PieceTypeV::Queen))
        } else if c == '♖' || c == 'R' {
            Some(Piece::new(PlayerV::White, PieceTypeV::Rook))
        } else if c == '♗' || c == 'B' {
            Some(Piece::new(PlayerV::White, PieceTypeV::Bishop))
        } else if c == '♘' || c == 'N' {
            Some(Piece::new(PlayerV::White, PieceTypeV::Knight))
        } else if c == '♙' || c == 'P' {
            Some(Piece::new(PlayerV::White, PieceTypeV::Pawn))
        } else if c == '♚' || c == 'k' {
            Some(Piece::new(PlayerV::Black, PieceTypeV::King))
        } else if c == '♛' || c == 'q' {
            Some(Piece::new(PlayerV::Black, PieceTypeV::Queen))
        } else if c == '♜' || c == 'r' {
            Some(Piece::new(PlayerV::Black, PieceTypeV::Rook))
        } else if c == '♝' || c == 'b' {
            Some(Piece::new(PlayerV::Black, PieceTypeV::Bishop))
        } else if c == '♞' || c == 'n' {
            Some(Piece::new(PlayerV::Black, PieceTypeV::Knight))
        } else if c == '♟' || c == 'p' {
            Some(Piece::new(PlayerV::Black, PieceTypeV::Pawn))
        } else {
            None
        };
        proof {
            lemma_parse_piece_char(c);
        }
        match r {
            Some(p) => {
                assert(spec_piece_char(p) == c || spec_piece_symbol(p) == c);
                Ok(p)
            },
            None => {
                assert forall|p: Piece| !(spec_piece_char(p) == c || spec_piece_symbol(p) == c) by {
                    match p.player {
                        PlayerV::White => {},
                        PlayerV::Black => {},
                    }
                }
                Err(ParseError::Piece)
            },
        }
    }
}

/// Each character names at most one piece, and `spec_parse_piece` finds it.
proof fn lemma_parse_piece_char(c: char)
    ensures
        forall|p: Piece| (spec_piece_char(p) == c || spec_piece_symbol(p) == c) ==> spec_parse_piece(seq![c]) == Some(p),
        (forall|p: Piece| !(spec_piece_char(p) == c || spec_piece_symbol(p) == c)) ==> spec_parse_piece(seq![c]) is None,
{
    let s = seq![c];
    assert forall|p: Piece| (spec_piece_char(p) == c || spec_piece_symbol(p) == c) implies spec_parse_piece(s) == Some(p) by {
        let q = choose|q: Piece| spec_piece_char(q) == s[0] || spec_piece_symbol(q) == s[0];
        assert(spec_piece_char(q) == c || spec_piece_symbol(q) == c);
        assert(q == p);
    }
}

/// No two pieces share a FEN letter or a symbol, and no letter is a symbol.
proof fn lemma_piece_chars_distinct(p: Piece, q: Piece)
    ensures
        spec_piece_char(q) == spec_piece_char(p) ==> q == p,
        spec_piece_symbol(q) == spec_piece_symbol(p) ==> q == p,
        spec_piece_char(q) != spec_piece_symbol(p),
{
}

/// A piece's symbol reads back as the piece.
pub proof fn law_piece_symbol_parses_back(p: Piece)
    ensures
        spec_parse_piece(seq![spec_piece_symbol(p)]) == Some(p),
{
    let c = spec_piece_symbol(p);
    assert(spec_piece_char(p) == c || spec_piece_symbol(p) == c);
    let q = choose|q: Piece| spec_piece_char(q) == c || spec_piece_symbol(q) == c;
    lemma_piece_chars_distinct(p, q);
}

/// A piece's FEN letter reads back as the piece: `Piece::from_fen` gives back the piece whose
/// `Piece::to_fen` it reads.
pub proof fn law_piece_letter_parses_back(p: Piece)
    ensures
        spec_parse_piece(seq![spec_piece_char(p)]) == Some(p),
{
    let c = spec_piece_char(p);
    assert(spec_piece_char(p) == c || spec_piece_symbol(p) == c);
    let q = choose|q: Piece| spec_piece_char(q) == c || spec_piece_symbol(q) == c;
    lemma_piece_chars_distinct(p, q);
    lemma_piece_chars_distinct(q, p);
}

} // verus!
