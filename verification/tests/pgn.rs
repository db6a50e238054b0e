use skakoui::pgn::Algebraic;
use skakoui::{Board, File, Move, ParseError, PieceTypeV, Rank, Square};

fn fen(fen: &str) -> Board {
    Board::from_fen(fen).unwrap()
}

#[test]
fn algebraic_moves_read_their_parts() {
    assert_eq!(
        Algebraic::parse("Nbxd7").unwrap(),
        Algebraic::Move {
            piece_type: PieceTypeV::Knight,
            source_file: Some(File::B),
            source_rank: None,
            capturing: true,
            target: Square::D7,
            promoting: None,
        }
    );
    assert_eq!(
        Algebraic::parse("e8Q").unwrap(),
        Algebraic::Move {
            piece_type: PieceTypeV::Pawn,
            source_file: None,
            source_rank: None,
            capturing: false,
            target: Square::E8,
            promoting: Some(PieceTypeV::Queen),
        }
    );
    assert_eq!(
        Algebraic::parse("R1a3").unwrap(),
        Algebraic::Move {
            piece_type: PieceTypeV::Rook,
            source_file: None,
            source_rank: Some(Rank::_1),
            capturing: false,
            target: Square::A3,
            promoting: None,
        }
    );
}

#[test]
fn castling_reads_as_castling() {
    assert_eq!(Algebraic::parse("O-O").unwrap(), Algebraic::CastleKingside);
    assert_eq!(Algebraic::parse("O-O-O").unwrap(), Algebraic::CastleQueenside);
    assert_eq!(Algebraic::parse("0-0-0").unwrap(), Algebraic::CastleQueenside);
    assert_eq!(
        Algebraic::parse("Nf3").unwrap(),
        Algebraic::Move {
            piece_type: PieceTypeV::Knight,
            source_file: None,
            source_rank: None,
            capturing: false,
            target: Square::F3,
            promoting: None,
        }
    );
}

#[test]
fn text_that_is_no_algebraic_move_is_refused() {
    assert_eq!(Algebraic::parse("hello"), Err(ParseError::Algebraic));
    assert_eq!(Algebraic::parse(""), Err(ParseError::Algebraic));
}

#[test]
fn algebraic_moves_are_written_as_read() {
    for text in ["Nbxd7", "R1a3", "Qh4", "O-O", "O-O-O"] {
        assert_eq!(Algebraic::parse(text).unwrap().to_string(), text);
    }
    assert_eq!(Algebraic::CastleQueenside.to_string(), "O-O-O");
}

#[test]
fn algebraic_moves_find_the_move_on_the_board() {
    let mut board = Board::default();
    assert_eq!(
        Algebraic::parse("Nf3").unwrap().to_move(&mut board),
        Some(Move::new(Square::G1, Square::F3))
    );
    assert_eq!(
        Algebraic::parse("e4").unwrap().to_move(&mut board),
        Some(Move::new(Square::E2, Square::E4))
    );
    assert_eq!(Algebraic::parse("e5").unwrap().to_move(&mut board), None);
    assert_eq!(board, Board::default());
}

#[test]
fn source_file_picks_between_two_pieces() {
    let mut board = fen("7k/8/8/8/8/8/8/R4R1K w");
    assert_eq!(
        Algebraic::parse("Rfd1").unwrap().to_move(&mut board),
        Some(Move::new(Square::F1, Square::D1))
    );
    assert_eq!(
        Algebraic::parse("Rad1").unwrap().to_move(&mut board),
        Some(Move::new(Square::A1, Square::D1))
    );
}

#[test]
fn castling_gives_the_kings_move() {
    let mut board = fen("r3k2r/8/8/8/8/8/8/R3K2R b KQkq");
    assert_eq!(
        Algebraic::CastleKingside.to_move(&mut board),
        Some(Move::new(Square::E8, Square::G8))
    );
    assert_eq!(
        Algebraic::CastleQueenside.to_move(&mut board),
        Some(Move::new(Square::E8, Square::C8))
    );
}
