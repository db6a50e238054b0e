use skakoui::{Move, Piece, PieceTypeV, PlayerV, Square};

#[test]
fn can_create_a_move_from_piece_and_two_squares() {
    let mov = Move::new(Square::A2, Square::A3);
    assert_eq!(mov.from(), Square::A2);
    assert_eq!(mov.to(), Square::A3);
    assert_eq!(mov.promoting(), None);
}

#[test]
fn can_create_a_promoting_move() {
    let mov = Move::new_promoting(Square::A2, Square::A3, PieceTypeV::Knight);
    assert_eq!(mov.from(), Square::A2);
    assert_eq!(mov.to(), Square::A3);
    assert_eq!(mov.promoting(), Some(PieceTypeV::Knight));
}

#[test]
fn displaying_a_move_returns_move_notation() {
    let mov = Move::new(Square::A2, Square::A3);
    assert_eq!("a2a3", mov.to_string());
}

#[test]
fn move_to_string_is_inverse_of_parse() {
    let mov = Move::new(Square::B1, Square::C3);

    assert_eq!(mov.to_string().parse::<Move>().unwrap(), mov);
    assert_eq!("a7a8Q".parse::<Move>().unwrap().to_string(), "a7a8Q");
}

#[test]
fn move_parse_on_non_move_string_is_none() {
    assert!("PA8".parse::<Move>().is_err())
}

#[test]
fn castling_moves_go_two_files_from_the_king() {
    assert_eq!(Move::castle_kingside(PlayerV::White).to_string(), "e1g1");
    assert_eq!(Move::castle_queenside(PlayerV::Black).to_string(), "e8c8");
}

#[test]
fn displaying_a_piece_returns_unicode() {
    assert_eq!("♔", Piece::new(PlayerV::White, PieceTypeV::King).to_string());
}

#[test]
fn piece_to_string_is_inverse_of_parse() {
    let bq = Piece::new(PlayerV::Black, PieceTypeV::Queen);
    assert_eq!(bq.to_string().parse::<Piece>().unwrap(), bq.value());
    assert_eq!("♖".parse::<Piece>().unwrap().to_string(), "♖");
}

#[test]
fn piece_parse_on_non_piece_string_is_none() {
    assert!("g".parse::<Piece>().is_err());
}

#[test]
fn can_get_player_for_a_piece() {
    assert_eq!(Piece::new(PlayerV::White, PieceTypeV::King).player, PlayerV::White);
    assert_eq!(Piece::new(PlayerV::Black, PieceTypeV::Bishop).player, PlayerV::Black);
}

#[test]
fn can_get_type_for_a_piece() {
    assert_eq!(Piece::new(PlayerV::White, PieceTypeV::King).piece_type, PieceTypeV::King);
    assert_eq!(Piece::new(PlayerV::Black, PieceTypeV::Bishop).piece_type, PieceTypeV::Bishop);
}

#[test]
fn can_create_piece_from_player_and_type() {
    assert_eq!(
        Piece::new(PlayerV::Black, PieceTypeV::Rook),
        Piece { player: PlayerV::Black, piece_type: PieceTypeV::Rook }
    );
}

#[test]
fn pieces_read_from_fen_letters() {
    assert_eq!("n".parse::<Piece>().unwrap(), Piece::new(PlayerV::Black, PieceTypeV::Knight));
    assert_eq!(Piece::new(PlayerV::White, PieceTypeV::Pawn).to_fen(), "P");
    assert_eq!("b".parse::<PlayerV>().unwrap(), PlayerV::Black);
    assert!("x".parse::<PlayerV>().is_err());
}

#[test]
fn every_piece_letter_and_symbol_parses_back() {
    for player in [PlayerV::White, PlayerV::Black] {
        for piece_type in [
            PieceTypeV::King,
            PieceTypeV::Queen,
            PieceTypeV::Rook,
            PieceTypeV::Bishop,
            PieceTypeV::Knight,
            PieceTypeV::Pawn,
        ] {
            let piece = Piece::new(player, piece_type);
            assert_eq!(Piece::from_fen(&piece.to_string()), Ok(piece));
            assert_eq!(Piece::from_fen(&piece.to_fen()), Ok(piece));
        }
    }
}

#[test]
fn moves_with_every_promotion_parse_back() {
    for promotion in [None, Some(PieceTypeV::Queen), Some(PieceTypeV::Knight), Some(PieceTypeV::King)] {
        let mov = Move { from: Square::A7, to: Square::B8, promoting: promotion };
        assert_eq!(Move::parse(&mov.to_string()), Ok(mov));
    }
}
