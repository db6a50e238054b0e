use skakoui::{Board, Move, ParseError, Piece, PieceTypeV, PlayerV, Square};

fn fen(fen: &str) -> Board {
    Board::from_fen(fen).unwrap()
}

#[test]
fn can_create_default_chess_board() {
    Board::default();
}

#[test]
fn default_chess_board_has_pieces_in_position() {
    let board = Board::default();

    // Check some known piece positions are right
    assert_eq!(board.get(Square::A1), Some(Piece::new(PlayerV::White, PieceTypeV::Rook)));
    assert_eq!(board.get(Square::A2), Some(Piece::new(PlayerV::White, PieceTypeV::Pawn)));
    assert_eq!(board.get(Square::E8), Some(Piece::new(PlayerV::Black, PieceTypeV::King)));
}

#[test]
fn can_create_board_from_fen_notation() {
    let board = fen("rnbqkbnr/pppppppp/8/8/8/8/PPPPPPPP/RNBQKBNR w KQkq");
    assert_eq!(board, Board::default());
}

#[test]
fn can_make_a_move_on_board() {
    let mut board = Board::default();

    let mov = Move::new(Square::B1, Square::C3);

    board.make_move(mov);

    let expect = fen("rnbqkbnr/pppppppp/8/8/8/2N5/PPPPPPPP/R1BQKBNR b");
    assert_eq!(board, expect);
}

#[test]
fn can_make_a_capturing_move_on_board() {
    let mut board = fen("rnbqkbnr/ppppp1pp/8/1B3p2/8/4P3/PPPP1PPP/RNBQK1NR w");

    let mov = Move::new(Square::B5, Square::D7);

    board.make_move(mov);

    let expected_board = fen("rnbqkbnr/pppBp1pp/8/5p2/8/4P3/PPPP1PPP/RNBQK1NR b");
    assert_eq!(board, expected_board);
}

#[test]
fn can_make_a_promoting_move_on_board() {
    let mut board = fen("rnbqkb1r/ppppp1Pp/8/5p2/6n1/8/PPPPP1PP/RNBQKBNR w");

    let mov = Move::new_promoting(Square::G7, Square::G8, PieceTypeV::Queen);

    board.make_move(mov);

    let expected_board = fen("rnbqkbQr/ppppp2p/8/5p2/6n1/8/PPPPP1PP/RNBQKBNR b");
    assert_eq!(board, expected_board);
}

#[test]
fn can_unmake_a_move_on_board() {
    let mut board = fen("rnbqkb1r/ppppp1Pp/8/5p2/6n1/8/PPPPP1PP/RNBQKBNR w");

    let expected_board = board.clone();

    let mov1 = Move::new_promoting(Square::G7, Square::H8, PieceTypeV::Queen);
    let mov2 = Move::new(Square::H7, Square::H5);
    let mov3 = Move::new(Square::H8, Square::H5);

    let pmov1 = board.make_move(mov1);
    let pmov2 = board.make_move(mov2);
    let pmov3 = board.make_move(mov3);
    board.unmake_move(pmov3);
    board.unmake_move(pmov2);
    board.unmake_move(pmov1);

    assert_eq!(board, expected_board);
}

#[test]
fn white_can_castle_kingside() {
    let mut board = fen("8/8/8/8/8/8/8/4K2R w K");
    board.make_move(Move::castle_kingside(PlayerV::White));

    let expect = fen("8/8/8/8/8/8/8/5RK1 b -");
    assert_eq!(board, expect);
}

#[test]
fn black_can_castle_kingside() {
    let mut board = fen("4k2r/8/8/8/8/8/8/8 b k");
    board.make_move(Move::castle_kingside(PlayerV::Black));

    let expect = fen("5rk1/8/8/8/8/8/8/8 w -");
    assert_eq!(board, expect);
}

#[test]
fn white_can_castle_queenside() {
    let mut board = fen("8/8/8/8/8/8/8/R3K3 w Q");
    board.make_move(Move::castle_queenside(PlayerV::White));

    let expect = fen("8/8/8/8/8/8/8/2KR4 b -");
    assert_eq!(board, expect);
}

#[test]
fn black_can_castle_queenside() {
    let mut board = fen("r3k3/8/8/8/8/8/8/8 b q");
    board.make_move(Move::castle_queenside(PlayerV::Black));

    let expect = fen("2kr4/8/8/8/8/8/8/8 w -");
    assert_eq!(board, expect);
}

#[test]
fn moving_king_removes_castling_right() {
    let mut board = fen("r3k2r/8/8/8/8/8/8/8 b kq");
    let expect = fen("r4k1r/8/8/8/8/8/8/8 w -");
    board.make_move(Move::new(Square::E8, Square::F8));
    assert_eq!(board, expect);
}

#[test]
fn moving_kingside_rook_removes_castling_right_kingside() {
    let mut board = fen("r3k2r/8/8/8/8/8/8/8 b kq");
    let expect = fen("r3k1r1/8/8/8/8/8/8/8 w q");
    board.make_move(Move::new(Square::H8, Square::G8));
    assert_eq!(board, expect);
}

#[test]
fn moving_queenside_rook_removes_castling_right_queenside() {
    let mut board = fen("r3k2r/8/8/8/8/8/8/8 b kq");
    let expect = fen("1r2k2r/8/8/8/8/8/8/8 w k");
    board.make_move(Move::new(Square::A8, Square::B8));
    assert_eq!(board, expect);
}

#[test]
fn capturing_kingside_rook_removes_castling_right_kingside() {
    let mut board = fen("r3k2r/7Q/8/8/8/8/8/8 w kq");
    let expect = fen("r3k2Q/8/8/8/8/8/8/8 b q");
    board.make_move(Move::new(Square::H7, Square::H8));
    assert_eq!(board, expect);
}

#[test]
fn capturing_queenside_rook_removes_castling_right_queenside() {
    let mut board = fen("r3k2r/Q7/8/8/8/8/8/8 w kq");
    let expect = fen("Q3k2r/8/8/8/8/8/8/8 b k");
    board.make_move(Move::new(Square::A7, Square::A8));
    assert_eq!(board, expect);
}

#[test]
fn fen_errors_name_what_is_wrong() {
    assert_eq!(Board::from_fen("").unwrap_err(), ParseError::ExpectedPieces);
    assert_eq!(Board::from_fen("8/8/8/8/8/8/8/8").unwrap_err(), ParseError::ExpectedPlayer);
    assert_eq!(Board::from_fen("8/8/8/8/8/8/8/8 x").unwrap_err(), ParseError::Player);
    assert_eq!(Board::from_fen("8/8/8/8/8/8/8/9 w").unwrap_err(), ParseError::TooManySquares);
    assert_eq!(Board::from_fen("8/8/8/8/8/8/8/7 w").unwrap_err(), ParseError::TooFewSquares);
    assert_eq!(Board::from_fen("8/8/8/8/8/8/8 w").unwrap_err(), ParseError::TooFewRanks);
    assert_eq!(Board::from_fen("8/8/8/8/8/8/8/8/8 w").unwrap_err(), ParseError::TooManyRanks);
}

#[test]
fn castling_rights_without_their_pieces_are_dropped() {
    let board = fen("8/8/8/8/8/8/8/4K2R w KQkq");
    assert_eq!(board.flags().0, 0b1000_0000);
    let board = fen("8/8/8/8/8/8/8/4K2R w");
    assert!(board.flags().is_set(0b1000_0000));
    assert!(!board.flags().is_set(0b0111_0000));
}

#[test]
fn eval_counts_material_for_the_side_to_move() {
    assert_eq!(Board::default().eval(), 0);
    let board = fen("4k3/8/8/8/8/8/8/Q3K3 w");
    assert_eq!(board.eval(), 900);
    let board = fen("4k3/8/8/8/8/8/8/Q3K3 b");
    assert_eq!(board.eval(), -900);
}

#[test]
fn when_making_an_en_passant_move_the_pawn_is_taken() {
    let mut board = fen("8/8/8/8/1p6/8/P7/8 w");

    board.make_move(Move::new(Square::A2, Square::A4));

    let en_passant = Move::new(Square::B4, Square::A3);
    board.make_move(en_passant);

    let expected_board = fen("8/8/8/8/8/p7/8/8 w");
    assert_eq!(board, expected_board);
}

#[test]
fn unmaking_an_en_passant_move_puts_the_taken_pawn_back() {
    let mut board = fen("8/8/8/8/1p6/8/P7/8 w");
    board.make_move(Move::new(Square::A2, Square::A4));
    let before = board.clone();
    let played = board.make_move(Move::new(Square::B4, Square::A3));
    assert!(played.en_passant_capture);
    assert_eq!(board.get(Square::A4), None);
    board.unmake_move(played);
    assert_eq!(board, before);
}
