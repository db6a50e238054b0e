use skakoui::{Board, Move, PlayerV, Square};

#[test]
fn displaying_a_board_returns_a_unicode_grid() {
    let expected = r#"
  abcdefgh
8 ♜♞♝♛♚♝♞♜ 8
7 ♟♟♟♟♟♟♟♟ 7
6  █ █ █ █ 6
5 █ █ █ █  5
4  █ █ █ █ 4
3 █ █ █ █  3
2 ♙♙♙♙♙♙♙♙ 2
1 ♖♘♗♕♔♗♘♖ 1
  abcdefgh"#
        .trim_matches('\n');

    assert_eq!(Board::default().to_string(), expected);
}

#[test]
fn the_starting_position_has_its_usual_fen() {
    assert_eq!(
        Board::default().to_fen(),
        "rnbqkbnr/pppppppp/8/8/8/8/PPPPPPPP/RNBQKBNR w KQkq"
    );
}

#[test]
fn to_fen_gives_back_what_from_fen_read() {
    for fen in [
        "rnbqkbnr/pppppppp/8/8/4P3/8/PPPP1PPP/RNBQKBNR b KQkq",
        "7k/8/8/8/8/8/8/K7 w -",
        "r3k2r/8/8/8/8/8/8/R3K2R w Kq",
    ] {
        assert_eq!(Board::from_fen(fen).unwrap().to_fen(), fen);
    }
}

#[test]
fn from_fen_reads_back_what_to_fen_wrote() {
    let mut board = Board::default();
    board.make_move(Move::new(Square::E2, Square::E4));
    board.make_move(Move::new(Square::B8, Square::C6));
    assert_eq!(Board::from_fen(&board.to_fen()).unwrap(), board);
}

#[test]
fn fen_url_links_to_an_analysis_board() {
    assert_eq!(
        Board::default().fen_url(),
        "https://lichess.org/analysis/rnbqkbnr/pppppppp/8/8/8/8/PPPPPPPP/RNBQKBNR_w_KQkq"
    );
}

#[test]
fn fen_fields_after_the_castling_rights_are_optional() {
    let board = Board::from_fen("8/8/8/8/8/8/8/K6k b").unwrap();
    assert_eq!(board.player(), PlayerV::Black);
}
