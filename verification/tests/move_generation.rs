use std::collections::HashSet;

use skakoui::{Bitboard, Board, Move, PlayerV, Square};

fn fen(fen: &str) -> Board {
    Board::from_fen(fen).unwrap()
}

fn mov(s: &str) -> Move {
    s.parse::<Move>().unwrap()
}

fn assert_moves(board: &mut Board, expected: &[&str]) {
    let mut moves: Vec<Move> = board.moves();
    moves.sort();

    let mut expected_moves: Vec<Move> = expected.iter().map(|s| mov(s)).collect();
    expected_moves.sort();

    assert_eq!(moves, expected_moves, "\n{:?}", board);
}

fn board_of(rows: [&str; 8]) -> Bitboard {
    let mut bitboard = Bitboard(0);
    for (r, row) in rows.iter().enumerate() {
        let rank = 7 - r;
        for (f, c) in row.split_whitespace().enumerate() {
            if c == "X" {
                bitboard.set(Square::from_index((rank * 8 + f) as u8));
            }
        }
    }
    bitboard
}

#[test]
fn can_generate_all_possible_starting_moves_for_white() {
    let mut board = Board::default();

    assert_moves(
        &mut board,
        &[
            "a2a3", "b2b3", "c2c3", "d2d3", "e2e3", "f2f3", "g2g3", "h2h3", "a2a4", "b2b4", "c2c4", "d2d4", "e2e4",
            "f2f4", "g2g4", "h2h4", "b1a3", "b1c3", "g1h3", "g1f3",
        ],
    );
}

#[test]
fn can_generate_all_possible_starting_moves_for_black() {
    let mut board = Board::default();
    board.make_move(mov("a2a3"));

    assert_moves(
        &mut board,
        &[
            "a7a6", "b7b6", "c7c6", "d7d6", "e7e6", "f7f6", "g7g6", "h7h6", "a7a5", "b7b5", "c7c5", "d7d5", "e7e5",
            "f7f5", "g7g5", "h7h5", "b8a6", "b8c6", "g8h6", "g8f6",
        ],
    );
}

#[test]
fn cannot_make_a_move_that_leaves_king_in_check() {
    let mut board = fen("8/8/8/8/8/8/KP5r/8 w");
    // Note that the pawn is not allowed to move
    assert_moves(&mut board, &["a2a1", "a2b1", "a2a3", "a2b3"]);
}

#[test]
fn when_checked_by_unprotected_adjacent_pc_then_king_can_move_capture_or_other_can_capture() {
    let mut board = fen("n7/k7/BP6/8/8/8/8/8 b");
    assert_moves(&mut board, &["a7b8", "a7a6", "a7b6", "a8b6"]);
}

#[test]
fn when_checked_by_protected_adjacent_pc_then_king_can_move_or_other_can_capture() {
    let mut board = fen("n7/k7/BP6/P7/8/8/8/8 b");
    assert_moves(&mut board, &["a7b8", "a7a6", "a8b6"]);
}

#[test]
fn when_checked_by_distant_ray_piece_then_king_can_move_or_other_can_block_or_capture() {
    let mut board = fen("kb6/8/8/8/8/8/R7/r7 b");
    assert_moves(&mut board, &["a8b7", "b8a7", "a1a2"]);
}

#[test]
fn when_checked_by_knight_then_king_can_move_or_other_can_capture() {
    let mut board = fen("k7/b7/1N6/8/8/8/8/8 b");
    assert_moves(&mut board, &["a8b8", "a8b7", "a7b6"]);
}

#[test]
fn when_double_checked_by_distant_pieces_then_king_can_move() {
    let mut board = fen("k1R5/8/2n5/R7/8/8/8/8 b");
    assert_moves(&mut board, &["a8b7"]);
}

#[test]
fn when_double_checked_by_adjacent_unprotected_pieces_then_king_can_move_or_capture() {
    let mut board = fen("kR6/1Bq5/8/8/8/8/8/8 b");
    assert_moves(&mut board, &["a8a7", "a8b8"]);
}

#[test]
fn absolute_pinned_pieces_can_only_move_along_pinned_ray() {
    let mut board = fen("3R2Q1/1Q1r1q2/2n5/Rp1kb2R/8/3p1b2/8/3R3B b");
    assert_moves(
        &mut board,
        &[
            "d7d8", "d7d6", "f7g8", "f7e6", "f3h1", "f3g2", "f3e4", "d3d2", "d5d6", "d5e6", "d5e4", "d5d4", "d5c4",
            "d5c5",
        ],
    );
}

#[test]
fn capturing_moves_are_all_pseudo_legal_moves_that_capture_a_piece() {
    let mut board = fen("8/8/8/8/1b1N4/1Q6/p3n3/8 w");
    let capturing_moves: HashSet<Move> = board.capturing_moves(PlayerV::White).into_iter().collect();

    let mut expected: HashSet<Move> = HashSet::new();
    for mov in board.pseudo_legal_moves() {
        let pieces_before = board.occupancy().count();
        let pmov = board.make_move(mov);
        let pieces_after = board.occupancy().count();
        board.unmake_move(pmov);
        if pieces_before != pieces_after {
            expected.insert(mov);
        }
    }

    assert_eq!(capturing_moves, expected);
}

#[test]
fn attacked_squares_are_all_squares_that_could_be_captured() {
    let board = fen("8/5P2/K7/8/8/2Q5/1R4BN/8 w");
    let expect = board_of([
        "X X X . X . X X",
        "X X X . . . X .",
        ". X X . . X . .",
        "X X X X X . . .",
        ". X X X X . X .",
        "X X . X X X X X",
        "X X X X X X X .",
        ". X X . X X . X",
    ]);
    let attacks = board.attacks(PlayerV::White);
    assert_eq!(attacks, expect);
}

#[test]
fn bishop_can_move_and_capture_diagonally() {
    let mut board = fen("8/8/8/2p5/2P5/1B6/8/3b4 w");
    assert_moves(&mut board, &["b3d1", "b3a2", "b3c2", "b3a4"]);
}

#[test]
fn king_can_move_and_capture_one_square_in_any_direction() {
    let mut board = fen("8/8/8/8/8/1Kp5/2P5/8 w");
    // b3b2 is missing because it puts the king in check
    assert_moves(&mut board, &["b3a2", "b3a3", "b3c3", "b3a4", "b3b4", "b3c4"]);
}

#[test]
fn king_can_castle() {
    let mut board = fen("8/8/8/8/8/8/r6r/R3K2R w");
    assert_moves(
        &mut board,
        &["e1c1", "e1g1", "e1d1", "e1f1", "a1b1", "a1c1", "a1d1", "a1a2", "h1g1", "h1f1", "h1h2"],
    );
    let mut board = fen("r3k2r/R6R/8/8/8/8/8/8 b");
    assert_moves(
        &mut board,
        &["e8c8", "e8g8", "e8d8", "e8f8", "a8b8", "a8c8", "a8d8", "a8a7", "h8g8", "h8f8", "h8h7"],
    );
}

#[test]
fn king_cannot_castle_out_of_check() {
    let mut board = fen("8/8/8/8/8/8/r2q3r/R3K2R w");
    assert_moves(&mut board, &["e1f1"]);
    let mut board = fen("r3k2r/R2Q3R/8/8/8/8/8/8 b");
    assert_moves(&mut board, &["e8f8"]);
}

#[test]
fn king_cannot_castle_into_check() {
    let mut board = fen("8/8/8/8/8/8/r6p/R3K2R w");
    assert_moves(
        &mut board,
        &["e1c1", "e1d1", "e1f1", "a1b1", "a1c1", "a1d1", "a1a2", "h1g1", "h1f1", "h1h2"],
    );
    let mut board = fen("r3k2r/RP5R/8/8/8/8/8/8 b");
    assert_moves(
        &mut board,
        &["e8g8", "e8d8", "e8f8", "a8b8", "a8c8", "a8d8", "a8a7", "h8g8", "h8f8", "h8h7"],
    );
}

#[test]
fn knight_can_move_and_capture_in_its_weird_way() {
    let mut board = fen("8/8/2p5/2P5/3p4/1N6/8/8 w");
    assert_moves(&mut board, &["b3a1", "b3c1", "b3d2", "b3d4", "b3a5"]);
}

#[test]
fn pawn_cannot_move_at_end_of_board() {
    // Such a situation is impossible in normal chess, but it's an edge case that could cause
    // something to go out of bounds.
    let mut board = fen("8/8/8/8/8/8/8/p7 b");
    assert_moves(&mut board, &[]);
}

#[test]
fn pawn_cannot_capture_piece_directly_in_front_of_it() {
    let mut board = fen("8/5p2/5N2/3p1N2/3Q4/8/8/8 b");
    assert_moves(&mut board, &[]);
}

#[test]
fn pawn_can_capture_pieces_on_diagonal() {
    let mut board = fen("8/8/8/3p4/2NPN3/8/8/8 b");
    assert_moves(&mut board, &["d5c4", "d5e4"]);
}

#[test]
fn pawn_cannot_capture_same_player_pieces() {
    let mut board = fen("8/8/8/3p4/3Pp3/4P3/8/8 b");
    assert_moves(&mut board, &[]);
}

#[test]
fn pawn_cannot_double_push_if_blocked() {
    let mut board = fen("8/8/8/8/8/p7/P7/8 w");
    assert_moves(&mut board, &[]);
}

#[test]
fn pawn_cannot_double_push_when_not_at_initial_position() {
    let mut board = fen("8/8/8/8/8/P7/8/8 w");
    assert_moves(&mut board, &["a3a4"]);
}

#[test]
fn pawn_can_be_promoted_at_end_of_board() {
    let mut board = fen("8/P7/8/8/8/8/8/8 w");
    assert_moves(&mut board, &["a7a8N", "a7a8B", "a7a8R", "a7a8Q"]);
}

#[test]
fn pawn_can_capture_and_promote_at_end_of_board() {
    let mut board = fen("nq6/P7/8/8/8/8/8/8 w");
    assert_moves(&mut board, &["a7b8N", "a7b8B", "a7b8R", "a7b8Q"]);
}

#[test]
fn queen_can_move_and_capture_in_all_directions() {
    let mut board = fen("8/8/1p6/2p5/2P5/1QP5/8/3b4 w");
    assert_moves(
        &mut board,
        &["b3d1", "b3a2", "b3c2", "b3a4", "b3a3", "b3b1", "b3b2", "b3b4", "b3b5", "b3b6"],
    );
}

#[test]
fn rook_can_move_and_capture_along_rank_and_file() {
    let mut board = fen("8/8/1p6/1P6/8/1Rq5/8/8 w");
    assert_moves(&mut board, &["b3b1", "b3b2", "b3a3", "b3c3", "b3b4"]);
}

#[test]
fn a_king_in_check_with_no_legal_move_is_checkmated() {
    let mut board = fen("k7/1Q6/1K6/8/8/8/8/8 b");
    assert!(board.check(PlayerV::Black));
    assert!(board.checkmate());
    let mut board = fen("k7/8/1K6/8/8/8/8/1Q6 b");
    assert!(!board.check(PlayerV::Black));
    assert!(!board.checkmate());
}

#[test]
fn an_illegal_move_leaves_the_board_as_it_was() {
    let mut board = fen("8/8/8/8/8/8/KP5r/8 w");
    let before = board.clone();
    assert!(board.make_if_legal(mov("b2b3")).is_none());
    assert_eq!(board, before);
    assert!(!board.check_legal(mov("b2b4")));
    assert!(board.check_legal(mov("a2a3")));
    assert_eq!(board, before);
}

/// Positions with checks, pins, castling rights and promotions.
fn varied_positions() -> Vec<Board> {
    [
        "rnbqkbnr/pppppppp/8/8/8/8/PPPPPPPP/RNBQKBNR w KQkq",
        "r3k2r/p1ppqpb1/bn2pnp1/3PN3/1p2P3/2N2Q1p/PPPBBPPP/R3K2R w KQkq",
        "8/2p5/3p4/KP5r/1R3p1k/8/4P1P1/8 w",
        "r3k2r/Pppp1ppp/1b3nbN/nP6/BBP1P3/q4N2/Pp1P2PP/R2Q1RK1 w kq",
        "4k3/8/8/8/8/8/4r3/4K3 w",
        "3k4/8/8/q7/8/8/3B4/4K3 w",
    ]
    .iter()
    .map(|f| Board::from_fen(f).unwrap())
    .collect()
}

#[test]
fn legal_moves_never_leave_king_in_check() {
    for mut board in varied_positions() {
        let me = board.player();
        for mov in board.moves() {
            let pmov = board.make_move(mov);
            assert!(!board.check(me), "{} leaves the king in check", mov.to_string());
            board.unmake_move(pmov);
        }
    }
}

#[test]
fn legal_moves_can_be_unmade() {
    for mut board in varied_positions() {
        let before = board;
        for mov in board.moves() {
            let pmov = board.make_move(mov);
            board.unmake_move(pmov);
            assert_eq!(board, before);
        }
    }
}

#[test]
fn move_lists_hold_each_move_once() {
    for mut board in varied_positions() {
        for list in [board.moves(), board.pseudo_legal_moves()] {
            let set: HashSet<Move> = list.iter().copied().collect();
            assert_eq!(set.len(), list.len());
        }
    }
}

#[test]
fn every_pseudo_legal_castle_is_one_make_if_legal_plays() {
    let mut board = Board::from_fen("r3k2r/8/8/8/8/8/8/R3K2R w KQkq").unwrap();
    for mov in [Move::new(Square::E1, Square::G1), Move::new(Square::E1, Square::C1)] {
        assert!(board.pseudo_legal_moves().contains(&mov));
        assert!(board.moves().contains(&mov));
        let before = board.clone();
        let played = board.make_if_legal(mov).unwrap();
        assert_eq!(board.get(Square::E1), None);
        board.unmake_move(played);
        assert_eq!(board, before);
    }
}

#[test]
fn pawn_can_take_another_pawn_en_passant_immediately_after_double_push() {
    let mut board = fen("8/8/8/8/1p6/1N6/P7/8 w");
    board.make_move(mov("a2a4"));
    assert_moves(&mut board, &["b4a3"]);
}

#[test]
fn pawn_cannot_take_another_pawn_en_passant_in_other_situations() {
    let mut board = fen("8/8/8/8/1p6/PN6/8/8 w");
    board.make_move(mov("a3a4"));
    assert_moves(&mut board, &[]);
}

#[test]
fn the_right_to_take_en_passant_lasts_one_move_and_counts_as_a_capture() {
    let mut board = fen("4k3/8/8/8/1p6/8/P7/4K3 w");
    let played = board.make_move(mov("a2a4"));
    assert_eq!(board.flags().0 & 0x0f, 0x08);
    assert!(board.capturing_moves(board.player()).contains(&mov("b4a3")));
    board.unmake_move(played);
    assert_eq!(board, fen("4k3/8/8/8/1p6/8/P7/4K3 w"));
    board.make_move(mov("a2a4"));
    board.make_move(mov("e8d8"));
    board.make_move(mov("e1d1"));
    assert!(!board.moves().contains(&mov("b4a3")));
}
