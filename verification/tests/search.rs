use skakoui::perft::GameState;
use skakoui::search::ttable::{Node, NodeType, TranspositionTable};
use skakoui::search::order::in_order;
use skakoui::search::tree::SearchTree;
use skakoui::search::{AbortSignal, ThreadSearcher};
use skakoui::{Board, Move, Square};

fn fen(fen: &str) -> Board {
    Board::from_fen(fen).unwrap()
}

struct NoAbort;

impl AbortSignal for NoAbort {
    fn abort_requested(&mut self) -> bool {
        false
    }
}

struct AbortAtOnce;

impl AbortSignal for AbortAtOnce {
    fn abort_requested(&mut self) -> bool {
        true
    }
}

#[test]
fn searcher_finds_a_mate_in_one() {
    let mut board = fen("6k1/5ppp/8/8/8/8/8/R6K w");
    let mut table = TranspositionTable::new(1 << 16);
    let mut searcher = ThreadSearcher::new(NoAbort, Some(2));
    searcher.run(&mut board, &mut table);
    let pv = table.principal_variation(&mut board);
    let mov = pv[0];
    assert_eq!(mov, Move::new(Square::A1, Square::A8));
    board.make_move(mov);
    assert!(board.checkmate());
}

#[test]
fn searcher_finds_a_mate_in_one_for_black() {
    let mut board = fen("r6k/8/8/8/8/8/5PPP/6K1 b");
    let mut table = TranspositionTable::new(1 << 16);
    let mut searcher = ThreadSearcher::new(NoAbort, Some(2));
    searcher.run(&mut board, &mut table);
    let pv = table.principal_variation(&mut board);
    assert_eq!(pv[0], Move::new(Square::A8, Square::A1));
}

#[test]
fn a_search_leaves_the_board_as_it_was() {
    let mut board = Board::default();
    let mut table = TranspositionTable::new(1 << 12);
    let mut searcher = ThreadSearcher::new(NoAbort, Some(3));
    searcher.run(&mut board, &mut table);
    assert_eq!(board, Board::default());
    assert_eq!(table.len(), 1 << 12);
}

#[test]
fn an_aborted_search_stops_at_once_and_the_line_starts_with_a_legal_move() {
    let mut board = Board::default();
    let mut table = TranspositionTable::new(1 << 10);
    let mut searcher = ThreadSearcher::new(AbortAtOnce, None);
    searcher.run(&mut board, &mut table);
    let pv = table.principal_variation(&mut board);
    assert!(board.moves().contains(&pv[0]));
}

#[test]
fn a_stored_node_is_found_again_under_its_key() {
    let board = Board::default();
    let mut table = TranspositionTable::new(1000);
    assert_eq!(table.get(&board.key()), None);
    let node = Node { depth: 3, node_type: NodeType::Cut, value: -250 };
    table.insert(board.key(), node);
    assert_eq!(table.get(&board.key()), Some(node));
    let other = Node { depth: 1, node_type: NodeType::PV, value: 7 };
    table.insert(board.key(), other);
    assert_eq!(table.get(&board.key()), Some(other));
}

#[test]
fn nodes_survive_their_encoding() {
    for node in [
        Node { depth: 0, node_type: NodeType::PV, value: 0 },
        Node { depth: 65535, node_type: NodeType::All, value: -2147483647 },
        Node { depth: 12, node_type: NodeType::Cut, value: 2147483647 },
    ] {
        assert_eq!(Node::from_u64(node.to_u64()), node);
    }
    assert_eq!(
        Node { depth: 1, node_type: NodeType::Cut, value: -1 }.to_u64(),
        0x0001_0001_ffff_ffff
    );
}

#[test]
fn perft_counts_the_move_sequences_from_the_start() {
    let mut board = Board::default();
    assert_eq!(board.perft(0), 1);
    assert_eq!(board.perft(1), 20);
    assert_eq!(board.perft(2), 400);
    assert_eq!(board.perft(3), 8902);
    assert_eq!(board, Board::default());
}

#[test]
fn perft_counts_castling_and_promotions() {
    let mut board = fen("r3k2r/8/8/8/8/8/8/R3K2R w KQkq");
    assert_eq!(board.perft(1), 26);
    let mut promote = fen("7k/P7/8/8/8/8/8/K7 w");
    assert_eq!(promote.perft(1), 3 + 4);
}

#[test]
fn a_game_takes_its_moves_back_in_reverse_order() {
    let mut game = GameState::new(Board::default());
    game.push_move(Move::new(Square::E2, Square::E4));
    game.push_move(Move::new(Square::E7, Square::E5));
    assert_eq!(
        game.moves(),
        vec![Move::new(Square::E2, Square::E4), Move::new(Square::E7, Square::E5)]
    );
    assert_eq!(game.pop(), Some(Move::new(Square::E7, Square::E5)));
    assert_eq!(game.pop(), Some(Move::new(Square::E2, Square::E4)));
    assert_eq!(game.pop(), None);
    assert_eq!(game.board, Board::default());
}

#[test]
fn the_search_tree_holds_what_the_table_recorded() {
    let mut board = Board::default();
    let mut table = TranspositionTable::new(1 << 12);
    let empty = SearchTree::from_table(&mut board, &table, 3);
    assert!(empty.node.is_none() && empty.children.is_empty());

    let mut searcher = ThreadSearcher::new(NoAbort, Some(2));
    searcher.run(&mut board, &mut table);
    let tree = SearchTree::from_table(&mut board, &table, 2);
    assert!(tree.node.is_some());
    assert!(!tree.children.is_empty());
    let names: Vec<String> = board.moves().iter().map(|m| m.to_string()).collect();
    assert!(tree.children.iter().all(|(name, _)| names.contains(name)));
    assert_eq!(board, Board::default());
}

#[test]
fn a_checkmated_side_scores_a_loss_and_the_table_records_it() {
    let mut board = fen("R5k1/5ppp/8/8/8/8/8/7K b");
    let mut table = TranspositionTable::new(1 << 10);
    let mut searcher = ThreadSearcher::new(NoAbort, Some(2));
    searcher.max_depth = 1;
    let player = board.player();
    let value = searcher.search(&mut board, &mut table, player, 1, -2147483647, 2147483647);
    assert_eq!(value, -1_000_000);
    let node = table.get(&board.key()).unwrap();
    assert_eq!(node, Node { depth: 1, node_type: NodeType::PV, value: -1_000_000 });
}

#[test]
fn a_stalemated_side_scores_a_draw_and_a_low_window_records_a_lower_bound() {
    let mut board = fen("7k/5Q2/6K1/8/8/8/8/8 b");
    let mut table = TranspositionTable::new(1 << 10);
    let mut searcher = ThreadSearcher::new(NoAbort, Some(2));
    searcher.max_depth = 1;
    let player = board.player();
    let value = searcher.search(&mut board, &mut table, player, 1, -100, -50);
    assert_eq!(value, 0);
    let node = table.get(&board.key()).unwrap();
    assert_eq!(node, Node { depth: 1, node_type: NodeType::Cut, value: 0 });
}

#[test]
fn quiescence_takes_the_better_of_standing_and_capturing() {
    let mut board = fen("4k3/8/8/3q4/8/8/8/3RK3 w");
    let mut searcher = ThreadSearcher::new(NoAbort, None);
    let player = board.player();
    assert_eq!(board.eval(), -400);
    assert_eq!(searcher.quiesce(&mut board, player, -2147483647, 2147483647, 0), 500);
    // the capture reaches beta: its value comes back
    assert_eq!(searcher.quiesce(&mut board, player, -2147483647, 300, 0), 500);
    // the stand-pat reaches beta: beta comes back
    assert_eq!(searcher.quiesce(&mut board, player, -2147483647, -500, 0), -500);
    // alpha above everything: alpha comes back
    assert_eq!(searcher.quiesce(&mut board, player, 600, 700, 0), 600);
    assert_eq!(board, fen("4k3/8/8/3q4/8/8/8/3RK3 w"));
}

#[test]
fn quiescence_without_a_capture_stands_on_the_position_and_a_mate_scores_a_loss() {
    let mut board = fen("4k3/8/8/8/8/8/8/3QK3 w");
    let mut searcher = ThreadSearcher::new(NoAbort, None);
    let player = board.player();
    assert_eq!(searcher.quiesce(&mut board, player, -2147483647, 2147483647, 0), 900);
    assert_eq!(searcher.quiesce(&mut board, player, 1000, 2000, 0), 1000);
    let mut mated = fen("R5k1/5ppp/8/8/8/8/8/7K b");
    let player = mated.player();
    assert_eq!(searcher.quiesce(&mut mated, player, -2147483647, 2147483647, 0), -1_000_000);
    assert_eq!(searcher.quiesce(&mut mated, player, -2147483647, 2147483647, -3), mated.eval());
}

#[test]
fn the_line_follows_the_best_recorded_child_and_falls_back_to_a_legal_move() {
    let mut board = Board::default();
    let table_empty = TranspositionTable::new(1 << 12);
    let fallback = table_empty.principal_variation(&mut board);
    assert_eq!(fallback.len(), 1);
    assert!(board.moves().contains(&fallback[0]));

    let mut table = TranspositionTable::new(1 << 12);
    let e4 = Move::new(Square::E2, Square::E4);
    let d4 = Move::new(Square::D2, Square::D4);
    let pe4 = board.make_move(e4);
    table.insert(board.key(), Node { depth: 1, node_type: NodeType::PV, value: -50 });
    board.unmake_move(pe4);
    let pd4 = board.make_move(d4);
    table.insert(board.key(), Node { depth: 1, node_type: NodeType::PV, value: -30 });
    board.unmake_move(pd4);
    assert_eq!(table.principal_variation(&mut board), vec![e4]);
    // a child recorded only as a bound is not followed
    let mut table2 = TranspositionTable::new(1 << 12);
    let pe4 = board.make_move(e4);
    table2.insert(board.key(), Node { depth: 1, node_type: NodeType::Cut, value: -500 });
    board.unmake_move(pe4);
    let pd4 = board.make_move(d4);
    table2.insert(board.key(), Node { depth: 1, node_type: NodeType::PV, value: -30 });
    board.unmake_move(pd4);
    assert_eq!(table2.principal_variation(&mut board), vec![d4]);
    assert_eq!(board, Board::default());
}

#[test]
fn deepening_stops_when_asked_and_otherwise_searches_one_ply_more() {
    let mut board = Board::default();
    let mut table = TranspositionTable::new(1 << 12);
    let mut searcher = ThreadSearcher::new(NoAbort, Some(5));
    searcher.max_depth = 1;
    assert!(searcher.deepen(&mut board, &mut table, false));
    assert_eq!(searcher.max_depth, 2);
    assert!(table.get(&board.key()).unwrap().depth >= 1);
    assert!(searcher.deepen(&mut board, &mut table, false));
    assert_eq!(searcher.max_depth, 3);
    assert!(table.get(&board.key()).unwrap().depth >= 2);
    assert!(!searcher.deepen(&mut board, &mut table, true));
    assert!(searcher.abort);
    assert_eq!(searcher.max_depth, 3);
    assert_eq!(board, Board::default());
}

#[test]
fn the_search_tree_lists_every_move_to_a_recorded_position() {
    let mut board = Board::default();
    let mut table = TranspositionTable::new(1 << 12);
    table.insert(board.key(), Node { depth: 2, node_type: NodeType::PV, value: 0 });
    let e4 = Move::new(Square::E2, Square::E4);
    let pe4 = board.make_move(e4);
    table.insert(board.key(), Node { depth: 1, node_type: NodeType::All, value: 3 });
    board.unmake_move(pe4);
    let tree = SearchTree::from_table(&mut board, &table, 2);
    assert_eq!(tree.children.len(), 1);
    assert_eq!(tree.children[0].0, "e2e4");
    assert_eq!(tree.children[0].1.node, Some(Node { depth: 1, node_type: NodeType::All, value: 3 }));
}

#[test]
fn the_search_value_is_the_best_value_after_the_replies() {
    let mut board = fen("4k3/8/8/3q4/8/8/8/3RK3 w");
    let mut table = TranspositionTable::new(1 << 12);
    let mut searcher = ThreadSearcher::new(NoAbort, Some(1));
    searcher.max_depth = 1;
    let player = board.player();
    let value = searcher.search(&mut board, &mut table, player, 1, -2147483647, 2147483647);
    assert_eq!(value, 500);
    assert_eq!(
        table.get(&board.key()),
        Some(Node { depth: 1, node_type: NodeType::PV, value: 500 })
    );
    assert_eq!(board, fen("4k3/8/8/3q4/8/8/8/3RK3 w"));
}

#[test]
fn the_searches_order_is_the_order_the_generator_gives() {
    let positions = [
        "rnbqkbnr/pppppppp/8/8/8/8/PPPPPPPP/RNBQKBNR w KQkq",
        "r3k2r/p1ppqpb1/bn2pnp1/3PN3/1p2P3/2N2Q1p/PPPBBPPP/R3K2R w KQkq",
        "r3k2r/p1ppqpb1/bn2pnp1/3PN3/1p2P3/2N2Q1p/PPPBBPPP/R3K2R b KQkq",
        "n1n5/PPPk4/8/8/8/8/4Kppp/5N1N b",
        "n1n5/PPPk4/8/8/8/8/4Kppp/5N1N w",
    ];
    for f in positions {
        let board = fen(f);
        let generated = board.pseudo_legal_moves();
        assert_eq!(in_order(&board, &generated), generated, "{}", f);
        let captures = board.capturing_moves(board.player());
        assert_eq!(in_order(&board, &captures), captures, "{}", f);
    }
    let mut board = fen("8/8/8/8/1p6/8/P1P5/8 w");
    board.make_move(Move::new(Square::A2, Square::A4));
    let generated = board.pseudo_legal_moves();
    assert_eq!(in_order(&board, &generated), generated);
}

#[test]
fn a_node_with_the_lowest_value_is_stored_and_read_back() {
    let board = Board::default();
    let mut table = TranspositionTable::new(64);
    let node = Node { depth: 2, node_type: NodeType::All, value: i32::MIN };
    table.insert(board.key(), node);
    assert_eq!(table.get(&board.key()), Some(node));
}

#[test]
fn equally_scored_moves_are_taken_in_the_generators_order() {
    let mut board = Board::default();
    let mut table = TranspositionTable::new(1 << 12);
    let e4 = Move::new(Square::E2, Square::E4);
    let d4 = Move::new(Square::D2, Square::D4);
    for mov in [e4, d4] {
        let played = board.make_move(mov);
        table.insert(board.key(), Node { depth: 1, node_type: NodeType::PV, value: -30 });
        board.unmake_move(played);
    }
    assert_eq!(table.principal_variation(&mut board), vec![d4]);
}

#[test]
fn the_line_stops_before_a_position_comes_round_again() {
    let mut board = fen("k7/8/8/8/8/8/8/K7 w");
    let mut table = TranspositionTable::new(1 << 12);
    let line = [
        Move::new(Square::A1, Square::A2),
        Move::new(Square::A8, Square::B8),
        Move::new(Square::A2, Square::A1),
        Move::new(Square::B8, Square::A8),
    ];
    let mut played = vec![];
    for mov in line {
        played.push(board.make_move(mov));
        table.insert(board.key(), Node { depth: 1, node_type: NodeType::PV, value: 0 });
    }
    for p in played.into_iter().rev() {
        board.unmake_move(p);
    }
    assert_eq!(table.principal_variation(&mut board), line.to_vec());
}

#[test]
fn the_search_tree_goes_down_to_the_depth_asked_for() {
    let mut board = Board::default();
    let mut table = TranspositionTable::new(1 << 12);
    table.insert(board.key(), Node { depth: 2, node_type: NodeType::PV, value: 0 });
    let e4 = board.make_move(Move::new(Square::E2, Square::E4));
    table.insert(board.key(), Node { depth: 1, node_type: NodeType::PV, value: 0 });
    let e5 = board.make_move(Move::new(Square::E7, Square::E5));
    table.insert(board.key(), Node { depth: 0, node_type: NodeType::PV, value: 0 });
    board.unmake_move(e5);
    board.unmake_move(e4);
    let tree = SearchTree::from_table(&mut board, &table, 2);
    assert_eq!(tree.children.len(), 1);
    let child = &tree.children[0].1;
    assert_eq!(child.children.len(), 1);
    assert_eq!(child.children[0].0, "e7e5");
    assert!(child.children[0].1.children.is_empty());
    let shallow = SearchTree::from_table(&mut board, &table, 1);
    assert!(shallow.children[0].1.children.is_empty());
}
