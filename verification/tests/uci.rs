use skakoui::engine::{Action, UciEngine};
use skakoui::search::ttable::TranspositionTable;
use skakoui::search::{AbortSignal, ThreadSearcher};
use skakoui::uci::Command;
use skakoui::{Board, Move, ParseError, PlayerV, Square};

/// A signal that never asks the search to stop: the search ends at its target depth.
struct NoAbort;

impl AbortSignal for NoAbort {
    fn abort_requested(&mut self) -> bool {
        false
    }
}

/// Runs an engine on the input lines, searching two plies whenever asked to search, and
/// collects what it writes.
fn output_from(input: &[&str]) -> Vec<String> {
    let mut engine = UciEngine::new();
    let mut table = TranspositionTable::new(1 << 16);
    let mut output = vec![];
    'lines: for line in input {
        let command = match Command::parse(line) {
            Ok(c) => c,
            Err(_) => continue,
        };
        assert!(engine.accepts(&command));
        for action in engine.handle(command) {
            match action {
                Action::Send(line) => output.push(line),
                Action::Search => {
                    let mut board = engine.board;
                    let mut searcher = ThreadSearcher::new(NoAbort, Some(2));
                    searcher.run(&mut board, &mut table);
                }
                Action::StopAfter(_) | Action::Stop => {
                    let mut board = engine.board;
                    let pv = table.principal_variation(&mut board);
                    output.extend(engine.report(&pv));
                }
                Action::Quit => break 'lines,
            }
        }
    }
    output
}

fn white_openings() -> Vec<String> {
    let moves = vec![
        "a2a3", "a2a4", "b2b3", "b2b4", "c2c3", "c2c4", "d2d3", "d2d4", "e2e3", "e2e4", "f2f3",
        "f2f4", "g2g3", "g2g4", "h2h3", "h2h4", "b1a3", "b1c3", "g1f3", "g1h3",
    ];
    moves.into_iter().map(|m| format!("bestmove {}", m)).collect()
}

fn black_openings() -> Vec<String> {
    let moves = vec![
        "a7a6", "a7a5", "b7b6", "b7b5", "c7c6", "c7c5", "d7d6", "d7d5", "e7e6", "e7e5", "f7f6",
        "f7f5", "g7g6", "g7g5", "h7h6", "h7h5", "b8a6", "b8c6", "g8f6", "g8h6",
    ];
    moves.into_iter().map(|m| format!("bestmove {}", m)).collect()
}

/// The best move of a report line, without the move to ponder on.
fn bestmove_only(line: &str) -> String {
    line.split_whitespace().take(2).collect::<Vec<&str>>().join(" ")
}

#[test]
fn when_no_input_then_no_output() {
    assert!(output_from(&[]).is_empty());
}

#[test]
fn when_input_uci_then_output_name() {
    assert!(output_from(&["uci"]).contains(&"id name skakoui".to_string()));
}

#[test]
fn when_input_uci_then_output_author() {
    assert!(output_from(&["uci"]).contains(&"id author Felix Chapman".to_string()));
}

#[test]
fn when_input_uci_then_output_uciok() {
    assert!(output_from(&["uci"]).contains(&"uciok".to_string()));
}

#[test]
fn when_input_isready_then_output_readyok() {
    assert!(output_from(&["isready"]).contains(&"readyok".to_string()));
}

#[test]
fn when_input_quit_then_stop_and_ignore_later_commands() {
    assert!(!output_from(&["quit", "isready"]).contains(&"readyok".to_string()));
}

#[test]
fn when_input_go_stop_then_return_a_valid_white_opening_move() {
    let out = output_from(&["uci", "go", "stop"]);
    assert!(out.iter().any(|l| white_openings().contains(&bestmove_only(l))));
}

#[test]
fn when_input_position_moves_then_return_a_valid_move_from_that_position() {
    let out = output_from(&["uci", "position moves a2a3", "go", "stop"]);
    assert!(out.iter().any(|l| black_openings().contains(&bestmove_only(l))));
}

#[test]
fn when_input_position_startpos_then_reset_the_board() {
    let out = output_from(&["uci", "position moves a2a3", "position startpos", "go", "stop"]);
    assert!(out.iter().any(|l| white_openings().contains(&bestmove_only(l))));
}

#[test]
fn when_input_position_fen_then_set_board_as_specified() {
    let valid_moves = vec![
        "bestmove a1a2".to_string(),
        "bestmove a1b1".to_string(),
        "bestmove a1b2".to_string(),
    ];
    let out = output_from(&["uci", "position fen 7k/8/8/8/8/8/8/K7 w - - 0 1", "go", "stop"]);
    assert!(out.iter().any(|l| valid_moves.contains(&bestmove_only(l))));
}

#[test]
fn uci_is_answered_with_the_engine_details_in_order() {
    assert_eq!(
        output_from(&["uci"]),
        vec![
            "id name skakoui".to_string(),
            "id author Felix Chapman".to_string(),
            "option name Ponder type check default true".to_string(),
            "uciok".to_string(),
        ]
    );
}

#[test]
fn unknown_commands_are_ignored() {
    assert_eq!(output_from(&["hello", "isready"]), vec!["readyok".to_string()]);
}

#[test]
fn commands_parse_into_their_arguments() {
    match Command::parse("go wtime 1000 btime 2000 ponder movetime 50").unwrap() {
        Command::Go { movetime, wtime, btime, ponder } => {
            assert_eq!(movetime, Some(50));
            assert_eq!(wtime, Some(1000));
            assert_eq!(btime, Some(2000));
            assert!(ponder);
        }
        _ => panic!("expected go"),
    }
    match Command::parse("  position   startpos moves e2e4 e7e5 ").unwrap() {
        Command::Position { board, moves } => {
            assert_eq!(board, Some(Board::default()));
            assert_eq!(
                moves,
                vec![Move::new(Square::E2, Square::E4), Move::new(Square::E7, Square::E5)]
            );
        }
        _ => panic!("expected position"),
    }
    match Command::parse("position fen 7k/8/8/8/8/8/8/K7 b - - 0 1").unwrap() {
        Command::Position { board, moves } => {
            let board = board.unwrap();
            assert_eq!(board.player(), PlayerV::Black);
            assert!(moves.is_empty());
        }
        _ => panic!("expected position"),
    }
    assert!(matches!(Command::parse("stop"), Ok(Command::Stop)));
    assert!(matches!(Command::parse("ponderhit"), Ok(Command::PonderHit)));
}

#[test]
fn bad_commands_give_their_errors() {
    assert!(matches!(Command::parse(""), Err(ParseError::Command)));
    assert!(matches!(Command::parse("dance"), Err(ParseError::Command)));
    assert!(matches!(Command::parse("go movetime"), Err(ParseError::Argument)));
    assert!(matches!(Command::parse("go wtime soon"), Err(ParseError::Number)));
    assert!(matches!(Command::parse("position startpos moves e2e9"), Err(ParseError::Move)));
    assert!(matches!(Command::parse("position fen 9/8 w"), Err(_)));
}

#[test]
fn go_waits_for_movetime_then_a_fortieth_of_the_clock() {
    let mut engine = UciEngine::new();
    let actions = engine.handle(Command::parse("go movetime 20 wtime 4000 btime 9").unwrap());
    assert_eq!(actions.len(), 3);
    assert!(matches!(actions[0], Action::Search));
    assert!(matches!(actions[1], Action::StopAfter(20_000)));
    assert!(matches!(actions[2], Action::StopAfter(100_000)));

    let long = engine.handle(Command::parse("go wtime 100000000").unwrap());
    assert!(matches!(long[1], Action::StopAfter(5_000_000)));

    let pondering = engine.handle(Command::parse("go wtime 4000 ponder").unwrap());
    assert_eq!(pondering.len(), 1);
}

#[test]
fn report_names_the_best_move_and_the_move_to_ponder_on() {
    let mut engine = UciEngine::new();
    let pv = vec![Move::new(Square::E2, Square::E4), Move::new(Square::E7, Square::E5)];
    let lines = engine.report(&pv);
    assert_eq!(lines, vec!["e2e4 e7e5  ".to_string(), "bestmove e2e4 e7e5".to_string()]);
    assert_eq!(engine.ponder, Some(Move::new(Square::E7, Square::E5)));

    let none = engine.report(&vec![]);
    assert_eq!(none, vec![" ".to_string(), "bestmove 0000".to_string()]);
    assert_eq!(engine.ponder, None);
}

#[test]
fn ponderhit_plays_the_expected_move_and_searches() {
    let mut engine = UciEngine::new();
    engine.report(&vec![Move::new(Square::E2, Square::E4), Move::new(Square::E7, Square::E5)]);
    let white_first = Board::from_fen("rnbqkbnr/pppppppp/8/8/4P3/8/PPPP1PPP/RNBQKBNR b KQkq").unwrap();
    engine.handle(Command::parse("position fen rnbqkbnr/pppppppp/8/8/4P3/8/PPPP1PPP/RNBQKBNR b KQkq - 0 1").unwrap());
    assert_eq!(engine.board, white_first);
    let command = Command::parse("ponderhit").unwrap();
    assert!(engine.accepts(&command));
    let actions = engine.handle(command);
    assert!(matches!(actions[..], [Action::Search]));
    assert_eq!(engine.ponder, None);
    let mut expected = white_first.clone();
    expected.make_move(Move::new(Square::E7, Square::E5));
    assert_eq!(engine.board, expected);
    assert_eq!(engine.board.to_fen(), "rnbqkbnr/pppp1ppp/8/4p3/4P3/8/PPPP1PPP/RNBQKBNR w KQkq");
}

#[test]
fn moves_that_cannot_be_played_are_not_accepted() {
    let engine = UciEngine::new();
    assert!(!engine.accepts(&Command::parse("position startpos moves e3e4").unwrap()));
    assert!(engine.accepts(&Command::parse("position startpos moves e2e4 e7e5").unwrap()));
}
