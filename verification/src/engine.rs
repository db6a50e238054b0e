//! What a UCI engine decides: how each command changes its state and what it asks to be done.
//! The caller reads the commands, runs the search and the waits, and writes the lines.
use vstd::prelude::*;
use vstd::string::*;

use crate::board::{can_make, spec_make_move, start_piece, Board, BoardState};
use crate::moves::{spec_move_string, Move};
use crate::player::PlayerV;
use crate::uci::Command;

verus! {

/// What the engine asks its caller to do.
pub enum Action {
    /// Write this line to the GUI.
    Send(String),
    /// Start searching from the engine's board.
    Search,
    /// Let the search run for this many microseconds, then stop it and report.
    StopAfter(u64),
    /// Stop the search now and report.
    Stop,
    /// Read no more commands.
    Quit,
}

/// An action with its line as text.
pub enum ActionV {
    Send(Seq<char>),
    Search,
    StopAfter(u64),
    Stop,
    Quit,
}

impl View for Action {
    type V = ActionV;

    open spec fn view(&self) -> ActionV {
        match self {
            Action::Send(s) => ActionV::Send(s@),
            Action::Search => ActionV::Search,
            Action::StopAfter(t) => ActionV::StopAfter(*t),
            Action::Stop => ActionV::Stop,
            Action::Quit => ActionV::Quit,
        }
    }
}

/// The actions as text.
pub open spec fn actions_view(r: Seq<Action>) -> Seq<ActionV> {
    r.map_values(|a: Action| a@)
}

/// Whether the moves can be played one after the other from `st`.
pub open spec fn line_playable(st: BoardState, ms: Seq<Move>) -> bool
    decreases ms.len(),
{
    ms.len() == 0 || (can_make(st, ms[0]) && line_playable(spec_make_move(st, ms[0]), ms.drop_first()))
}

/// The state after playing the moves one after the other from `st`.
pub open spec fn play_line(st: BoardState, ms: Seq<Move>) -> BoardState
    decreases ms.len(),
{
    if ms.len() == 0 {
        st
    } else {
        play_line(spec_make_move(st, ms[0]), ms.drop_first())
    }
}

/// The moves, each followed by a space.
pub open spec fn moves_text(pv: Seq<Move>) -> Seq<char>
    decreases pv.len(),
{
    if pv.len() == 0 {
        Seq::empty()
    } else {
        moves_text(pv.drop_last()) + spec_move_string(pv.last()) + seq![' ']
    }
}

/// The line that reports a principal variation.
pub open spec fn info_text(pv: Seq<Move>) -> Seq<char> {
    moves_text(pv) + seq![' ']
}

/// The line that reports the best move, `0000` where there is none, and the move to ponder on.
pub open spec fn bestmove_text(best: Option<Move>, ponder: Option<Move>) -> Seq<char> {
    "bestmove "@ + match best {
        Some(m) => spec_move_string(m),
        None => "0000"@,
    } + match ponder {
        Some(p) => seq![' '] + spec_move_string(p),
        None => Seq::empty(),
    }
}

/// How long a `go` command with this `movetime` lets the search run, in microseconds (at most
/// `u64::MAX`).
pub open spec fn movetime_micros(t: u64) -> u64 {
    if t * 1000 > u64::MAX {
        u64::MAX
    } else {
        (t * 1000) as u64
    }
}

/// How long a `go` command lets the search run on a clock of `c` milliseconds: a fortieth of the
/// clock, at most five seconds, in microseconds.
pub open spec fn clock_micros(c: u64) -> u64 {
    if c * 25 > 5_000_000 {
        5_000_000
    } else {
        (c * 25) as u64
    }
}

/// The state of a UCI engine between commands.
pub struct UciEngine {
    pub board: Board,
    /// The move the engine expects the opponent to make, named in its last report.
    pub ponder: Option<Move>,
}

impl UciEngine {
    /// A well-formed engine.
    pub open spec fn wf(&self) -> bool {
        self.board.wf()
    }

    /// Whether `handle` can take the command: a `position` command's board is well formed and
    /// its moves can be played from it; on `ponderhit`, the expected move can be played.
    pub open spec fn spec_accepts(&self, c: Command) -> bool {
        match c {
            Command::Position { board, moves } => match board {
                Some(b) => b.wf() && line_playable(b@, moves@),
                None => line_playable(self.board@, moves@),
            },
            Command::PonderHit => match self.ponder {
                Some(m) => can_make(self.board@, m),
                None => true,
            },
            _ => true,
        }
    }

    /// An engine at the start of a game, expecting nothing.
    pub fn new() -> (r: UciEngine)
        ensures
            r.wf(),
            r.ponder is None,
            r.board@.player == PlayerV::White,
            r.board@.flags == 0xf0,
            forall|i: int| 0 <= i < 64 ==> #[trigger] r.board@.pieces[i] == start_piece(i),
    {
        UciEngine { board: Board::default(), ponder: None }
    }
}

impl UciEngine {
    /// Whether `handle` can take the command.
    pub fn accepts(&self, command: &Command) -> (r: bool)
        requires
            self.wf(),
        ensures
            r == self.spec_accepts(*command),
    {
        match command {
            Command::Position { board, moves } => match board {
                Some(b) => b.is_wf() && can_play_moves(*b, moves),
                None => can_play_moves(self.board, moves),
            },
            Command::PonderHit => match self.ponder {
                Some(m) => self.board.can_make_move(m),
                None => true,
            },
            _ => true,
        }
    }

    /// Takes a command: `uci` and `isready` are answered, `position` sets the board and plays
    /// the moves, `ponderhit` plays the expected move and searches, `go` searches and lets the
    /// search run for `movetime`, then (unless pondering) for a fortieth of the side to move's
    /// clock, at most five seconds; `stop` stops the search and `quit` ends the session.
    pub fn handle(&mut self, command: Command) -> (r: Vec<Action>)
        requires
            old(self).wf(),
            old(self).spec_accepts(command),
        ensures
            final(self).wf(),
            match command {
                Command::UCI => {
                    &&& actions_view(r@) == seq![
                        ActionV::Send("id name skakoui"@),
                        ActionV::Send("id author Felix Chapman"@),
                        ActionV::Send("option name Ponder type check default true"@),
                        ActionV::Send("uciok"@),
                    ]
                    &&& *final(self) == *old(self)
                },
                Command::IsReady => {
                    &&& actions_view(r@) == seq![ActionV::Send("readyok"@)]
                    &&& *final(self) == *old(self)
                },
                Command::Quit => {
                    &&& actions_view(r@) == seq![ActionV::Quit]
                    &&& *final(self) == *old(self)
                },
                Command::Stop => {
                    &&& actions_view(r@) == seq![ActionV::Stop]
                    &&& *final(self) == *old(self)
                },
                Command::Position { board, moves } => {
                    &&& r@.len() == 0
                    &&& final(self).ponder == old(self).ponder
                    &&& final(self).board@ == play_line(
                        match board {
                            Some(b) => b@,
                            None => old(self).board@,
                        },
                        moves@,
                    )
                },
                Command::PonderHit => {
                    &&& actions_view(r@) == seq![ActionV::Search]
                    &&& final(self).ponder is None
                    &&& final(self).board@ == match old(self).ponder {
                        Some(m) => spec_make_move(old(self).board@, m),
                        None => old(self).board@,
                    }
                },
                Command::Go { movetime, wtime, btime, ponder } => {
                    let clock = match old(self).board@.player {
                        PlayerV::White => wtime,
                        PlayerV::Black => btime,
                    };
                    &&& actions_view(r@) == seq![ActionV::Search] + match movetime {
                        Some(t) => seq![ActionV::StopAfter(movetime_micros(t))],
                        None => Seq::empty(),
                    } + match clock {
                        Some(c) if !ponder => seq![ActionV::StopAfter(clock_micros(c))],
                        _ => Seq::empty(),
                    }
                    &&& *final(self) == *old(self)
                },
            },
    {
        let mut r: Vec<Action> = Vec::new();
        match command {
            Command::UCI => {
                r.push(Action::Send(String::from_str("id name skakoui")));
                r.push(Action::Send(String::from_str("id author Felix Chapman")));
                r.push(Action::Send(String::from_str("option name Ponder type check default true")));
                r.push(Action::Send(String::from_str("uciok")));
            },
            Command::IsReady => {
                r.push(Action::Send(String::from_str("readyok")));
            },
            Command::Quit => {
                r.push(Action::Quit);
            },
            Command::Stop => {
                r.push(Action::Stop);
            },
            Command::Position { board, moves } => {
                match board {
                    Some(b) => {
                        self.board = b;
                    },
                    None => {},
                }
                play_moves(&mut self.board, &moves);
            },
            Command::PonderHit => {
                match self.ponder {
                    Some(m) => {
                        self.board.make_move(m);
                    },
                    None => {},
                }
                self.ponder = None;
                r.push(Action::Search);
            },
            Command::Go { movetime, wtime, btime, ponder } => {
                r.push(Action::Search);
                match movetime {
                    Some(t) => {
                        let micros = if t > u64::MAX / 1000 {
                            u64::MAX
                        } else {
                            t * 1000
                        };
                        r.push(Action::StopAfter(micros));
                    },
                    None => {},
                }
                if !ponder {
                    let clock = match self.board.player() {
                        PlayerV::White => wtime,
                        PlayerV::Black => btime,
                    };
                    match clock {
                        Some(c) => {
                            let micros = if c > 200_000 {
                                5_000_000
                            } else {
                                c * 25
                            };
                            r.push(Action::StopAfter(micros));
                        },
                        None => {},
                    }
                }
            },
        }
        r
    }

    /// After a search stops: the lines that report the principal variation and the best move,
    /// its first move, with its second as the move to ponder on, which the engine remembers.
    pub fn report(&mut self, pv: &Vec<Move>) -> (r: Vec<String>)
        ensures
            final(self).board == old(self).board,
            final(self).ponder == (if pv@.len() > 1 {
                Some(pv@[1])
            } else {
                None::<Move>
            }),
            r@.len() == 2,
            r@[0]@ == info_text(pv@),
            r@[1]@ == bestmove_text(
                if pv@.len() > 0 {
                    Some(pv@[0])
                } else {
                    None
                },
                final(self).ponder,
            ),
    {
        let mut info = String::new();
        let mut i: usize = 0;
        while i < pv.len()
            invariant
                i <= pv@.len(),
                info@ == moves_text(pv@.subrange(0, i as int)),
            decreases pv.len() - i,
        {
            let t = pv[i].to_string();
            info.append(t.as_str());
            proof {
                reveal_strlit(" ");
            }
            info.append(" ");
            assert(pv@.subrange(0, i + 1).drop_last() =~= pv@.subrange(0, i as int));
            i = i + 1;
        }
        proof {
            reveal_strlit(" ");
        }
        info.append(" ");
        assert(pv@.subrange(0, pv@.len() as int) =~= pv@);
        let best: Option<Move> = if pv.len() > 0 {
            Some(pv[0])
        } else {
            None
        };
        let ponder: Option<Move> = if pv.len() > 1 {
            Some(pv[1])
        } else {
            None
        };
        let mut line = String::from_str("bestmove ");
        match best {
            Some(m) => {
                let t = m.to_string();
                line.append(t.as_str());
            },
            None => {
                line.append("0000");
            },
        }
        match ponder {
            Some(p) => {
                line.append(" ");
                let t = p.to_string();
                line.append(t.as_str());
            },
            None => {},
        }
        proof {
            reveal_strlit(" ");
        }
        assert(line@ =~= bestmove_text(best, ponder));
        self.ponder = ponder;
        let mut r: Vec<String> = Vec::new();
        r.push(info);
        r.push(line);
        r
    }
}

/// Plays the moves one after the other.
fn play_moves(board: &mut Board, moves: &Vec<Move>)
    requires
        old(board).wf(),
        line_playable(old(board)@, moves@),
    ensures
        final(board).wf(),
        final(board)@ == play_line(old(board)@, moves@),
{
    let ghost st0 = board@;
    let mut i: usize = 0;
    assert(moves@.skip(0) =~= moves@);
    while i < moves.len()
        invariant
            i <= moves@.len(),
            board.wf(),
            line_playable(board@, moves@.skip(i as int)),
            play_line(st0, moves@) == play_line(board@, moves@.skip(i as int)),
        decreases moves.len() - i,
    {
        let m = moves[i];
        assert(moves@.skip(i as int)[0] == m);
        assert(moves@.skip(i as int).drop_first() =~= moves@.skip(i + 1));
        board.make_move(m);
        i = i + 1;
    }
    assert(moves@.skip(i as int) =~= Seq::<Move>::empty());
}

/// Whether the moves can be played one after the other from the board.
fn can_play_moves(board: Board, moves: &Vec<Move>) -> (r: bool)
    requires
        board.wf(),
    ensures
        r == line_playable(board@, moves@),
{
    let mut b = board;
    let mut i: usize = 0;
    assert(moves@.skip(0) =~= moves@);
    while i < moves.len()
        invariant
            i <= moves@.len(),
            b.wf(),
            line_playable(board@, moves@) == line_playable(b@, moves@.skip(i as int)),
        decreases moves.len() - i,
    {
        let m = moves[i];
        assert(moves@.skip(i as int)[0] == m);
        assert(moves@.skip(i as int).drop_first() =~= moves@.skip(i + 1));
        if !b.can_make_move(m) {
            return false;
        }
        b.make_move(m);
        i = i + 1;
    }
    assert(moves@.skip(i as int) =~= Seq::<Move>::empty());
    true
}

} // verus!
