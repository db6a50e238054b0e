//! The Universal Chess Interface: the commands a GUI sends and what the engine answers.
use vstd::prelude::*;
use vstd::string::*;

use crate::board::{impossible_flags, start_piece, Board};
use crate::error::ParseError;
use crate::fen::{spec_from_fen, spec_words, word_bounds};
use crate::moves::{spec_parse_move, Move};
use crate::player::PlayerV;
use crate::square::{parse_u64, spec_parse_u64};

verus! {

/// A command from the GUI; times are in milliseconds.
pub enum Command {
    UCI,
    IsReady,
    Quit,
    Position { board: Option<Board>, moves: Vec<Move> },
    PonderHit,
    Go { movetime: Option<u64>, wtime: Option<u64>, btime: Option<u64>, ponder: bool },
    Stop,
}

/// Where a `position` command takes its board from.
pub enum BoardChoice {
    /// No board is given: keep the current one.
    Keep,
    /// `startpos`: the position at the start of a game.
    Start,
    /// `fen` and the FEN text (the next six words, joined by spaces).
    Fen(Seq<char>),
}

/// What a command line says, with boards by where they come from.
pub enum CommandSpec {
    UCI,
    IsReady,
    Quit,
    Position { board: BoardChoice, moves: Seq<Move> },
    PonderHit,
    Go { movetime: Option<u64>, wtime: Option<u64>, btime: Option<u64>, ponder: bool },
    Stop,
}

/// The words joined by single spaces.
pub open spec fn join_words(ws: Seq<Seq<char>>) -> Seq<char>
    decreases ws.len(),
{
    if ws.len() == 0 {
        Seq::empty()
    } else if ws.len() == 1 {
        ws[0]
    } else {
        join_words(ws.drop_last()) + seq![' '] + ws.last()
    }
}

/// The moves the words name, in long algebraic notation; nothing where one names none.
pub open spec fn spec_parse_moves(ws: Seq<Seq<char>>) -> Option<Seq<Move>>
    decreases ws.len(),
{
    if ws.len() == 0 {
        Some(Seq::empty())
    } else {
        match (spec_parse_moves(ws.drop_last()), spec_parse_move(ws.last())) {
            (Some(ms), Some(m)) => Some(ms.push(m)),
            _ => None,
        }
    }
}

/// The times and pondering of a `go` command, its arguments read from word `k` on: `movetime`,
/// `wtime` and `btime` take the number after them (the last given counts), `ponder` sets
/// pondering, other words are skipped.
pub open spec fn go_from(
    w: Seq<Seq<char>>,
    k: int,
    movetime: Option<u64>,
    wtime: Option<u64>,
    btime: Option<u64>,
    ponder: bool,
) -> Result<CommandSpec, ParseError>
    decreases w.len() - k,
{
    if k >= w.len() || k < 0 {
        Ok(CommandSpec::Go { movetime, wtime, btime, ponder })
    } else if w[k] == "movetime"@ || w[k] == "wtime"@ || w[k] == "btime"@ {
        if k + 1 >= w.len() {
            Err(ParseError::Argument)
        } else {
            match spec_parse_u64(w[k + 1]) {
                None => Err(ParseError::Number),
                Some(v) => if w[k] == "movetime"@ {
                    go_from(w, k + 2, Some(v), wtime, btime, ponder)
                } else if w[k] == "wtime"@ {
                    go_from(w, k + 2, movetime, Some(v), btime, ponder)
                } else {
                    go_from(w, k + 2, movetime, wtime, Some(v), ponder)
                },
            }
        }
    } else if w[k] == "ponder"@ {
        go_from(w, k + 1, movetime, wtime, btime, true)
    } else {
        go_from(w, k + 1, movetime, wtime, btime, ponder)
    }
}

/// A `position` command's moves, read from word `k` on: after `moves`, the moves named; none
/// where the word there is not `moves`.
pub open spec fn position_moves(w: Seq<Seq<char>>, k: int) -> Option<Seq<Move>> {
    if 0 <= k < w.len() && w[k] == "moves"@ {
        spec_parse_moves(w.subrange(k + 1, w.len() as int))
    } else {
        Some(Seq::empty())
    }
}

/// What a command line says (see `Command::parse`).
pub open spec fn spec_command(s: Seq<char>) -> Result<CommandSpec, ParseError> {
    let w = spec_words(s);
    if w.len() == 0 {
        Err(ParseError::Command)
    } else if w[0] == "uci"@ {
        Ok(CommandSpec::UCI)
    } else if w[0] == "isready"@ {
        Ok(CommandSpec::IsReady)
    } else if w[0] == "quit"@ {
        Ok(CommandSpec::Quit)
    } else if w[0] == "ponderhit"@ {
        Ok(CommandSpec::PonderHit)
    } else if w[0] == "stop"@ {
        Ok(CommandSpec::Stop)
    } else if w[0] == "go"@ {
        go_from(w, 1, None, None, None, false)
    } else if w[0] == "position"@ {
        spec_position(w)
    } else {
        Err(ParseError::Command)
    }
}

/// Where a `position` command takes its board from, and the word after that part.
pub open spec fn position_board(w: Seq<Seq<char>>) -> (BoardChoice, int) {
    if w.len() > 1 && w[1] == "startpos"@ {
        (BoardChoice::Start, 2int)
    } else if w.len() > 1 && w[1] == "fen"@ {
        let end = if w.len() < 8 {
            w.len() as int
        } else {
            8int
        };
        (BoardChoice::Fen(join_words(w.subrange(2, end))), end)
    } else {
        (BoardChoice::Keep, 1int)
    }
}

/// What the words of a `position` command say: a FEN text that does not read fails with its
/// error, a word after `moves` that names no move fails with `Move`.
pub open spec fn spec_position(w: Seq<Seq<char>>) -> Result<CommandSpec, ParseError> {
    let (board, k) = position_board(w);
    match board {
        BoardChoice::Fen(t) if spec_from_fen(t) is Err => Err(spec_from_fen(t)->Err_0),
        _ => match position_moves(w, k) {
            None => Err(ParseError::Move),
            Some(moves) => Ok(CommandSpec::Position { board, moves }),
        },
    }
}

/// The board a `position` command carries is the one its words describe.
pub open spec fn board_fits(board: Option<Board>, choice: BoardChoice) -> bool {
    match choice {
        BoardChoice::Keep => board is None,
        BoardChoice::Start => {
            &&& board is Some
            &&& board.unwrap().wf()
            &&& board.unwrap()@.player == PlayerV::White
            &&& board.unwrap()@.flags == 0xf0
            &&& forall|i: int| 0 <= i < 64 ==> #[trigger] board.unwrap()@.pieces[i] == start_piece(i)
        },
        BoardChoice::Fen(t) => match spec_from_fen(t) {
            Ok((ranks, player, flags)) => {
                &&& board is Some
                &&& board.unwrap().wf()
                &&& board.unwrap()@.player == player
                &&& board.unwrap()@.flags == flags & !impossible_flags(board.unwrap()@.pieces)
                &&& forall|i: int|
                    0 <= i < 64 ==> #[trigger] board.unwrap()@.pieces[i] == ranks[i / 8][i % 8]
            },
            Err(_) => false,
        },
    }
}

/// The command carries what the spec says.
pub open spec fn command_fits(c: Command, cs: CommandSpec) -> bool {
    match (c, cs) {
        (Command::UCI, CommandSpec::UCI) => true,
        (Command::IsReady, CommandSpec::IsReady) => true,
        (Command::Quit, CommandSpec::Quit) => true,
        (Command::PonderHit, CommandSpec::PonderHit) => true,
        (Command::Stop, CommandSpec::Stop) => true,
        (
            Command::Go { movetime, wtime, btime, ponder },
            CommandSpec::Go { movetime: m2, wtime: w2, btime: b2, ponder: p2 },
        ) => movetime == m2 && wtime == w2 && btime == b2 && ponder == p2,
        (Command::Position { board, moves }, CommandSpec::Position { board: choice, moves: ms }) => board_fits(
            board,
            choice,
        ) && moves@ == ms,
        _ => false,
    }
}

/// The word is the text.
fn word_is(s: &str, bounds: (usize, usize), t: &str) -> (r: bool)
    requires
        bounds.0 <= bounds.1 <= s@.len(),
    ensures
        r == (s@.subrange(bounds.0 as int, bounds.1 as int) == t@),
{
    let w = s.substring_char(bounds.0, bounds.1);
    let n = w.unicode_len();
    if n != t.unicode_len() {
        return false;
    }
    let mut i: usize = 0;
    while i < n
        invariant
            i <= n,
            n == w@.len(),
            n == t@.len(),
            w@ == s@.subrange(bounds.0 as int, bounds.1 as int),
            forall|j: int| 0 <= j < i ==> w@[j] == t@[j],
        decreases n - i,
    {
        if w.get_char(i) != t.get_char(i) {
            assert(w@[i as int] != t@[i as int]);
            return false;
        }
        i = i + 1;
    }
    assert(w@ =~= t@);
    true
}

/// Words that each name a move give the list of those moves, in order.
pub proof fn lemma_parse_moves_each(ws: Seq<Seq<char>>)
    requires
        forall|i: int| 0 <= i < ws.len() ==> #[trigger] spec_parse_move(ws[i]) is Some,
    ensures
        spec_parse_moves(ws) is Some,
        spec_parse_moves(ws).unwrap().len() == ws.len(),
        forall|i: int|
            0 <= i < ws.len() ==> Some(#[trigger] spec_parse_moves(ws).unwrap()[i]) == spec_parse_move(ws[i]),
    decreases ws.len(),
{
    if ws.len() > 0 {
        let d = ws.drop_last();
        assert forall|i: int| 0 <= i < d.len() implies #[trigger] spec_parse_move(d[i]) is Some by {
            assert(d[i] == ws[i]);
        }
        lemma_parse_moves_each(d);
        assert(spec_parse_move(ws[ws.len() - 1]) is Some);
    }
}

/// `position fen F1 .. F6 moves m1 .. mk`, where the six words read as a FEN text and each
/// `mi` names a move, sets up the board of those six words, joined by spaces, and then plays
/// exactly the moves `m1 .. mk`, in that order.
pub proof fn law_position_fen_then_moves(s: Seq<char>)
    requires
        spec_words(s).len() >= 9,
        spec_words(s)[0] == "position"@,
        spec_words(s)[1] == "fen"@,
        spec_words(s)[8] == "moves"@,
        spec_from_fen(join_words(spec_words(s).subrange(2, 8))) is Ok,
        forall|i: int| 9 <= i < spec_words(s).len() ==> #[trigger] spec_parse_move(spec_words(s)[i]) is Some,
    ensures
        spec_command(s) matches Ok(CommandSpec::Position { board, moves }) && {
            &&& board == BoardChoice::Fen(join_words(spec_words(s).subrange(2, 8)))
            &&& moves.len() == spec_words(s).len() - 9
            &&& forall|i: int|
                0 <= i < moves.len() ==> Some(#[trigger] moves[i]) == spec_parse_move(spec_words(s)[9 + i])
        },
{
    let w = spec_words(s);
    reveal_strlit("position");
    reveal_strlit("fen");
    reveal_strlit("moves");
    reveal_strlit("startpos");
    reveal_strlit("uci");
    reveal_strlit("isready");
    reveal_strlit("quit");
    reveal_strlit("ponderhit");
    reveal_strlit("stop");
    reveal_strlit("go");
    assert(w[0].len() == 8);
    assert(w[1].len() == 3);
    let rest = w.subrange(9, w.len() as int);
    assert forall|i: int| 0 <= i < rest.len() implies #[trigger] spec_parse_move(rest[i]) is Some by {
        assert(rest[i] == w[9 + i]);
    }
    lemma_parse_moves_each(rest);
    assert(position_board(w) == (BoardChoice::Fen(join_words(w.subrange(2, 8))), 8int));
    assert(position_moves(w, 8) == spec_parse_moves(rest));
    let moves = spec_parse_moves(rest).unwrap();
    assert forall|i: int| 0 <= i < moves.len() implies Some(#[trigger] moves[i]) == spec_parse_move(w[9 + i]) by {
        assert(rest[i] == w[9 + i]);
    }
}

/// `position startpos moves m1 .. mk`, where each `mi` names a move, sets up the position at
/// the start of a game and then plays exactly the moves `m1 .. mk`, in that order.
pub proof fn law_position_startpos_then_moves(s: Seq<char>)
    requires
        spec_words(s).len() >= 3,
        spec_words(s)[0] == "position"@,
        spec_words(s)[1] == "startpos"@,
        spec_words(s)[2] == "moves"@,
        forall|i: int| 3 <= i < spec_words(s).len() ==> #[trigger] spec_parse_move(spec_words(s)[i]) is Some,
    ensures
        spec_command(s) matches Ok(CommandSpec::Position { board, moves }) && {
            &&& board == BoardChoice::Start
            &&& moves.len() == spec_words(s).len() - 3
            &&& forall|i: int|
                0 <= i < moves.len() ==> Some(#[trigger] moves[i]) == spec_parse_move(spec_words(s)[3 + i])
        },
{
    let w = spec_words(s);
    reveal_strlit("position");
    reveal_strlit("moves");
    reveal_strlit("startpos");
    reveal_strlit("uci");
    reveal_strlit("isready");
    reveal_strlit("quit");
    reveal_strlit("ponderhit");
    reveal_strlit("stop");
    reveal_strlit("go");
    assert(w[0].len() == 8);
    let rest = w.subrange(3, w.len() as int);
    assert forall|i: int| 0 <= i < rest.len() implies #[trigger] spec_parse_move(rest[i]) is Some by {
        assert(rest[i] == w[3 + i]);
    }
    lemma_parse_moves_each(rest);
    assert(position_board(w) == (BoardChoice::Start, 2int));
    assert(position_moves(w, 2) == spec_parse_moves(rest));
    let moves = spec_parse_moves(rest).unwrap();
    assert forall|i: int| 0 <= i < moves.len() implies Some(#[trigger] moves[i]) == spec_parse_move(w[3 + i]) by {
        assert(rest[i] == w[3 + i]);
    }
}

/// A prefix of the words that names no move spoils the whole list.
proof fn lemma_parse_moves_prefix(ws: Seq<Seq<char>>, j: int)
    requires
        0 <= j <= ws.len(),
        spec_parse_moves(ws.take(j)) is None,
    ensures
        spec_parse_moves(ws) is None,
    decreases ws.len(),
{
    if ws.len() > j {
        assert(ws.drop_last().take(j) =~= ws.take(j));
        lemma_parse_moves_prefix(ws.drop_last(), j);
    } else {
        assert(ws.take(j) =~= ws);
    }
}

/// The arguments of a `go` command, read from word 1 on.
fn parse_go(s: &str, b: &Vec<(usize, usize)>) -> (r: Result<Command, ParseError>)
    requires
        b@.len() == spec_words(s@).len(),
        forall|k: int| 0 <= k < b@.len() ==> (#[trigger] b@[k]).0 <= b@[k].1 <= s@.len(),
        forall|k: int| 0 <= k < b@.len() ==> s@.subrange(#[trigger] b@[k].0 as int, b@[k].1 as int)
            == spec_words(s@)[k],
    ensures
        r is Ok <==> go_from(spec_words(s@), 1, None, None, None, false) is Ok,
        r matches Ok(c) ==> command_fits(c, go_from(spec_words(s@), 1, None, None, None, false)->Ok_0),
        r matches Err(e) ==> go_from(spec_words(s@), 1, None, None, None, false) == Err::<
            CommandSpec,
            ParseError,
        >(e),
{
    let ghost w = spec_words(s@);
    let mut movetime: Option<u64> = None;
    let mut wtime: Option<u64> = None;
    let mut btime: Option<u64> = None;
    let mut ponder = false;
    let mut k: usize = 1;
    while k < b.len()
        invariant
            w == spec_words(s@),
            b@.len() == w.len(),
            forall|j: int| 0 <= j < b@.len() ==> (#[trigger] b@[j]).0 <= b@[j].1 <= s@.len(),
            forall|j: int| 0 <= j < b@.len() ==> s@.subrange(#[trigger] b@[j].0 as int, b@[j].1 as int)
                == w[j],
            1 <= k,
            go_from(w, 1, None, None, None, false) == go_from(w, k as int, movetime, wtime, btime, ponder),
        decreases b.len() - k,
    {
        let bk = b[k];
        let is_movetime = word_is(s, bk, "movetime");
        let is_wtime = word_is(s, bk, "wtime");
        let is_btime = word_is(s, bk, "btime");
        if is_movetime || is_wtime || is_btime {
            if k + 1 >= b.len() {
                return Err(ParseError::Argument);
            }
            let bv = b[k + 1];
            let value = match parse_u64(s.substring_char(bv.0, bv.1)) {
                Some(v) => v,
                None => {
                    return Err(ParseError::Number);
                },
            };
            if is_movetime {
                movetime = Some(value);
            } else if is_wtime {
                wtime = Some(value);
            } else {
                btime = Some(value);
            }
            k = k + 2;
        } else {
            if word_is(s, bk, "ponder") {
                ponder = true;
            }
            k = k + 1;
        }
    }
    Ok(Command::Go { movetime, wtime, btime, ponder })
}

/// The FEN text of a `position fen` command: the words from 2 up to `end`, joined by spaces.
fn fen_text(s: &str, b: &Vec<(usize, usize)>, end: usize) -> (r: String)
    requires
        2 <= end <= b@.len(),
        forall|k: int| 0 <= k < b@.len() ==> (#[trigger] b@[k]).0 <= b@[k].1 <= s@.len(),
    ensures
        r@ == join_words(
            Seq::new(b@.len(), |k: int| s@.subrange(b@[k].0 as int, b@[k].1 as int)).subrange(
                2,
                end as int,
            ),
        ),
{
    let ghost ws = Seq::new(b@.len(), |k: int| s@.subrange(b@[k].0 as int, b@[k].1 as int));
    let mut r = String::new();
    let mut j: usize = 2;
    assert(ws.subrange(2, 2) =~= Seq::<Seq<char>>::empty());
    while j < end
        invariant
            2 <= j <= end <= b@.len(),
            forall|k: int| 0 <= k < b@.len() ==> (#[trigger] b@[k]).0 <= b@[k].1 <= s@.len(),
            ws == Seq::new(b@.len(), |k: int| s@.subrange(b@[k].0 as int, b@[k].1 as int)),
            r@ == join_words(ws.subrange(2, j as int)),
        decreases end - j,
    {
        let bj = b[j];
        let word = s.substring_char(bj.0, bj.1);
        proof {
            reveal_strlit(" ");
        }
        if j > 2 {
            r.append(" ");
        }
        r.append(word);
        proof {
            let next = ws.subrange(2, j + 1);
            assert(next.drop_last() =~= ws.subrange(2, j as int));
            assert(next.last() == ws[j as int]);
            if j == 2 {
                assert(r@ =~= next[0]);
            } else {
                assert(r@ =~= join_words(next.drop_last()) + seq![' '] + next.last());
            }
        }
        j = j + 1;
    }
    r
}

/// The board and moves of a `position` command, read from word 1 on.
fn parse_position(s: &str, b: &Vec<(usize, usize)>) -> (r: Result<Command, ParseError>)
    requires
        b@.len() == spec_words(s@).len(),
        forall|k: int| 0 <= k < b@.len() ==> (#[trigger] b@[k]).0 <= b@[k].1 <= s@.len(),
        forall|k: int| 0 <= k < b@.len() ==> s@.subrange(#[trigger] b@[k].0 as int, b@[k].1 as int)
            == spec_words(s@)[k],
    ensures
        r is Ok <==> spec_position(spec_words(s@)) is Ok,
        r matches Ok(c) ==> command_fits(c, spec_position(spec_words(s@))->Ok_0),
        r matches Err(e) ==> spec_position(spec_words(s@)) == Err::<CommandSpec, ParseError>(e),
{
    let ghost w = spec_words(s@);
    let mut board: Option<Board> = None;
    let mut k: usize = 1;
    let ghost mut choice = BoardChoice::Keep;
    if b.len() > 1 && word_is(s, b[1], "startpos") {
        board = Some(Board::default());
        k = 2;
        proof {
            choice = BoardChoice::Start;
        }
    } else if b.len() > 1 && word_is(s, b[1], "fen") {
        let end: usize = if b.len() < 8 {
            b.len()
        } else {
            8
        };
        let text = fen_text(s, b, end);
        proof {
            assert(Seq::new(b@.len(), |j: int| s@.subrange(b@[j].0 as int, b@[j].1 as int)) =~= w);
        }
        match Board::from_fen(text.as_str()) {
            Ok(bd) => {
                board = Some(bd);
            },
            Err(e) => {
                return Err(e);
            },
        }
        k = end;
        proof {
            choice = BoardChoice::Fen(join_words(w.subrange(2, end as int)));
        }
    }
    assert(board_fits(board, choice));
    let mut moves: Vec<Move> = Vec::new();
    if k < b.len() && word_is(s, b[k], "moves") {
        let ghost rest = w.subrange(k + 1, w.len() as int);
        let mut j: usize = k + 1;
        assert(rest.take(0) =~= Seq::<Seq<char>>::empty());
        while j < b.len()
            invariant
                w == spec_words(s@),
                b@.len() == w.len(),
                forall|i: int| 0 <= i < b@.len() ==> (#[trigger] b@[i]).0 <= b@[i].1 <= s@.len(),
                forall|i: int|
                    0 <= i < b@.len() ==> s@.subrange(#[trigger] b@[i].0 as int, b@[i].1 as int)
                        == w[i],
                k < b@.len(),
                w[k as int] == "moves"@,
                position_board(w) == (choice, k as int),
                board_fits(board, choice),
                k + 1 <= j <= b@.len(),
                rest == w.subrange(k + 1, w.len() as int),
                spec_parse_moves(rest.take(j - k - 1)) == Some(moves@),
            decreases b.len() - j,
        {
            let bj = b[j];
            let ghost next = rest.take(j - k);
            assert(next.drop_last() =~= rest.take(j - k - 1));
            assert(next.last() == w[j as int]);
            match Move::parse(s.substring_char(bj.0, bj.1)) {
                Ok(m) => {
                    moves.push(m);
                },
                Err(_) => {
                    proof {
                        lemma_parse_moves_prefix(rest, j - k);
                    }
                    return Err(ParseError::Move);
                },
            }
            j = j + 1;
        }
        assert(rest.take(j - k - 1) =~= rest);
    }
    Ok(Command::Position { board, moves })
}

impl Command {
    /// Reads a command line, as `str::parse` does: the first word names the command, and the
    /// words after it give its arguments.
    pub fn parse(s: &str) -> (r: Result<Command, ParseError>)
        ensures
            r is Ok <==> spec_command(s@) is Ok,
            r matches Ok(c) ==> command_fits(c, spec_command(s@)->Ok_0),
            r matches Err(e) ==> spec_command(s@) == Err::<CommandSpec, ParseError>(e),
    {
        let b = word_bounds(s);
        if b.len() == 0 {
            return Err(ParseError::Command);
        }
        let b0 = b[0];
        if word_is(s, b0, "uci") {
            Ok(Command::UCI)
        } else if word_is(s, b0, "isready") {
            Ok(Command::IsReady)
        } else if word_is(s, b0, "quit") {
            Ok(Command::Quit)
        } else if word_is(s, b0, "ponderhit") {
            Ok(Command::PonderHit)
        } else if word_is(s, b0, "stop") {
            Ok(Command::Stop)
        } else if word_is(s, b0, "go") {
            parse_go(s, &b)
        } else if word_is(s, b0, "position") {
            parse_position(s, &b)
        } else {
            Err(ParseError::Command)
        }
    }
}

} // verus!
