//! The commands of the control protocol and what they do to a game.
//!
//! A line of input is cut at each space. Its first word names the command;
//! the words that end a line carry the line feed with them.
use vstd::prelude::*;
use vstd::string::*;
use rand::Rng;
use crate::board::{Board, BoardState, FenError, START_FEN, made};
use crate::fen::{parse_fen, split, trimmed, trimmed_chars};
use crate::moves::{Move, MoveError};

verus! {

/// A command of the control protocol.
#[derive(Debug, PartialEq, Eq)]
pub enum Command {
    /// Asks the engine to name itself.
    Uci,
    /// Asks whether the engine is ready.
    IsReady,
    /// Starts a new game.
    UciNewGame,
    /// Sets up a position: the words that follow the command, each either
    /// `startpos` or a move.
    Position(Vec<String>),
    /// Asks for a move.
    Go,
    /// Ends the session.
    Quit,
}

/// Why a command could not be carried out.
#[derive(Debug, Clone, Copy, PartialEq, Eq, Structural)]
pub enum CommandError {
    /// The starting position could not be read.
    BadPosition(FenError),
    /// A word is neither `startpos` nor a move in long algebraic notation.
    BadMove,
    /// A move could not be made.
    IllegalMove(MoveError),
    /// The side to move has no legal move.
    NoLegalMoves,
}

/// The views of the texts in `v`.
pub open spec fn words(v: Seq<String>) -> Seq<Seq<char>> {
    Seq::new(v.len(), |i: int| v[i]@)
}

/// What a line of input stands for: `command` is the command that the first
/// word names, and a `position` command carries the words that follow it.
pub open spec fn command_of(input: Seq<char>, command: Option<Command>) -> bool {
    let parts = split(input, ' ');
    if parts[0] =~= "uci\n"@ {
        command == Some(Command::Uci)
    } else if parts[0] =~= "isready\n"@ {
        command == Some(Command::IsReady)
    } else if parts[0] =~= "ucinewgame\n"@ {
        command == Some(Command::UciNewGame)
    } else if parts[0] =~= "position"@ {
        command matches Some(Command::Position(args)) && words(args@) =~= parts.subrange(
            1,
            parts.len() as int,
        )
    } else if parts[0] =~= "go\n"@ {
        command == Some(Command::Go)
    } else if parts[0] =~= "quit\n"@ {
        command == Some(Command::Quit)
    } else {
        command is None
    }
}

/// Cuts `text` at each `sep`.
pub fn split_text(text: &str, sep: char) -> (parts: Vec<String>)
    ensures
        words(parts@) == split(text@, sep),
        parts@.len() >= 1,
{
    let len = text.unicode_len();
    let mut parts: Vec<String> = Vec::new();
    let mut start: usize = 0;
    let mut i: usize = 0;
    assert(text@.subrange(0, 0) =~= Seq::<char>::empty());
    assert(words(parts@).push(text@.subrange(0, 0)) =~= split(text@.subrange(0, 0), sep));
    while i < len
        invariant
            start <= i <= len,
            len == text@.len(),
            words(parts@).push(text@.subrange(start as int, i as int)) == split(
                text@.subrange(0, i as int),
                sep,
            ),
        decreases len - i,
    {
        let c = text.get_char(i);
        let ghost before = text@.subrange(0, i as int);
        let ghost now = text@.subrange(0, i + 1);
        let ghost current = text@.subrange(start as int, i as int);
        proof {
            assert(now.drop_last() =~= before);
            assert(now.last() == c);
            let head = split(before, sep);
            assert(head.last() == current);
            assert(head.drop_last() =~= words(parts@));
        }
        if c == sep {
            let ghost old_parts = parts@;
            let part = String::from_str(text.substring_char(start, i));
            parts.push(part);
            start = i + 1;
            proof {
                assert(words(parts@) =~= words(old_parts).push(current));
                assert(text@.subrange(start as int, i + 1) =~= Seq::<char>::empty());
                assert(words(parts@).push(text@.subrange(start as int, i + 1)) =~= split(now, sep));
            }
        } else {
            proof {
                assert(text@.subrange(start as int, i + 1) =~= current.push(c));
                assert(words(parts@).push(text@.subrange(start as int, i + 1)) =~= split(now, sep));
            }
        }
        i += 1;
    }
    let ghost old_parts = parts@;
    let part = String::from_str(text.substring_char(start, len));
    parts.push(part);
    proof {
        assert(text@.subrange(0, len as int) =~= text@);
        assert(words(parts@) =~= words(old_parts).push(text@.subrange(start as int, len as int)));
    }
    parts
}

/// Whether two texts are the same.
fn same_word(a: &str, b: &str) -> (same: bool)
    ensures
        same == (a@ =~= b@),
{
    let len = a.unicode_len();
    if len != b.unicode_len() {
        return false;
    }
    let mut i: usize = 0;
    while i < len
        invariant
            i <= len,
            len == a@.len(),
            len == b@.len(),
            forall|j: int| 0 <= j < i ==> a@[j] == b@[j],
        decreases len - i,
    {
        if a.get_char(i) != b.get_char(i) {
            return false;
        }
        i += 1;
    }
    true
}

/// Reads a line of input. `None` if its first word names no command.
pub fn parse_command(input: &str) -> (command: Option<Command>)
    ensures
        command_of(input@, command),
{
    let mut parts = split_text(input, ' ');
    let ghost all = split(input@, ' ');
    assert(words(parts@)[0] == parts@[0]@);
    let first = parts.remove(0);
    assert(words(parts@) =~= all.subrange(1, all.len() as int)) by {
        assert forall|i: int| 0 <= i < parts@.len() implies #[trigger] words(parts@)[i] == all[i
            + 1] by {
            assert(words(parts@)[i] == parts@[i]@);
        }
    }
    let word = first.as_str();
    if same_word(word, "uci\n") {
        Some(Command::Uci)
    } else if same_word(word, "isready\n") {
        Some(Command::IsReady)
    } else if same_word(word, "ucinewgame\n") {
        Some(Command::UciNewGame)
    } else if same_word(word, "position") {
        Some(Command::Position(parts))
    } else if same_word(word, "go\n") {
        Some(Command::Go)
    } else if same_word(word, "quit\n") {
        Some(Command::Quit)
    } else {
        None
    }
}

/// What one word of a `position` command makes of a game: `startpos` sets
/// up the starting position, and a move is made if any pseudolegal move
/// leaves its square. White space around the word is dropped.
pub open spec fn position_step(history: Seq<BoardState>, word: Seq<char>) -> Result<
    Seq<BoardState>,
    CommandError,
> {
    let word = trimmed(word);
    if word =~= "startpos"@ {
        match parse_fen(START_FEN@) {
            Ok(state) => Ok(seq![state]),
            Err(e) => Err(CommandError::BadPosition(e)),
        }
    } else {
        match Move::parse(word) {
            Some(mv) => if history.last().pseudolegal_mask(mv.from.index()) != 0 {
                Ok(made(history, mv))
            } else {
                Err(CommandError::IllegalMove(MoveError::IllegalMove))
            },
            None => Err(CommandError::BadMove),
        }
    }
}

/// What the words of a `position` command make of a game, one after the
/// other: the game after the last word that could be carried out, and the
/// error of the first word that could not, if there is one. No word after
/// that one is looked at.
pub open spec fn position_steps(history: Seq<BoardState>, args: Seq<Seq<char>>) -> (
    Seq<BoardState>,
    Option<CommandError>,
)
    decreases args.len(),
{
    if args.len() == 0 {
        (history, None)
    } else {
        let (before, failed) = position_steps(history, args.drop_last());
        if failed is Some {
            (before, failed)
        } else {
            match position_step(before, args.last()) {
                Ok(after) => (after, None),
                Err(e) => (before, Some(e)),
            }
        }
    }
}

/// Once a word has failed, the words after it change nothing.
proof fn lemma_position_stops(history: Seq<BoardState>, args: Seq<Seq<char>>, n: int)
    requires
        0 <= n <= args.len(),
        position_steps(history, args.subrange(0, n)).1 is Some,
    ensures
        position_steps(history, args) == position_steps(history, args.subrange(0, n)),
    decreases args.len() - n,
{
    if n == args.len() {
        assert(args.subrange(0, n) =~= args);
    } else {
        assert(args.drop_last().subrange(0, n) =~= args.subrange(0, n));
        lemma_position_stops(history, args.drop_last(), n);
    }
}

/// Carries out one word of a `position` command.
fn play_word(board: &mut Board, word: &String) -> (result: Result<(), CommandError>)
    ensures
        old(board)@.len() >= 1,
        match result {
            Ok(_) => position_step(old(board)@, word@) == Ok::<Seq<BoardState>, CommandError>(
                final(board)@,
            ),
            Err(e) => position_step(old(board)@, word@) == Err::<Seq<BoardState>, CommandError>(e)
                && final(board)@ == old(board)@,
        },
{
    let chars = trimmed_chars(word.as_str());
    proof {
        reveal_strlit("startpos");
    }
    let is_start = chars.len() == 8 && chars[0] == 's' && chars[1] == 't' && chars[2] == 'a'
        && chars[3] == 'r' && chars[4] == 't' && chars[5] == 'p' && chars[6] == 'o' && chars[7]
        == 's';
    assert(is_start == (chars@ =~= "startpos"@));
    if is_start {
        let _ = board.history();
        return match board.load_from_fen(START_FEN) {
            Ok(_) => Ok(()),
            Err(e) => Err(CommandError::BadPosition(e)),
        };
    }
    let mv = match Move::from_chars(&chars) {
        Some(mv) => mv,
        None => {
            let _ = board.history();
            return Err(CommandError::BadMove);
        },
    };
    match board.make_move(mv) {
        Ok(_) => Ok(()),
        Err(e) => Err(CommandError::IllegalMove(e)),
    }
}

/// Carries out the words of a `position` command one after the other, up
/// to the first that fails.
fn play_words(board: &mut Board, moves: &Vec<String>) -> (result: Result<(), CommandError>)
    ensures
        position_steps(old(board)@, words(moves@)).0 == final(board)@,
        match result {
            Ok(_) => position_steps(old(board)@, words(moves@)).1 is None,
            Err(e) => position_steps(old(board)@, words(moves@)).1 == Some(e),
        },
{
    let ghost start = board@;
    let ghost args = words(moves@);
    let mut i: usize = 0;
    assert(args.subrange(0, 0) =~= Seq::<Seq<char>>::empty());
    while i < moves.len()
        invariant
            i <= moves@.len(),
            start == old(board)@,
            args == words(moves@),
            position_steps(start, args.subrange(0, i as int)) == (board@, None::<CommandError>),
        decreases moves@.len() - i,
    {
        let ghost now = args.subrange(0, i + 1);
        let ghost before = board@;
        proof {
            assert(now.drop_last() =~= args.subrange(0, i as int));
            assert(now.last() == moves@[i as int]@);
        }
        match play_word(board, &moves[i]) {
            Ok(_) => {
                assert(position_steps(start, now) == (board@, None::<CommandError>));
            },
            Err(e) => {
                proof {
                    assert(position_steps(start, now) == (before, Some(e)));
                    lemma_position_stops(start, args, i + 1);
                }
                return Err(e);
            },
        }
        i += 1;
    }
    assert(args.subrange(0, args.len() as int) =~= args);
    Ok(())
}

/// Draws an index below `n` from `rand::thread_rng()` with
/// `Rng::gen_range(0..n)`, which gives a value of the range and panics on
/// an empty one. Which index comes back is left open.
#[verifier::external_body]
fn random_index(n: usize) -> (i: usize)
    requires
        n > 0,
    ensures
        i < n,
{
    rand::thread_rng().gen_range(0..n)
}

/// The answer to a `go` command that names `mv`.
pub open spec fn best_move_text(mv: Move) -> Seq<char> {
    "bestmove "@ + mv.name()
}

/// The answer to a `go` command: the move at place `draw` of the legal
/// moves. `None` if there is no such place.
pub fn best_move(moves: &Vec<Move>, draw: usize) -> (answer: Option<String>)
    ensures
        answer is Some <==> draw < moves@.len(),
        answer is Some ==> answer->0@ == best_move_text(moves@[draw as int]),
{
    if draw >= moves.len() {
        return None;
    }
    let mut answer = String::from_str("bestmove ");
    let name = moves[draw].long_algebraic();
    answer.append(name.as_str());
    Some(answer)
}

/// Carries out a command on a game and gives the answer to send, if there
/// is one.
///
/// `uci` and `isready` are answered and change nothing. `ucinewgame` sets
/// up the starting position. `position` carries out its words one after the
/// other and stops at the first that fails; the game then stays as the words
/// before it left it. `go` answers with one of the legal moves, picked at
/// random, and fails if there is none. `quit` does nothing.
pub fn process_command(command: &Command, board: &mut Board) -> (result: Result<
    Option<String>,
    CommandError,
>)
    ensures
        old(board)@.len() >= 1,
        match *command {
            Command::Uci => final(board)@ == old(board)@ && result is Ok && result->Ok_0 is Some
                && result->Ok_0->0@ == "id name Chress\nid author Luc de Cafmeyer\nuciok"@,
            Command::IsReady => final(board)@ == old(board)@ && result is Ok && result->Ok_0 is Some
                && result->Ok_0->0@ == "readyok"@,
            Command::UciNewGame => match parse_fen(START_FEN@) {
                Ok(state) => final(board)@ == seq![state] && result is Ok && result->Ok_0 is Some
                    && result->Ok_0->0@ == "readyok"@,
                Err(e) => final(board)@ == old(board)@ && result == Err::<
                    Option<String>,
                    CommandError,
                >(CommandError::BadPosition(e)),
            },
            Command::Position(args) => {
                let (history, failed) = position_steps(old(board)@, words(args@));
                &&& final(board)@ == history
                &&& match failed {
                    Some(e) => result == Err::<Option<String>, CommandError>(e),
                    None => result is Ok && result->Ok_0 is None,
                }
            },
            Command::Go => final(board)@ == old(board)@ && match result {
                Ok(answer) => answer is Some && exists|mv: Move|
                    old(board)@.last().legal(mv) && answer->0@ == #[trigger] best_move_text(mv),
                Err(e) => e == CommandError::NoLegalMoves && forall|mv: Move|
                    !#[trigger] old(board)@.last().legal(mv),
            },
            Command::Quit => final(board)@ == old(board)@ && result is Ok && result->Ok_0 is None,
        },
{
    let _ = board.history();
    match command {
        Command::Uci => Ok(
            Some(String::from_str("id name Chress\nid author Luc de Cafmeyer\nuciok")),
        ),
        Command::IsReady => Ok(Some(String::from_str("readyok"))),
        Command::UciNewGame => match board.load_from_fen(START_FEN) {
            Ok(_) => Ok(Some(String::from_str("readyok"))),
            Err(e) => Err(CommandError::BadPosition(e)),
        },
        Command::Position(moves) => match play_words(board, moves) {
            Ok(_) => Ok(None),
            Err(e) => Err(e),
        },
        Command::Go => {
            let legal_moves = board.legal_moves();
            if legal_moves.len() == 0 {
                proof {
                    assert forall|mv: Move| !#[trigger] board@.last().legal(mv) by {
                        if board@.last().legal(mv) {
                            assert(legal_moves@.contains(mv));
                        }
                    }
                }
                return Err(CommandError::NoLegalMoves);
            }
            let random_index = random_index(legal_moves.len());
            match best_move(&legal_moves, random_index) {
                Some(answer) => {
                    assert(board@.last().legal(legal_moves@[random_index as int]));
                    Ok(Some(answer))
                },
                None => Err(CommandError::NoLegalMoves),
            }
        },
        Command::Quit => Ok(None),
    }
}

} // verus!
