use chress::board::{Board, BoardState, FenError, START_FEN};
use chress::moves::{Move, MoveError};
use chress::uci::{best_move, parse_command, process_command, split_text, Command, CommandError};

#[test]
fn commands_are_read() {
    assert_eq!(parse_command("uci\n"), Some(Command::Uci));
    assert_eq!(parse_command("isready\n"), Some(Command::IsReady));
    assert_eq!(parse_command("ucinewgame\n"), Some(Command::UciNewGame));
    assert_eq!(parse_command("go\n"), Some(Command::Go));
    assert_eq!(parse_command("quit\n"), Some(Command::Quit));
    assert_eq!(
        parse_command("position startpos moves e2e4 e7e5\n"),
        Some(Command::Position(vec![
            "startpos".to_string(),
            "moves".to_string(),
            "e2e4".to_string(),
            "e7e5\n".to_string(),
        ]))
    );
    assert_eq!(parse_command("position"), Some(Command::Position(vec![])));
    assert_eq!(parse_command("uci"), None);
    assert_eq!(parse_command("go now\n"), None);
    assert_eq!(parse_command(""), None);
    assert_eq!(parse_command("position\n"), None);
}

#[test]
fn text_is_cut_at_each_separator() {
    assert_eq!(split_text("a b", ' '), vec!["a", "b"]);
    assert_eq!(split_text("a  b ", ' '), vec!["a", "", "b", ""]);
    assert_eq!(split_text("", ' '), vec![""]);
    assert_eq!(split_text(" ", ' '), vec!["", ""]);
}

#[test]
fn answers() {
    let mut board = Board::new(START_FEN).unwrap();
    assert_eq!(
        process_command(&Command::Uci, &mut board),
        Ok(Some(
            "id name Chress\nid author Luc de Cafmeyer\nuciok".to_string()
        ))
    );
    assert_eq!(
        process_command(&Command::IsReady, &mut board),
        Ok(Some("readyok".to_string()))
    );
    assert_eq!(process_command(&Command::Quit, &mut board), Ok(None));
    assert_eq!(board.history().len(), 1);
}

#[test]
fn position_sets_up_the_game() {
    let mut board = Board::new("4k3/8/8/8/8/8/8/4K3 w - - 0 1").unwrap();
    let command = parse_command("position startpos e2e4 e7e5 g1f3\n").unwrap();
    assert_eq!(process_command(&command, &mut board), Ok(None));
    assert_eq!(board.history().len(), 4);
    assert_eq!(
        board.history()[0],
        BoardState::from_fen(START_FEN).unwrap()
    );
    assert_eq!(
        board.current_position().last_move,
        Move::from_long_algebraic("g1f3")
    );
    assert_eq!(
        process_command(&Command::UciNewGame, &mut board),
        Ok(Some("readyok".to_string()))
    );
    assert_eq!(board.history().len(), 1);
    assert_eq!(
        board.current_position(),
        &BoardState::from_fen(START_FEN).unwrap()
    );
}

#[test]
fn position_stops_at_the_first_word_that_fails() {
    let mut board = Board::new(START_FEN).unwrap();
    let command = Command::Position(vec![
        "e2e4".to_string(),
        "moves".to_string(),
        "e7e5".to_string(),
    ]);
    assert_eq!(
        process_command(&command, &mut board),
        Err(CommandError::BadMove)
    );
    assert_eq!(board.history().len(), 2);
    let command = Command::Position(vec!["e7e5".to_string(), "g1f3".to_string()]);
    assert_eq!(process_command(&command, &mut board), Ok(None));
    let command = Command::Position(vec!["a3a4".to_string()]);
    assert_eq!(
        process_command(&command, &mut board),
        Err(CommandError::IllegalMove(MoveError::IllegalMove))
    );
    assert_eq!(board.history().len(), 4);
    assert_ne!(
        CommandError::BadPosition(FenError::BadPosition),
        CommandError::BadMove
    );
}

#[test]
fn go_names_a_legal_move() {
    let mut board = Board::new(START_FEN).unwrap();
    let legal: Vec<String> = board
        .legal_moves()
        .iter()
        .map(|m| format!("bestmove {}", m.long_algebraic()))
        .collect();
    let mut seen = Vec::new();
    for _ in 0..200 {
        let answer = process_command(&Command::Go, &mut board)
            .unwrap()
            .unwrap();
        assert!(legal.contains(&answer), "{}", answer);
        if !seen.contains(&answer) {
            seen.push(answer);
        }
    }
    assert!(seen.len() > 1);
    assert_eq!(board.history().len(), 1);
    // Stalemate: Black has no legal move.
    let mut board = Board::new("7k/5Q2/6K1/8/8/8/8/8 b - - 0 1").unwrap();
    assert_eq!(
        process_command(&Command::Go, &mut board),
        Err(CommandError::NoLegalMoves)
    );
}

#[test]
fn best_move_by_place() {
    let board = Board::new(START_FEN).unwrap();
    let moves = board.legal_moves();
    assert_eq!(best_move(&moves, 0), Some("bestmove b1a3".to_string()));
    assert_eq!(best_move(&moves, 19), Some("bestmove h2h4".to_string()));
    assert_eq!(best_move(&moves, 20), None);
}
