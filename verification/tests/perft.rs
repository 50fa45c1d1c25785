use chress::board::{Board, START_FEN};

fn perft(board: &mut Board, depth: usize) -> u64 {
    if depth == 0 {
        return 1;
    }

    let mut moves = 0;

    let legal_moves = board.legal_moves();

    for legal_move in legal_moves {
        board.make_move(legal_move).unwrap();
        moves += perft(board, depth - 1);
        board.unmake_move().unwrap();
    }

    moves
}

fn count(board: &mut Board, depth: usize) -> u64 {
    let legal_moves = board.legal_moves();
    if depth == 1 {
        return legal_moves.len() as u64;
    }
    let mut moves = 0;
    for legal_move in legal_moves {
        board.make_move(legal_move).unwrap();
        moves += count(board, depth - 1);
        board.unmake_move().unwrap();
    }
    moves
}

fn divide(fen: &str, depth: usize) -> Vec<String> {
    let mut board = Board::new(fen).unwrap();

    let moves = board.legal_moves();

    let mut results = Vec::with_capacity(moves.len());

    for mv in moves {
        board.make_move(mv).unwrap();
        let nodes = perft(&mut board, depth - 1);
        board.unmake_move().unwrap();

        results.push(format!(
            "{}{} {}",
            mv.from.to_string(),
            mv.to.to_string(),
            nodes
        ));
    }

    results
}

#[test]
fn starting_position() {
    let roce = "a4a5 418\nb2b3 440\nb2b4 441\nc2c3 420\nc2c4 441\nd2d3 559\nd2d4 580\ne2e3 619\ne2e4 620\nf2f3 400\nf2f4 421\ng2g3 440\ng2g4 441\nh2h3 400\nh2h4 440\na1a2 420\na1a3 540\nb1c3 460\nb1a3 440\ng1h3 420\ng1f3 460";

    let depth = 3;

    let mut chress = divide(
        "rnbqkbnr/pppppppp/8/8/P7/8/1PPPPPPP/RNBQKBNR w  - 0 1",
        depth,
    );
    chress.sort();

    let mut roce = roce.lines().map(|s| s.to_string()).collect::<Vec<String>>();
    roce.sort();

    for i in 0..chress.len() {
        let roce_res = &roce[i];
        let chress_res = &chress[i];

        let move_str = roce_res.split(" ").next().unwrap();
        let roce_moves = roce_res.split(" ").last().unwrap();
        let chress_moves = chress_res.split(" ").last().unwrap();

        if roce_res != chress_res {
            println!("{move_str}: {roce_moves} vs. {chress_moves}");
        }
    }
    assert_eq!(chress, roce);
}

#[test]
fn perft_from_the_start() {
    let mut board = Board::new(START_FEN).unwrap();
    assert_eq!(perft(&mut board, 0), 1);
    assert_eq!(perft(&mut board, 1), 20);
    assert_eq!(perft(&mut board, 2), 400);
    assert_eq!(perft(&mut board, 3), 8902);
    assert_eq!(board.history().len(), 1);
}

#[test]
fn perft_from_the_start_to_four_plies() {
    let mut board = Board::new(START_FEN).unwrap();
    assert_eq!(count(&mut board, 4), 197281);
}

#[test]
fn perft_with_castling_pins_and_en_passant() {
    let mut board =
        Board::new("r3k2r/p1ppqpb1/bn2pnp1/3PN3/1p2P3/2N2Q1p/PPPBBPPP/R3K2R w KQkq - 0 1").unwrap();
    assert_eq!(count(&mut board, 1), 48);
    assert_eq!(count(&mut board, 2), 2039);
    let mut board = Board::new("8/2p5/3p4/KP5r/1R3p1k/8/4P1P1/8 w - - 0 1").unwrap();
    assert_eq!(count(&mut board, 1), 14);
    assert_eq!(count(&mut board, 2), 191);
    assert_eq!(count(&mut board, 3), 2812);
}

#[test]
fn legal_moves_come_in_order() {
    let board = Board::new(START_FEN).unwrap();
    let names: Vec<String> = board
        .legal_moves()
        .iter()
        .map(|m| m.long_algebraic())
        .collect();
    assert_eq!(
        names,
        vec![
            "b1a3", "b1c3", "g1f3", "g1h3", "a2a3", "a2a4", "b2b3", "b2b4", "c2c3", "c2c4", "d2d3",
            "d2d4", "e2e3", "e2e4", "f2f3", "f2f4", "g2g3", "g2g4", "h2h3", "h2h4",
        ]
    );
}
