use chress::board::{Board, BoardInitError, BoardState, CastleDirection, FenError, START_FEN};
use chress::mask::Mask;
use chress::moves::{Move, MoveError};
use chress::piece::{Color, Piece};
use chress::square::Square;

fn mv(text: &str) -> Move {
    Move::from_long_algebraic(text).unwrap()
}

#[test]
fn en_passant_legal_move() {
    let mut board = Board::new(START_FEN).unwrap();
    board.load_from_fen(START_FEN).unwrap();

    let _ = board.make_move(Move {
        from: Square::E2,
        to: Square::E5,
    });

    let _ = board.make_move(Move {
        from: Square::D7,
        to: Square::D5,
    });

    assert!(board.is_move_legal(Move {
        from: Square::E5,
        to: Square::D6,
    }));
}

#[test]
fn board_en_passant_mask() {
    let mut board = Board::new(START_FEN).unwrap();
    board.load_from_fen(START_FEN).unwrap();

    let _ = board.make_move(Move {
        from: Square::E2,
        to: Square::E4,
    });

    assert_eq!(
        board.current_position().en_passant_mask(),
        Some(Square::E3.mask())
    );

    let _ = board.make_move(Move {
        from: Square::E7,
        to: Square::E5,
    });

    assert_eq!(
        board.current_position().en_passant_mask(),
        Some(Square::E6.mask())
    );

    let _ = board.make_move(Move {
        from: Square::G1,
        to: Square::F3,
    });

    assert_eq!(board.current_position().en_passant_mask(), None);
}

#[test]
fn en_passant_captures_pawn() {
    let mut board = Board::new(START_FEN).unwrap();
    board.load_from_fen(START_FEN).unwrap();

    let _ = board.make_move(Move {
        from: Square::E2,
        to: Square::E5,
    });

    let _ = board.make_move(Move {
        from: Square::D7,
        to: Square::D5,
    });

    let _ = board.make_move(Move {
        from: Square::E5,
        to: Square::D6,
    });

    println!("{}", board.current_position().all_pieces_mask().to_grid());
    let state = board.current_position();
    assert_eq!(state.piece_at_square(Square::D5), None);
    assert_eq!(state.piece_at_square(Square::E5), None);
    assert_eq!(
        state.piece_at_square(Square::D6),
        Some(Piece::Pawn(Color::White))
    );
    assert_eq!(state.mask(Piece::Pawn(Color::Black)), Mask(0x00f7_0000_0000_0000));
}

#[test]
fn castling() {
    let mut board = Board::new(START_FEN).unwrap();

    // Setup pieces to castle
    let _ = board.make_move_unchecked(Move::from_long_algebraic("d2d4").unwrap());
    let _ = board.make_move_unchecked(Move::from_long_algebraic("g8f6").unwrap());
    let _ = board.make_move_unchecked(Move::from_long_algebraic("c1f4").unwrap());
    let _ = board.make_move_unchecked(Move::from_long_algebraic("e7e6").unwrap());
    let _ = board.make_move_unchecked(Move::from_long_algebraic("b1c3").unwrap());
    let _ = board.make_move_unchecked(Move::from_long_algebraic("f8e7").unwrap());
    let _ = board.make_move_unchecked(Move::from_long_algebraic("d1d2").unwrap());

    // Castle black king kingside and white king queenside
    let _ = board.make_move_unchecked(Move::from_long_algebraic("e8g8").unwrap());
    let _ = board.make_move_unchecked(Move::from_long_algebraic("e1c1").unwrap());

    assert_eq!(
        board.history()[0].all_pieces_mask(),
        Mask(18446462598732906495),
    );
}

#[test]
fn castling_reaches_the_expected_occupancy() {
    let mut board = Board::new(START_FEN).unwrap();
    for text in [
        "d2d4", "g8f6", "c1f4", "e7e6", "b1c3", "f8e7", "d1d2", "e8g8", "e1c1",
    ] {
        assert!(board.legal_moves().contains(&mv(text)), "{}", text);
        board.make_move(mv(text)).unwrap();
    }
    let state = board.current_position();
    // White: Kc1 Rd1 Qd2 Nc3 Bf4 Bf1 Ng1 Rh1, pawns a2 b2 c2 d4 e2 f2 g2 h2.
    assert_eq!(state.white_pieces_mask(), Mask(0x0000_0000_2804_ffec));
    // Black: Ra8 Nb8 Bc8 Qd8 Rf8 Kg8 Be7 Nf6, pawns a7 b7 c7 d7 e6 f7 g7 h7.
    assert_eq!(state.black_pieces_mask(), Mask(0x6fff_3000_0000_0000));
    assert_eq!(state.all_pieces_mask(), Mask(0x6fff_3000_2804_ffec));
    assert_eq!(state.mask(Piece::King(Color::White)), Square::C1.mask());
    assert_eq!(
        state.mask(Piece::Rook(Color::White)),
        Square::D1.mask() | Square::H1.mask()
    );
    assert_eq!(state.mask(Piece::King(Color::Black)), Square::G8.mask());
    assert_eq!(
        state.mask(Piece::Rook(Color::Black)),
        Square::A8.mask() | Square::F8.mask()
    );
    assert_eq!(state.halfmoves, 5);
    assert_eq!(state.fullmoves, 5);
    assert_eq!(state.active_color, Color::Black);
}

#[test]
fn en_passant_is_legal() {
    let mut board = Board::new(START_FEN).unwrap();

    board
        .make_move_unchecked(Move {
            from: Square::E2,
            to: Square::E5,
        })
        .unwrap();

    board
        .make_move_unchecked(Move {
            from: Square::D7,
            to: Square::D5,
        })
        .unwrap();

    assert!(board.is_move_legal(Move {
        from: Square::E5,
        to: Square::D6,
    }));
}

#[test]
fn mod_en_passant_mask() {
    let mut board = Board::new(START_FEN).unwrap();

    let _ = board.make_move_unchecked(Move {
        from: Square::E2,
        to: Square::E4,
    });

    assert_eq!(
        board.current_position().en_passant_mask(),
        Some(Square::E3.mask())
    );

    let _ = board.make_move_unchecked(Move {
        from: Square::E7,
        to: Square::E5,
    });

    assert_eq!(
        board.current_position().en_passant_mask(),
        Some(Square::E6.mask())
    );

    let _ = board.make_move_unchecked(Move {
        from: Square::G1,
        to: Square::F3,
    });

    assert_eq!(board.current_position().en_passant_mask(), None);
}

#[test]
fn castling_rights() {
    const TEST_POS_FEN: &str = "rnbqk2r/ppppbppp/4pn2/8/3P1B2/2N5/PPPQPPPP/R3KBNR b KQkq - 3 4";

    let mut board = Board::new(TEST_POS_FEN).unwrap();

    assert!(board.is_move_legal(Move::from_long_algebraic("e8g8").unwrap()));

    board
        .make_move_unchecked(Move::from_long_algebraic("e8g8").unwrap())
        .unwrap();

    assert!(board.is_move_legal(Move::from_long_algebraic("e1c1").unwrap()));
}

#[test]
fn excessive_moves() {
    const TEST_POS_FEN: &str = "rnbqk2r/ppppbppp/4pn2/8/3P1B2/2N5/PPPQPPPP/R3KBNR b KQkq - 3 4";
    let board = Board::new(TEST_POS_FEN).unwrap();
    let sliding_moves = chress::move_gen::SlidingMoves::init().unwrap();

    let mut total = 0;
    for i in 0..64 {
        let square = Square::from_u8(i).unwrap();
        let mask = board
            .current_position()
            .get_pseudolegal_move_mask(square, &sliding_moves);
        println!("Pseudolegal moves from {}: ", square.to_string());
        println!("{}", mask.to_grid());
        total += mask.ones().len();
    }
    // Black to move: 29 pseudolegal moves, castling short among them.
    assert_eq!(total, 29);
    assert_eq!(
        board
            .current_position()
            .get_pseudolegal_move_mask(Square::E8, &sliding_moves),
        Square::F8.mask() | Square::G8.mask()
    );
}

#[test]
fn castling_rights_are_never_restored() {
    let mut board = Board::new(START_FEN).unwrap();
    for text in ["h2h4", "a7a5", "h1h3", "a8a6", "h3h1", "a6a8", "g1f3", "g8f6"] {
        board.make_move(mv(text)).unwrap();
    }
    let state = board.current_position();
    assert!(state.h1_rook_moved);
    assert!(state.a8_rook_moved);
    assert!(!state.a1_rook_moved);
    assert!(!state.h8_rook_moved);
    assert!(!state.has_castle_right(Color::White, CastleDirection::Kingside));
    assert!(state.has_castle_right(Color::White, CastleDirection::Queenside));
    assert!(!state.has_castle_right(Color::Black, CastleDirection::Queenside));
    assert!(state.has_castle_right(Color::Black, CastleDirection::Kingside));
}

#[test]
fn a_rook_taken_at_home_ends_the_right() {
    // The bishop on b7 takes the rook on h1 along the long diagonal.
    let mut board =
        Board::new("rn1qkbnr/pbpppppp/1p6/8/8/6P1/PPPPPP1P/RNBQKBNR b KQkq - 0 1").unwrap();
    assert!(board.legal_moves().contains(&mv("b7h1")));
    board.make_move(mv("b7h1")).unwrap();
    let state = board.current_position();
    assert!(state.h1_rook_moved);
    assert_eq!(state.mask(Piece::Rook(Color::White)), Square::A1.mask());
    assert_eq!(state.halfmoves, 0);
}

#[test]
fn no_castling_once_the_flag_is_set() {
    let with_right = Board::new("r3k2r/8/8/8/8/8/8/R3K2R w KQkq - 0 1").unwrap();
    assert!(with_right.legal_moves().contains(&mv("e1g1")));
    assert!(with_right.legal_moves().contains(&mv("e1c1")));
    let without = Board::new("r3k2r/8/8/8/8/8/8/R3K2R w Qkq - 0 1").unwrap();
    assert!(!without.legal_moves().contains(&mv("e1g1")));
    assert!(without.legal_moves().contains(&mv("e1c1")));
    let none = Board::new("r3k2r/8/8/8/8/8/8/R3K2R w - - 0 1").unwrap();
    assert!(!none.legal_moves().contains(&mv("e1g1")));
    assert!(!none.legal_moves().contains(&mv("e1c1")));
}

#[test]
fn no_castling_through_an_attacked_square() {
    // The black rook on f8 attacks f1.
    let board = Board::new("4kr2/8/8/8/8/8/8/R3K2R w KQ - 0 1").unwrap();
    let moves = board.legal_moves();
    assert!(!moves.contains(&mv("e1g1")));
    assert!(moves.contains(&mv("e1c1")));
    let sliding_moves = chress::move_gen::SlidingMoves::init().unwrap();
    let state = board.current_position();
    assert!(!state.can_castle(Color::White, CastleDirection::Kingside, &sliding_moves));
    assert!(state.can_castle(Color::White, CastleDirection::Queenside, &sliding_moves));
}

#[test]
fn a_king_away_from_home_does_not_castle() {
    let board = Board::new("4k3/8/8/8/8/8/4K3/R6R w KQ - 0 1").unwrap();
    let moves = board.legal_moves();
    assert!(!moves.contains(&mv("e2g1")));
    assert!(!moves.contains(&mv("e2c1")));
}

#[test]
fn check_avoidance_filter() {
    // The knight on e2 is pinned by the rook on e8; the king may not step
    // onto the d-file, which the rook on d8 holds.
    let board = Board::new("3rr2k/8/8/8/8/8/4N3/4K3 w - - 0 1").unwrap();
    let state = board.current_position();
    let sliding_moves = chress::move_gen::SlidingMoves::init().unwrap();
    let knight = state.get_pseudolegal_move_mask(Square::E2, &sliding_moves);
    assert_eq!(knight.ones().len(), 6);
    let moves = board.legal_moves();
    assert!(moves.iter().all(|m| m.from != Square::E2));
    assert!(!moves.contains(&mv("e1d1")));
    assert!(!moves.contains(&mv("e1d2")));
    assert_eq!(moves, vec![mv("e1f1"), mv("e1f2")]);
    assert!(!state.is_move_legal(mv("e2c3"), &sliding_moves));
    assert!(!state.in_check(Color::White, &sliding_moves));
}

#[test]
fn in_check_and_attacked_by() {
    let board = Board::new("4k3/8/8/8/8/5n2/3p4/4K3 w - - 0 1").unwrap();
    let state = board.current_position();
    let sliding_moves = chress::move_gen::SlidingMoves::init().unwrap();
    assert!(state.in_check(Color::White, &sliding_moves));
    assert!(!state.in_check(Color::Black, &sliding_moves));
    // The pawn on d2 attacks c1 and e1; the knight on f3 attacks e1 and g1.
    assert!(state.attacked_by(Square::C1, Color::Black, &sliding_moves));
    assert!(state.attacked_by(Square::E1, Color::Black, &sliding_moves));
    assert!(state.attacked_by(Square::G1, Color::Black, &sliding_moves));
    assert!(!state.attacked_by(Square::D1, Color::Black, &sliding_moves));
    assert!(!state.attacked_by(Square::D3, Color::Black, &sliding_moves));
    // The white king attacks d2.
    assert!(state.attacked_by(Square::D2, Color::White, &sliding_moves));
    assert!(!state.attacked_by(Square::D3, Color::White, &sliding_moves));
}

#[test]
fn pawns_are_pushed_onto_empty_squares_only() {
    let board = Board::new("4k3/8/8/8/4p3/4P3/3P4/4K3 w - - 0 1").unwrap();
    let state = board.current_position();
    let sliding_moves = chress::move_gen::SlidingMoves::init().unwrap();
    assert_eq!(
        state.get_pseudolegal_move_mask(Square::E3, &sliding_moves),
        Mask(0)
    );
    assert_eq!(
        state.get_pseudolegal_move_mask(Square::D2, &sliding_moves),
        Square::D3.mask() | Square::D4.mask()
    );
    // A pawn on its starting rank with the square ahead occupied stays.
    let blocked = Board::new("4k3/8/8/8/8/3n4/3P4/4K3 w - - 0 1").unwrap();
    assert_eq!(
        blocked
            .current_position()
            .get_pseudolegal_move_mask(Square::D2, &sliding_moves),
        Mask(0)
    );
    // The far square of a double push occupied: the single push is left.
    let far = Board::new("4k3/8/8/8/3n4/8/3P4/4K3 w - - 0 1").unwrap();
    assert_eq!(
        far.current_position()
            .get_pseudolegal_move_mask(Square::D2, &sliding_moves),
        Square::D3.mask()
    );
}

#[test]
fn promotion_makes_a_queen_and_takes_what_stood_there() {
    let mut board =
        Board::new("rnbq1k1r/pp1Pbppp/2p5/8/2B5/8/PPP1NnPP/RNBQK2R w KQ - 1 8").unwrap();
    assert!(board.legal_moves().contains(&mv("d7c8")));
    board.make_move(mv("d7c8")).unwrap();
    let state = board.current_position();
    assert_eq!(
        state.piece_at_square(Square::C8),
        Some(Piece::Queen(Color::White))
    );
    assert_eq!(state.piece_at_square(Square::D7), None);
    assert_eq!(state.mask(Piece::Bishop(Color::Black)), Square::E7.mask());
    assert_eq!(
        state.mask(Piece::Queen(Color::White)),
        Square::D1.mask() | Square::C8.mask()
    );
    assert_eq!(state.halfmoves, 0);
    assert_eq!(state.fullmoves, 8);
}

#[test]
fn counters() {
    let mut board = Board::new(START_FEN).unwrap();
    board.make_move(mv("g1f3")).unwrap();
    assert_eq!(board.current_position().halfmoves, 1);
    assert_eq!(board.current_position().fullmoves, 1);
    board.make_move(mv("g8f6")).unwrap();
    assert_eq!(board.current_position().halfmoves, 2);
    assert_eq!(board.current_position().fullmoves, 2);
    board.make_move(mv("e2e4")).unwrap();
    assert_eq!(board.current_position().halfmoves, 0);
    assert_eq!(board.current_position().fullmoves, 2);
    board.make_move(mv("f6e4")).unwrap();
    assert_eq!(board.current_position().halfmoves, 0);
    assert_eq!(board.current_position().fullmoves, 3);
    assert_eq!(board.current_position().last_move, Some(mv("f6e4")));
    assert_eq!(board.current_position().active_color, Color::White);
}

#[test]
fn counters_stop_at_their_largest_value() {
    let mut state = BoardState::from_fen("4k3/8/8/8/8/8/8/4K2R b K - 100 4294967295").unwrap();
    state.halfmoves = 255;
    let next = state.make_move_unchecked(mv("e8d8")).unwrap();
    assert_eq!(next.halfmoves, 255);
    assert_eq!(next.fullmoves, 4294967295);
}

#[test]
fn make_and_unmake_round_trip() {
    let mut board = Board::new(START_FEN).unwrap();
    board.make_move(mv("e2e4")).unwrap();
    board.make_move(mv("d7d5")).unwrap();
    let before: Vec<BoardState> = board.history().clone();
    for m in board.legal_moves() {
        board.make_move(m).unwrap();
        assert_eq!(board.history().len(), before.len() + 1);
        board.unmake_move().unwrap();
        assert_eq!(board.history(), &before);
    }
    board.unmake_move().unwrap();
    board.unmake_move().unwrap();
    assert_eq!(
        board.current_position(),
        &BoardState::from_fen(START_FEN).unwrap()
    );
}

#[test]
fn move_errors() {
    let mut board = Board::new(START_FEN).unwrap();
    assert_eq!(board.unmake_move(), Err(MoveError::NoPreviousMoves));
    assert_eq!(
        board.make_move_unchecked(mv("e4e5")),
        Err(MoveError::MissingPiece)
    );
    // Nothing stands on e4, a black pawn on e7, and the rook on a1 is shut in.
    assert_eq!(board.make_move(mv("e4e5")), Err(MoveError::IllegalMove));
    assert_eq!(board.make_move(mv("e7e5")), Err(MoveError::IllegalMove));
    assert_eq!(board.make_move(mv("a1a3")), Err(MoveError::IllegalMove));
    assert_eq!(board.history().len(), 1);
    assert_eq!(
        board.current_position(),
        &BoardState::from_fen(START_FEN).unwrap()
    );
    assert!(!board.is_move_legal(mv("e2e2")));
    assert!(!board.is_move_legal(mv("e4e5")));
}

#[test]
fn single_occupancy_holds_along_legal_play() {
    fn walk(board: &mut Board, depth: usize) {
        let state = board.current_position();
        let mut seen = 0u64;
        for i in 0..12 {
            let piece = Piece::from_mask_index(i).unwrap();
            assert_eq!(seen & state.mask(piece).0, 0);
            seen |= state.mask(piece).0;
        }
        if depth == 0 {
            return;
        }
        for m in board.legal_moves() {
            board.make_move(m).unwrap();
            walk(board, depth - 1);
            board.unmake_move().unwrap();
        }
    }
    let mut board =
        Board::new("rnbq1k1r/pp1Pbppp/2p5/8/2B5/8/PPP1NnPP/RNBQK2R w KQ - 1 8").unwrap();
    walk(&mut board, 2);
    let mut board =
        Board::new("r3k2r/p1ppqpb1/bn2pnp1/3PN3/1p2P3/2N2Q1p/PPPBBPPP/R3K2R w KQkq - 0 1").unwrap();
    walk(&mut board, 2);
}

#[test]
fn board_new_reports_a_bad_position_text() {
    assert_eq!(
        Board::new("not a position").err(),
        Some(BoardInitError::Fen(FenError::BadPosition))
    );
    let mut board = Board::new(START_FEN).unwrap();
    board.make_move(mv("e2e4")).unwrap();
    assert_eq!(
        board.load_from_fen("8/8/8/8/8/8/8/8 x - - 0 1"),
        Err(FenError::BadActiveColor)
    );
    assert_eq!(board.history().len(), 2);
}

#[test]
fn piece_queries() {
    let state = BoardState::from_fen(START_FEN).unwrap();
    assert_eq!(
        state.piece_at_square(Square::E1),
        Some(Piece::King(Color::White))
    );
    assert_eq!(
        state.piece_at_square(Square::D8),
        Some(Piece::Queen(Color::Black))
    );
    assert_eq!(state.piece_at_square(Square::E4), None);
    assert_eq!(state.white_pieces_mask(), Mask(0xffff));
    assert_eq!(state.black_pieces_mask(), Mask(0xffff_0000_0000_0000));
    assert_eq!(state.friendly_pieces_mask(Color::Black), state.black_pieces_mask());
    assert_eq!(state.enemy_pieces_mask(Color::Black), state.white_pieces_mask());
    let mut cleared = state;
    cleared.clear_pieces();
    assert_eq!(cleared.all_pieces_mask(), Mask(0));
    cleared.swap_active_color();
    assert_eq!(cleared.active_color, Color::Black);
    assert_eq!(BoardState::new().all_pieces_mask(), Mask(0));
    assert!(!state.possible_en_passant());
}

#[test]
fn piece_sets() {
    let mut state = BoardState::from_fen(START_FEN).unwrap();
    let white = state.white_pieces();
    assert_eq!(
        white,
        [
            Mask(0xff00),
            Mask(0x42),
            Mask(0x24),
            Mask(0x81),
            Mask(0x08),
            Mask(0x10)
        ]
    );
    let black = state.black_pieces();
    assert_eq!(black[0], Mask(0x00ff_0000_0000_0000));
    assert_eq!(black[5], Mask(0x1000_0000_0000_0000));
    assert_eq!(state.friendly_pieces(Color::White), white);
    assert_eq!(state.friendly_pieces(Color::Black), black);
    assert_eq!(state.enemy_pieces(Color::White), black);
    assert_eq!(state.enemy_pieces(Color::Black), white);
    *state.mask_mut(Piece::Queen(Color::White)) |= Square::D4.mask();
    assert_eq!(
        state.mask(Piece::Queen(Color::White)),
        Square::D1.mask() | Square::D4.mask()
    );
    assert_eq!(state.mask(Piece::King(Color::White)), Square::E1.mask());
    assert_eq!(
        state.piece_at_square(Square::D4),
        Some(Piece::Queen(Color::White))
    );
}

#[test]
fn tables_by_piece() {
    let state = BoardState::new();
    let pawn = state.move_masks(Piece::Pawn(Color::White));
    assert_eq!(pawn.len(), 64);
    assert_eq!(pawn[12], Square::E3.mask() | Square::E4.mask());
    let pawn = state.move_masks(Piece::Pawn(Color::Black));
    assert_eq!(pawn[52], Square::E6.mask() | Square::E5.mask());
    let knight = state.move_masks(Piece::Knight(Color::Black));
    assert_eq!(knight[0], Square::B3.mask() | Square::C2.mask());
    let king = state.move_masks(Piece::King(Color::White));
    assert_eq!(
        king[0],
        Square::A2.mask() | Square::B1.mask() | Square::B2.mask()
    );
    let rook = state.move_masks(Piece::Rook(Color::White));
    assert_eq!(rook.len(), 64);
    assert_eq!(rook[0], Mask(0x0101_0101_0101_01fe));
    let bishop = state.move_masks(Piece::Bishop(Color::White));
    assert_eq!(bishop[0], Mask(0x8040_2010_0804_0200));
    let queen = state.move_masks(Piece::Queen(Color::White));
    assert_eq!(queen.len(), 128);
    assert_eq!(queen[0], rook[0]);
    assert_eq!(queen[63], rook[63]);
    assert_eq!(queen[64], bishop[0]);
    assert_eq!(queen[127], bishop[63]);
}

#[test]
fn en_passant_expires_after_one_move() {
    let mut board = Board::new(START_FEN).unwrap();
    board.make_move(mv("e2e4")).unwrap();
    board.make_move(mv("a7a6")).unwrap();
    board.make_move(mv("e4e5")).unwrap();
    board.make_move(mv("d7d5")).unwrap();
    assert_eq!(
        board.current_position().en_passant_mask(),
        Some(Square::D6.mask())
    );
    assert!(board.legal_moves().contains(&mv("e5d6")));
    board.make_move(mv("h2h3")).unwrap();
    board.make_move(mv("a6a5")).unwrap();
    assert_eq!(board.current_position().en_passant_mask(), None);
    assert!(!board.legal_moves().contains(&mv("e5d6")));
    board.unmake_move().unwrap();
    board.unmake_move().unwrap();
    board.make_move(mv("e5d6")).unwrap();
    let state = board.current_position();
    assert_eq!(state.piece_at_square(Square::D5), None);
    assert_eq!(
        state.piece_at_square(Square::D6),
        Some(Piece::Pawn(Color::White))
    );
    assert_eq!(state.halfmoves, 0);
}
