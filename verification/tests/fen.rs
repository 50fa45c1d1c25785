use chress::board::{BoardState, FenError, START_FEN, TEST_POSITION_FEN};
use chress::mask::Mask;
use chress::moves::Move;
use chress::piece::{Color, Piece};
use chress::square::Square;

#[test]
fn start_position() {
    let state = BoardState::from_fen(START_FEN).unwrap();
    assert_eq!(state.active_color, Color::White);
    assert_eq!(state.mask(Piece::Pawn(Color::White)), Mask(0xff00));
    assert_eq!(state.mask(Piece::Knight(Color::White)), Mask(0x42));
    assert_eq!(state.mask(Piece::Bishop(Color::White)), Mask(0x24));
    assert_eq!(state.mask(Piece::Rook(Color::White)), Mask(0x81));
    assert_eq!(state.mask(Piece::Queen(Color::White)), Mask(0x08));
    assert_eq!(state.mask(Piece::King(Color::White)), Mask(0x10));
    assert_eq!(state.mask(Piece::Pawn(Color::Black)), Mask(0x00ff_0000_0000_0000));
    assert_eq!(state.mask(Piece::Knight(Color::Black)), Mask(0x4200_0000_0000_0000));
    assert_eq!(state.mask(Piece::Bishop(Color::Black)), Mask(0x2400_0000_0000_0000));
    assert_eq!(state.mask(Piece::Rook(Color::Black)), Mask(0x8100_0000_0000_0000));
    assert_eq!(state.mask(Piece::Queen(Color::Black)), Mask(0x0800_0000_0000_0000));
    assert_eq!(state.mask(Piece::King(Color::Black)), Mask(0x1000_0000_0000_0000));
    assert_eq!(state.last_move, None);
    assert!(!state.a1_rook_moved && !state.h1_rook_moved);
    assert!(!state.a8_rook_moved && !state.h8_rook_moved);
    assert_eq!(state.halfmoves, 0);
    assert_eq!(state.fullmoves, 1);
}

#[test]
fn test_position() {
    let state = BoardState::from_fen(TEST_POSITION_FEN).unwrap();
    assert_eq!(state.piece_at_square(Square::D7), Some(Piece::Pawn(Color::White)));
    assert_eq!(state.piece_at_square(Square::F2), Some(Piece::Knight(Color::Black)));
    assert!(!state.a1_rook_moved && !state.h1_rook_moved);
    assert!(state.a8_rook_moved && state.h8_rook_moved);
    assert_eq!(state.halfmoves, 1);
    assert_eq!(state.fullmoves, 8);
}

#[test]
fn white_space_around_the_text_is_dropped() {
    let padded = format!(" \t{}\r\n", START_FEN);
    assert_eq!(
        BoardState::from_fen(&padded),
        BoardState::from_fen(START_FEN)
    );
}

#[test]
fn an_empty_castling_section_names_no_right() {
    let state =
        BoardState::from_fen("rnbqkbnr/pppppppp/8/8/P7/8/1PPPPPPP/RNBQKBNR w  - 0 1").unwrap();
    assert!(state.a1_rook_moved && state.h1_rook_moved);
    assert!(state.a8_rook_moved && state.h8_rook_moved);
    let dash = BoardState::from_fen("rnbqkbnr/pppppppp/8/8/P7/8/1PPPPPPP/RNBQKBNR w - - 0 1");
    assert_eq!(dash, Ok(state));
}

#[test]
fn castling_rights_by_letter() {
    let fen = |rights: &str| format!("r3k2r/8/8/8/8/8/8/R3K2R w {} - 0 1", rights);
    let k = BoardState::from_fen(&fen("K")).unwrap();
    assert!(!k.h1_rook_moved && k.a1_rook_moved && k.h8_rook_moved && k.a8_rook_moved);
    let q = BoardState::from_fen(&fen("Q")).unwrap();
    assert!(q.h1_rook_moved && !q.a1_rook_moved && q.h8_rook_moved && q.a8_rook_moved);
    let bk = BoardState::from_fen(&fen("k")).unwrap();
    assert!(bk.h1_rook_moved && bk.a1_rook_moved && !bk.h8_rook_moved && bk.a8_rook_moved);
    let bq = BoardState::from_fen(&fen("q")).unwrap();
    assert!(bq.h1_rook_moved && bq.a1_rook_moved && bq.h8_rook_moved && !bq.a8_rook_moved);
    let some = BoardState::from_fen(&fen("Kq")).unwrap();
    assert!(!some.h1_rook_moved && some.a1_rook_moved && some.h8_rook_moved && !some.a8_rook_moved);
}

#[test]
fn en_passant_section() {
    let state =
        BoardState::from_fen("rnbqkbnr/pppppppp/8/8/4P3/8/PPPP1PPP/RNBQKBNR b KQkq e3 0 1").unwrap();
    assert_eq!(
        state.last_move,
        Some(Move {
            from: Square::E2,
            to: Square::E4
        })
    );
    assert_eq!(state.en_passant_mask(), Some(Square::E3.mask()));
    assert!(state.possible_en_passant());
    let state =
        BoardState::from_fen("rnbqkbnr/ppp1pppp/8/3pP3/8/8/PPPP1PPP/RNBQKBNR w KQkq d6 0 3").unwrap();
    assert_eq!(
        state.last_move,
        Some(Move {
            from: Square::D7,
            to: Square::D5
        })
    );
    assert_eq!(state.en_passant_mask(), Some(Square::D6.mask()));
    // No pawn stands on e4: the square is read, but offers nothing.
    let state = BoardState::from_fen("4k3/8/8/8/8/8/8/4K3 b - e3 0 1").unwrap();
    assert_eq!(state.en_passant_mask(), None);
}

#[test]
fn counters_are_read() {
    let state = BoardState::from_fen("8/8/8/8/8/8/8/8 b - - 100 4294967295").unwrap();
    assert_eq!(state.halfmoves, 100);
    assert_eq!(state.fullmoves, 4294967295);
    assert_eq!(state.active_color, Color::Black);
    let state = BoardState::from_fen("8/8/8/8/8/8/8/8 b - - +042 0017").unwrap();
    assert_eq!(state.halfmoves, 42);
    assert_eq!(state.fullmoves, 17);
}

#[test]
fn every_error() {
    let err = |text: &str| BoardState::from_fen(text).err();
    assert_eq!(err(""), Some(FenError::BadPosition));
    assert_eq!(err("8/8/8/8/8/8/8 w - - 0 1"), Some(FenError::BadPosition));
    assert_eq!(err("8/8/8/8/8/8/8/8/8 w - - 0 1"), Some(FenError::BadPosition));
    assert_eq!(err("8/8/8/8/8/8/8/7 w - - 0 1"), Some(FenError::BadPosition));
    assert_eq!(err("8/8/8/8/8/8/8/9 w - - 0 1"), Some(FenError::BadPosition));
    assert_eq!(err("8/8/8/8/8/8/8/44P w - - 0 1"), Some(FenError::BadPosition));
    assert_eq!(err("8/8/8/8/8/8/8/7x w - - 0 1"), Some(FenError::BadPosition));
    assert_eq!(err("8/8/8/8/8/8/8/8"), Some(FenError::MissingSection));
    assert_eq!(err("8/8/8/8/8/8/8/8 W - - 0 1"), Some(FenError::BadActiveColor));
    assert_eq!(err("8/8/8/8/8/8/8/8 w"), Some(FenError::MissingSection));
    assert_eq!(err("8/8/8/8/8/8/8/8 w x - 0 1"), Some(FenError::BadCastlingRights));
    assert_eq!(err("8/8/8/8/8/8/8/8 w QK - 0 1"), Some(FenError::BadCastlingRights));
    assert_eq!(err("8/8/8/8/8/8/8/8 w KK - 0 1"), Some(FenError::BadCastlingRights));
    assert_eq!(err("8/8/8/8/8/8/8/8 w -"), Some(FenError::BadEnPassant));
    assert_eq!(err("8/8/8/8/8/8/8/8 w - e4 0 1"), Some(FenError::BadEnPassant));
    assert_eq!(err("8/8/8/8/8/8/8/8 w - e9 0 1"), Some(FenError::BadEnPassant));
    assert_eq!(err("8/8/8/8/8/8/8/8 w - e 0 1"), Some(FenError::BadEnPassant));
    assert_eq!(
        err("4k3/8/8/8/4P3/4n3/8/4K3 b - e3 0 1"),
        Some(FenError::BadEnPassant)
    );
    assert_eq!(err("8/8/8/8/8/8/8/8 w - -"), Some(FenError::MissingSection));
    assert_eq!(err("8/8/8/8/8/8/8/8 w - - x 1"), Some(FenError::BadHalfmoves));
    assert_eq!(err("8/8/8/8/8/8/8/8 w - - 101 1"), Some(FenError::BadHalfmoves));
    assert_eq!(err("8/8/8/8/8/8/8/8 w - - -1 1"), Some(FenError::BadHalfmoves));
    assert_eq!(err("8/8/8/8/8/8/8/8 w - -  1"), Some(FenError::BadHalfmoves));
    assert_eq!(err("8/8/8/8/8/8/8/8 w - - 0"), Some(FenError::MissingSection));
    assert_eq!(err("8/8/8/8/8/8/8/8 w - - 0 x"), Some(FenError::BadFullmoves));
    assert_eq!(
        err("8/8/8/8/8/8/8/8 w - - 0 4294967296"),
        Some(FenError::BadFullmoves)
    );
    assert_eq!(err("8/8/8/8/8/8/8/8 w - - 0 1 x"), Some(FenError::TooManySections));
    assert_eq!(err("8/8/8/8/8/8/8/8 w - - 0 1 "), None);
    assert_eq!(err("8/8/8/8/8/8/8/8 w - - 100 4294967295"), None);
    assert_eq!(err("8/8/8/8/8/8/8/8 w - - 007 1"), None);
    assert_eq!(err("8/8/8/8/8/8/8/8 w - - +7 +1"), None);
    assert_eq!(err("8/8/8/8/8/8/8/8 w - - + 1"), Some(FenError::BadHalfmoves));
    assert_eq!(err("8/8/8/8/8/8/8/8 w - - ++7 1"), Some(FenError::BadHalfmoves));
    assert_eq!(err("8/8/8/8/8/8/8/8 w - - 7 1+"), Some(FenError::BadFullmoves));
}
