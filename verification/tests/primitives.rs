use chress::board_helper::BoardHelper;
use chress::mask::Mask;
use chress::moves::Move;
use chress::piece::{
    Color, Piece, BISHOP_MOVE_OFFSETS, KNIGHT_MOVE_OFFSETS, ROOK_MOVE_OFFSETS,
};
use chress::square::{File, Rank, Square};

#[test]
fn submasks_come_largest_first_and_end_with_the_empty_set() {
    assert_eq!(
        Mask(0b101).subsets(),
        vec![Mask(0b101), Mask(0b100), Mask(0b001), Mask(0)]
    );
    assert_eq!(Mask(0).subsets(), vec![Mask(0)]);
    assert_eq!(Mask(1 << 63).subsets(), vec![Mask(1 << 63), Mask(0)]);
    let all = Mask(0x0001_0101_0101_017e).subsets();
    assert_eq!(all.len(), 4096);
    for pair in all.windows(2) {
        assert!(pair[0].0 > pair[1].0);
        assert_eq!(pair[1].0 & 0x0001_0101_0101_017e, pair[1].0);
    }
}

#[test]
fn ones_and_zeroes() {
    assert_eq!(Mask(0).ones(), vec![]);
    assert_eq!(Mask(u64::MAX).ones().len(), 64);
    assert_eq!(Mask(u64::MAX).zeroes(), vec![]);
    assert_eq!(Mask(1 << 63).ones(), vec![Square::H8]);
    assert_eq!(
        Mask(!((1 << 63) | 1)).zeroes(),
        vec![Square::A1, Square::H8]
    );
    let squares = Mask(0x8100_0000_0000_0081).ones();
    assert_eq!(
        squares,
        vec![Square::A1, Square::H1, Square::A8, Square::H8]
    );
}

#[test]
fn set_operations() {
    let a = Mask(0b1100);
    let b = Mask(0b1010);
    assert_eq!(a & b, Mask(0b1000));
    assert_eq!(a | b, Mask(0b1110));
    assert_eq!(a ^ b, Mask(0b0110));
    assert_eq!(!a, Mask(!0b1100u64));
    let mut c = a;
    c &= b;
    assert_eq!(c, Mask(0b1000));
    c |= Mask(1);
    assert_eq!(c, Mask(0b1001));
    c ^= Mask(0b1111);
    assert_eq!(c, Mask(0b0110));
}

#[test]
fn picture_of_a_set() {
    let grid = (Square::A1.mask() | Square::H8.mask() | Square::C7.mask()).to_grid();
    assert_eq!(
        grid,
        "0 0 0 0 0 0 0 1\n\
         0 0 1 0 0 0 0 0\n\
         0 0 0 0 0 0 0 0\n\
         0 0 0 0 0 0 0 0\n\
         0 0 0 0 0 0 0 0\n\
         0 0 0 0 0 0 0 0\n\
         0 0 0 0 0 0 0 0\n\
         1 0 0 0 0 0 0 0\n"
    );
}

#[test]
fn squares_by_index() {
    assert_eq!(Square::from_u8(0), Some(Square::A1));
    assert_eq!(Square::from_u8(63), Some(Square::H8));
    assert_eq!(Square::from_u8(64), None);
    assert_eq!(Square::from_u8(255), None);
    assert_eq!(Square::from_u16(28), Some(Square::E4));
    assert_eq!(Square::from_u16(256 + 28), None);
    assert_eq!(Square::from_u32(28), Some(Square::E4));
    assert_eq!(Square::from_u32(65536), None);
    assert_eq!(Square::from_u64(28), Some(Square::E4));
    assert_eq!(Square::from_u64(1 << 40), None);
    assert_eq!(Square::from_usize(28), Some(Square::E4));
    assert_eq!(Square::from_usize(64), None);
    for i in 0..64u8 {
        let square = Square::from_u8(i).unwrap();
        assert_eq!(square.to_shift(), i as usize);
        assert_eq!(square.mask(), Mask(1 << i));
        assert_eq!(square.rank().to_u8(), i / 8);
        assert_eq!(square.file().to_u8(), i % 8);
        assert_eq!(square.coords(), (square.rank(), square.file()));
        assert_eq!(Square::from_coords(square.rank(), square.file()), square);
        assert_eq!(Square::from_str(&square.to_string()), Some(square));
        assert_eq!(Square::from_mask(square.mask()), Some(square));
    }
}

#[test]
fn squares_by_name() {
    assert_eq!(Square::from_str("e4"), Some(Square::E4));
    assert_eq!(Square::from_str("a1"), Some(Square::A1));
    assert_eq!(Square::from_str("h8"), Some(Square::H8));
    assert_eq!(Square::E4.to_string(), "e4");
    assert_eq!(Square::A8.to_string(), "a8");
    assert_eq!(Square::from_chars('h', '1'), Some(Square::H1));
    assert_eq!(Square::from_chars('1', 'h'), None);
    for bad in ["", "e", "e44", "E4", "i4", "e0", "e9", "4e", " e4"] {
        assert_eq!(Square::from_str(bad), None, "{:?}", bad);
    }
}

#[test]
fn no_square_for_a_set_of_none_or_many() {
    assert_eq!(Square::from_mask(Mask(0)), None);
    assert_eq!(Square::from_mask(Mask(3)), None);
    assert_eq!(Square::from_mask(Mask(u64::MAX)), None);
}

#[test]
fn ranks_and_files_keep_to_the_board() {
    assert_eq!(Rank::from_u8(8), None);
    assert_eq!(File::from_u8(8), None);
    assert_eq!(Rank::Seven.plus(1), Some(Rank::Eight));
    assert_eq!(Rank::Eight.plus(1), None);
    assert_eq!(Rank::One.plus(255), None);
    assert_eq!(Rank::Two.minus(1), Some(Rank::One));
    assert_eq!(Rank::One.minus(1), None);
    assert_eq!(Rank::Five.plus(0), Some(Rank::Five));
    assert_eq!(File::G.plus(1), Some(File::H));
    assert_eq!(File::H.plus(1), None);
    assert_eq!(File::B.minus(1), Some(File::A));
    assert_eq!(File::A.minus(1), None);
    assert_eq!(File::C.minus(255), None);
    assert_eq!(Rank::One.diff(Rank::Eight), 7);
    assert_eq!(Rank::Eight.diff(Rank::One), 7);
    assert_eq!(File::C.diff(File::C), 0);
    assert_eq!(File::A.diff(File::E), 4);
    assert_eq!(Rank::from_index(28), Some(Rank::Four));
    assert_eq!(File::from_index(28), Some(File::E));
    assert_eq!(Rank::from_index(63), Some(Rank::Eight));
    assert_eq!(File::from_index(63), Some(File::H));
    assert_eq!(Rank::from_index(64), None);
    assert_eq!(File::from_index(64), None);
}

#[test]
fn pieces() {
    let letters = "PNBRQKpnbrqk";
    for (i, ch) in letters.chars().enumerate() {
        let piece = Piece::from_char(ch).unwrap();
        assert_eq!(piece.to_mask_index(), i);
        assert_eq!(Piece::from_mask_index(i), Some(piece));
        assert_eq!(BoardHelper::char_to_piece(ch), Some(piece));
        assert_eq!(BoardHelper::piece_to_bitboard_index(ch), i);
        assert_eq!(
            piece.color(),
            if i < 6 { Color::White } else { Color::Black }
        );
        assert_eq!(piece.is_slider(), matches!(i % 6, 2 | 3 | 4));
    }
    assert_eq!(Piece::from_char('x'), None);
    assert_eq!(Piece::from_char('1'), None);
    assert_eq!(Piece::from_mask_index(12), None);
    assert_eq!(Piece::WHITE_PAWN_INDEX, 0);
    assert_eq!(Piece::WHITE_KING_INDEX, 5);
    assert_eq!(Piece::BLACK_PAWN_INDEX, 6);
    assert_eq!(Piece::BLACK_KING_INDEX, 11);
    assert_eq!(Color::White.swapped(), Color::Black);
    assert_eq!(Color::Black.swapped(), Color::White);
    assert_eq!(KNIGHT_MOVE_OFFSETS, [15, 17, 6, 10, -10, -6, -17, -15]);
    assert_eq!(BISHOP_MOVE_OFFSETS, [7, 9, -7, -9]);
    assert_eq!(ROOK_MOVE_OFFSETS, [8, 1, -8, -1]);
}

#[test]
fn board_helper_arithmetic() {
    assert_eq!(BoardHelper::rank(28), 3);
    assert_eq!(BoardHelper::file(28), 4);
    assert_eq!(BoardHelper::rank_difference(0, 63), 7);
    assert_eq!(BoardHelper::file_difference(7, 8), 7);
    assert_eq!(BoardHelper::rank_difference(3, 28), 0);
}

#[test]
fn moves_by_name() {
    let mv = Move::from_long_algebraic("e2e4").unwrap();
    assert_eq!(
        mv,
        Move {
            from: Square::E2,
            to: Square::E4
        }
    );
    assert_eq!(mv.long_algebraic(), "e2e4");
    assert_eq!(mv.rank_diff(), 2);
    assert_eq!(mv.file_diff(), 0);
    let mv = Move::from_long_algebraic("h8a1").unwrap();
    assert_eq!(mv.rank_diff(), 7);
    assert_eq!(mv.file_diff(), 7);
    assert_eq!(
        Move::from_chars(&vec!['g', '1', 'f', '3']),
        Move::from_long_algebraic("g1f3")
    );
    for bad in ["", "e2", "e2e", "e2e9", "e2e4q", "e2 e4", "E2E4"] {
        assert_eq!(Move::from_long_algebraic(bad), None, "{:?}", bad);
    }
}

#[test]
fn moves_from_a_set() {
    let moves = Move::from_move_mask(Square::E2, Square::E4.mask() | Square::E3.mask());
    assert_eq!(
        moves,
        vec![
            Move {
                from: Square::E2,
                to: Square::E3
            },
            Move {
                from: Square::E2,
                to: Square::E4
            },
        ]
    );
    assert_eq!(Move::from_move_mask(Square::E2, Mask(0)), vec![]);
}
