use chress::mask::Mask;
use chress::square::{File, Rank, Square};

#[test]
fn test_ranks_and_files() {
    let ranks = vec![
        Some(Rank::One),
        Some(Rank::Two),
        Some(Rank::Three),
        Some(Rank::Four),
        Some(Rank::Five),
        Some(Rank::Six),
        Some(Rank::Seven),
        Some(Rank::Eight),
    ];

    let files = vec![
        Some(File::A),
        Some(File::B),
        Some(File::C),
        Some(File::D),
        Some(File::E),
        Some(File::F),
        Some(File::G),
        Some(File::H),
    ];

    for i in 0..8 {
        assert_eq!(Rank::from_u8(i as u8), ranks[i]);
        assert_eq!(File::from_u8(i as u8), files[i]);
    }
}

#[test]
fn test_square_to_rank() {
    let square = Square::E4;
    assert_eq!(square.file(), File::E);
    assert_eq!(square.rank(), Rank::Four);

    let square = Square::H8;
    assert_eq!(square.file(), File::H);
    assert_eq!(square.rank(), Rank::Eight);

    let square = Square::C1;
    assert_eq!(square.file(), File::C);
    assert_eq!(square.rank(), Rank::One);
}

#[test]
fn square_from_coords() {
    let pairs = vec![
        (Rank::One, File::A),
        (Rank::Three, File::B),
        (Rank::One, File::C),
        (Rank::Four, File::D),
        (Rank::Eight, File::E),
        (Rank::Eight, File::F),
        (Rank::Five, File::G),
        (Rank::Two, File::H),
    ];

    let expected = vec![
        Square::A1,
        Square::B3,
        Square::C1,
        Square::D4,
        Square::E8,
        Square::F8,
        Square::G5,
        Square::H2,
    ];

    for (i, (rank, file)) in pairs.into_iter().enumerate() {
        assert_eq!(Square::from_coords(rank, file), expected[i]);
    }
}

#[test]
fn square_from_mask() {
    let squares = vec![
        Square::A1,
        Square::E3,
        Square::H1,
        Square::F4,
        Square::A8,
        Square::C8,
        Square::E7,
        Square::F7,
    ];

    for square in squares {
        let mask = square.mask();
        assert_eq!(square, Square::from_mask(mask).unwrap());
    }
}

#[test]
fn test_mask_squares() {
    assert_eq!(
        Mask(0b00000000000000000000000000000001).ones(),
        vec![Square::A1]
    );
    assert_eq!(
        Mask(0b00000000000000000000000100000001).ones(),
        vec![Square::A1, Square::A2]
    );
    assert_eq!(
        Mask(0b00000000000000000101000100000001).ones(),
        vec![Square::A1, Square::A2, Square::E2, Square::G2]
    );
    assert_eq!(Mask(1).ones(), vec![Square::A1]);
}
