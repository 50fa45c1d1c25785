use chress::mask::Mask;
use chress::move_gen::{
    create_magics, create_move_list, file_difference, fixed_magics, generate_bishop_move_masks,
    generate_black_pawn_capture_masks, generate_black_pawn_move_masks, generate_king_move_masks,
    generate_knight_move_masks, generate_magic, generate_rook_move_masks,
    generate_white_pawn_capture_masks, generate_white_pawn_move_masks, rank, rank_difference,
    try_fill_magic_table, Direction, MagicEntry, SlidingMoves, TableFillError,
};
use chress::square::Square;

fn all_squares() -> Vec<Square> {
    (0..64).map(|i| Square::from_u8(i).unwrap()).collect()
}

#[test]
fn debug_magic_generation() {
    let direction = Direction::Orthogonal;
    let square = Square::A1;
    let index_bits = 16;
    let (magic, table) = generate_magic(direction, square, index_bits).unwrap();

    println!("{:?}", magic);
    assert_eq!(magic.mask, Mask(0x0001_0101_0101_017e));
    assert_eq!(magic.index_bits, 16);
    assert_eq!(table.len(), 1 << 16);
    for blockers in magic.mask.subsets() {
        assert_eq!(
            table[magic.index(blockers)],
            direction.moves_for(square, blockers)
        );
    }
}

#[test]
fn debug_magic_index_usage() {
    let direction = Direction::Diagonal;
    let square = Square::A1;
    let index_bits = 16;

    let (magic, moves) = generate_magic(direction, square, index_bits).unwrap();

    let blockers = Mask(0x0000_1008_0420_0240);

    println!("Blockers:");
    println!("{}", blockers.to_grid());

    println!("Relevant blockers:");
    println!(
        "{}",
        (blockers & direction.all_blockers()[Square::A1.to_shift()]).to_grid()
    );

    println!("Moves from A1:");
    println!("{}", moves[magic.index(blockers)].to_grid());
    // b2 holds the first blocker on the diagonal.
    assert_eq!(moves[magic.index(blockers)], Square::B2.mask());
}

#[test]
fn bishop_jumping() {
    let movegen = SlidingMoves::init().unwrap();

    println!(
        "{}",
        Direction::Diagonal.blockers_for(Square::C1).to_grid()
    );

    let moves = movegen.get_bishop_moves(Square::C1, Mask(u64::MAX));
    println!("{}", moves.to_grid());
    assert_eq!(moves, Square::B2.mask() | Square::D2.mask());
}

#[test]
fn move_gen_debug_blockers() {
    let ortho = Direction::Orthogonal;

    for (i, blocker) in ortho.all_blockers().iter().enumerate() {
        println!("blocker {}:", i);
        println!("{}", blocker.to_grid());
    }
    let blockers = ortho.all_blockers();
    assert_eq!(blockers.len(), 64);
    assert_eq!(blockers[0], Mask(0x0001_0101_0101_017e));
    assert_eq!(blockers[28], Mask(0x0010_1010_6e10_1000));
    assert_eq!(blockers[63], Mask(0x7e80_8080_8080_8000));
}

#[test]
fn piece_debug_blockers() {
    let ortho = Direction::Orthogonal;

    for (i, blocker) in ortho.all_blockers().iter().enumerate() {
        println!("blocker {}:", i);
        println!("{}", blocker.to_grid());
    }
    for square in all_squares() {
        assert_eq!(
            ortho.all_blockers()[square.to_shift()],
            ortho.blockers_for(square)
        );
    }
}

#[test]
fn diagonal_blockers() {
    let diagonal = Direction::Diagonal;
    let blockers = diagonal.all_blockers();
    assert_eq!(blockers.len(), 64);
    assert_eq!(blockers[0], Mask(0x0040_2010_0804_0200));
    assert_eq!(blockers[28], Mask(0x0002_4428_0028_4400));
    for square in all_squares() {
        assert_eq!(blockers[square.to_shift()], diagonal.blockers_for(square));
    }
}

#[test]
fn move_gen_debug_relevant_blockers() {
    for blocker_list in Direction::Orthogonal.all_blocker_subsets() {
        println!("{}", blocker_list[0].to_grid());
    }
    let subsets = Direction::Orthogonal.all_blocker_subsets();
    let blockers = Direction::Orthogonal.all_blockers();
    assert_eq!(subsets.len(), 64);
    for i in 0..64 {
        assert_eq!(subsets[i][0], blockers[i]);
        assert_eq!(subsets[i].len(), 1 << blockers[i].ones().len());
        assert_eq!(subsets[i][subsets[i].len() - 1], Mask(0));
    }
}

#[test]
fn piece_debug_relevant_blockers() {
    for blocker_list in Direction::Orthogonal.all_blocker_subsets() {
        println!("{}", blocker_list[0].to_grid());
    }
    let subsets = Direction::Orthogonal.all_blocker_subsets();
    // The rook on a1 has twelve relevant blockers, the one on d4 has ten.
    assert_eq!(subsets[0].len(), 4096);
    assert_eq!(subsets[27].len(), 1024);
}

#[test]
fn diagonal_blocker_subsets() {
    let subsets = Direction::Diagonal.all_blocker_subsets();
    // The bishop on a1 has six relevant blockers, the one on d4 has nine.
    assert_eq!(subsets[0].len(), 64);
    assert_eq!(subsets[27].len(), 512);
}

#[test]
fn move_gen_debug_move_finding() {
    let blockers = Square::E6.mask() | Square::C4.mask() | Square::G4.mask() | Square::A8.mask();
    let rook_moves = Direction::Orthogonal.moves_for(Square::E4, blockers);
    println!("{}", rook_moves.to_grid());
    assert_eq!(
        rook_moves,
        Square::E5.mask()
            | Square::E6.mask()
            | Square::F4.mask()
            | Square::G4.mask()
            | Square::D4.mask()
            | Square::C4.mask()
            | Square::E3.mask()
            | Square::E2.mask()
            | Square::E1.mask()
    );
}

#[test]
fn piece_debug_move_finding() {
    let blockers = Square::E6.mask() | Square::C4.mask() | Square::G4.mask() | Square::A8.mask();
    let rook_moves = Direction::Orthogonal.moves_for(Square::E4, blockers);
    println!("{}", rook_moves.to_grid());
    assert_eq!(rook_moves, Mask(0x0000_1010_6c10_1010));
}

#[test]
fn diagonal_move_finding() {
    let blockers = Square::E6.mask() | Square::C4.mask() | Square::G4.mask() | Square::A8.mask();
    let bishop_moves = Direction::Diagonal.moves_for(Square::E4, blockers);
    // No blocker stands on a diagonal of e4 short of the edge: the rays run
    // to the edges.
    assert_eq!(bishop_moves, Mask(0x0182_4428_0028_4482));
    // A blocker on the far edge ends nothing that the edge would not end.
    assert_eq!(
        Direction::Diagonal.moves_for(Square::E4, Square::H1.mask() | Square::A8.mask()),
        bishop_moves
    );
    assert_eq!(
        Direction::Diagonal.moves_for(Square::E4, Square::F5.mask()),
        Mask(0x0102_0428_0028_4482)
    );
}

#[test]
fn index_arithmetic() {
    assert_eq!(rank(28), 3);
    assert_eq!(chress::move_gen::file(28), 4);
    assert_eq!(rank_difference(3, 63), 4);
    assert_eq!(rank_difference(7, 0), 7);
    assert_eq!(file_difference(4, 63), 3);
    assert_eq!(file_difference(0, 15), 7);
}

#[test]
fn pawn_tables() {
    let white = generate_white_pawn_move_masks();
    let black = generate_black_pawn_move_masks();
    assert_eq!(white[12], Square::E3.mask() | Square::E4.mask());
    assert_eq!(white[28], Square::E5.mask());
    assert_eq!(white[4], Mask(0));
    assert_eq!(white[60], Mask(0));
    assert_eq!(black[52], Square::E6.mask() | Square::E5.mask());
    assert_eq!(black[28], Square::E3.mask());
    assert_eq!(black[4], Mask(0));
    let white = generate_white_pawn_capture_masks();
    let black = generate_black_pawn_capture_masks();
    assert_eq!(white[12], Square::D3.mask() | Square::F3.mask());
    assert_eq!(white[8], Square::B3.mask());
    assert_eq!(white[15], Square::G3.mask());
    assert_eq!(white[56], Mask(0));
    assert_eq!(black[52], Square::D6.mask() | Square::F6.mask());
    assert_eq!(black[48], Square::B6.mask());
    assert_eq!(black[55], Square::G6.mask());
    assert_eq!(black[7], Mask(0));
}

#[test]
fn knight_and_king_tables() {
    let knight = generate_knight_move_masks();
    assert_eq!(knight[0], Square::B3.mask() | Square::C2.mask());
    assert_eq!(knight[63], Square::G6.mask() | Square::F7.mask());
    assert_eq!(knight[28].ones().len(), 8);
    assert_eq!(knight[28], Mask(0x0000_2844_0044_2800));
    // No jump wraps around the edge: from h4 only to the f- and g-files.
    assert_eq!(
        knight[31],
        Square::G6.mask() | Square::F5.mask() | Square::F3.mask() | Square::G2.mask()
    );
    let king = generate_king_move_masks();
    assert_eq!(king[0], Square::A2.mask() | Square::B1.mask() | Square::B2.mask());
    assert_eq!(king[28], Mask(0x0000_0038_2838_0000));
    assert_eq!(
        king[39],
        Square::H6.mask()
            | Square::G6.mask()
            | Square::G5.mask()
            | Square::G4.mask()
            | Square::H4.mask()
    );
}

#[test]
fn rook_and_bishop_tables() {
    let rook = generate_rook_move_masks();
    assert_eq!(rook[0], Mask(0x0101_0101_0101_01fe));
    assert_eq!(rook[28], Mask(0x1010_1010_ef10_1010));
    let bishop = generate_bishop_move_masks();
    assert_eq!(bishop[0], Mask(0x8040_2010_0804_0200));
    assert_eq!(bishop[28], Mask(0x0182_4428_0028_4482));
    for square in all_squares() {
        let i = square.to_shift();
        assert_eq!(rook[i], Direction::Orthogonal.moves_for(square, Mask(0)));
        assert_eq!(bishop[i], Direction::Diagonal.moves_for(square, Mask(0)));
        assert_eq!(rook[i].ones().len(), 14);
    }
}

#[test]
fn magic_table_soundness() {
    for direction in [Direction::Orthogonal, Direction::Diagonal] {
        let magics = fixed_magics(direction);
        let tables = create_move_list(direction, &magics).unwrap();
        assert_eq!(tables.len(), 64);
        for square in all_squares() {
            let i = square.to_shift();
            assert_eq!(magics[i].mask, direction.blockers_for(square));
            assert_eq!(tables[i].len(), 1 << magics[i].index_bits);
            for blockers in magics[i].mask.subsets() {
                assert_eq!(
                    tables[i][magics[i].index(blockers)],
                    direction.moves_for(square, blockers)
                );
            }
        }
    }
}

#[test]
fn lookups_agree_with_ray_casts() {
    let movegen = SlidingMoves::init().unwrap();
    let mut blockers = 0x9e37_79b9_7f4a_7c15u64;
    for square in all_squares() {
        for _ in 0..50 {
            blockers = blockers
                .wrapping_mul(6364136223846793005)
                .wrapping_add(1442695040888963407);
            let occupied = Mask(blockers & blockers.rotate_left(17));
            assert_eq!(
                movegen.get_rook_moves(square, occupied),
                Direction::Orthogonal.moves_for(square, occupied)
            );
            assert_eq!(
                movegen.get_bishop_moves(square, occupied),
                Direction::Diagonal.moves_for(square, occupied)
            );
        }
    }
    assert_eq!(
        movegen.get_rook_moves(Square::A1, Square::A3.mask() | Square::C1.mask()),
        Square::A2.mask() | Square::A3.mask() | Square::B1.mask() | Square::C1.mask()
    );
}

#[test]
fn a_multiplier_that_collides_is_refused() {
    let entry = MagicEntry {
        mask: Direction::Orthogonal.blockers_for(Square::A1),
        magic: 0,
        index_bits: 16,
    };
    assert_eq!(
        try_fill_magic_table(Direction::Orthogonal, &entry, Square::A1),
        Err(TableFillError)
    );
    // With an empty mask there is one set of blockers and nothing to collide.
    let entry = MagicEntry {
        mask: Mask(0),
        magic: 0,
        index_bits: 1,
    };
    let table = try_fill_magic_table(Direction::Orthogonal, &entry, Square::A1).unwrap();
    assert_eq!(table, vec![Mask(0x0101_0101_0101_01fe), Mask(0)]);
    assert_eq!(entry.index(Mask(u64::MAX)), 0);
}

#[test]
fn magic_index() {
    let entry = MagicEntry {
        mask: Mask(0x0001_0101_0101_017e),
        magic: 0x0810_2040_0080_1000,
        index_bits: 16,
    };
    assert_eq!(entry.index(Mask(0)), 0);
    let blockers = 0x0000_0000_0000_0102u64;
    let expected = (blockers.wrapping_mul(entry.magic) >> 48) as usize;
    assert_eq!(entry.index(Mask(blockers)), expected);
    // Blockers outside the mask do not count.
    assert_eq!(entry.index(Mask(blockers | 0x8000_0000_0000_0000)), expected);
}

#[test]
fn search_for_every_square() {
    let (magics, tables) = create_magics(Direction::Diagonal, 14).unwrap();
    assert_eq!(magics.len(), 64);
    assert_eq!(tables.len(), 64);
    for square in all_squares() {
        let i = square.to_shift();
        assert_eq!(magics[i].mask, Direction::Diagonal.blockers_for(square));
        assert_eq!(magics[i].index_bits, 14);
        assert_eq!(tables[i].len(), 1 << 14);
        let occupied = Mask(0x0042_0010_0800_2400);
        assert_eq!(
            tables[i][magics[i].index(occupied)],
            Direction::Diagonal.moves_for(square, occupied)
        );
    }
}

#[test]
fn create_rook_magics() {
    let rook_index_bits = 16;
    let (rook_magics, _) = create_magics(Direction::Orthogonal, rook_index_bits).unwrap();

    let mut buf = String::new();

    for (i, magic) in rook_magics.into_iter().enumerate() {
        buf.push_str(&format!("{:#018x}", magic.magic));

        if i != 63 {
            buf.push('\n');
        }
    }

    assert_eq!(buf.lines().count(), 64);
    assert_eq!(buf.len(), 64 * 18 + 63);
}

#[test]
fn create_bishop_magics() {
    let bishop_index_bits = 14;
    let (bishop_magics, _) = create_magics(Direction::Orthogonal, bishop_index_bits).unwrap();

    let mut buf = String::new();

    for (i, magic) in bishop_magics.into_iter().enumerate() {
        buf.push_str(&format!("{:#018x}", magic.magic));

        if i != 63 {
            buf.push('\n');
        }
    }

    assert_eq!(buf.lines().count(), 64);
    assert_eq!(buf.len(), 64 * 18 + 63);
}
