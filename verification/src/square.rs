//! Squares of the board and their coordinates.
//!
//! A square is an index in `0..64`, rank-major from a1: the rank is the index
//! divided by eight and the file is the remainder.
use vstd::prelude::*;
use vstd::string::*;
use crate::bits::{bit_at, single, group_bits, lemma_same_bits};
use crate::mask::Mask;

verus! {

/// One of the 64 squares, `A1` (index 0) to `H8` (index 63).
#[derive(Debug, Clone, Copy, PartialEq, Eq, Structural)]
pub enum Square {
    A1,
    B1,
    C1,
    D1,
    E1,
    F1,
    G1,
    H1,
    A2,
    B2,
    C2,
    D2,
    E2,
    F2,
    G2,
    H2,
    A3,
    B3,
    C3,
    D3,
    E3,
    F3,
    G3,
    H3,
    A4,
    B4,
    C4,
    D4,
    E4,
    F4,
    G4,
    H4,
    A5,
    B5,
    C5,
    D5,
    E5,
    F5,
    G5,
    H5,
    A6,
    B6,
    C6,
    D6,
    E6,
    F6,
    G6,
    H6,
    A7,
    B7,
    C7,
    D7,
    E7,
    F7,
    G7,
    H7,
    A8,
    B8,
    C8,
    D8,
    E8,
    F8,
    G8,
    H8,
}

/// A row of the board, `One` (index 0) to `Eight` (index 7).
#[derive(Debug, Clone, Copy, PartialEq, Eq, Structural)]
pub enum Rank {
    One,
    Two,
    Three,
    Four,
    Five,
    Six,
    Seven,
    Eight,
}

/// A column of the board, `A` (index 0) to `H` (index 7).
#[derive(Debug, Clone, Copy, PartialEq, Eq, Structural)]
pub enum File {
    A,
    B,
    C,
    D,
    E,
    F,
    G,
    H,
}

impl Rank {
    /// The rank's index, `0..8`.
    pub open spec fn index(self) -> int {
        match self {
            Rank::One => 0,
            Rank::Two => 1,
            Rank::Three => 2,
            Rank::Four => 3,
            Rank::Five => 4,
            Rank::Six => 5,
            Rank::Seven => 6,
            Rank::Eight => 7,
        }
    }

    /// The rank with index `i`, if `i` is in `0..8`.
    pub open spec fn of_index(i: int) -> Option<Rank> {
        if i == 0 {
            Some(Rank::One)
        } else if i == 1 {
            Some(Rank::Two)
        } else if i == 2 {
            Some(Rank::Three)
        } else if i == 3 {
            Some(Rank::Four)
        } else if i == 4 {
            Some(Rank::Five)
        } else if i == 5 {
            Some(Rank::Six)
        } else if i == 6 {
            Some(Rank::Seven)
        } else if i == 7 {
            Some(Rank::Eight)
        } else {
            None
        }
    }

    /// `of_index` and `index` are inverse to each other on `0..8`.
    pub proof fn lemma_index(self)
        ensures
            0 <= self.index() < 8,
            Rank::of_index(self.index()) == Some(self),
    {
    }

    /// The rank's index as a machine integer.
    pub fn to_u8(&self) -> (i: u8)
        ensures
            i == self.index(),
    {
        match self {
            Rank::One => 0,
            Rank::Two => 1,
            Rank::Three => 2,
            Rank::Four => 3,
            Rank::Five => 4,
            Rank::Six => 5,
            Rank::Seven => 6,
            Rank::Eight => 7,
        }
    }

    /// The rank with index `val`; `None` when `val` is not below 8.
    pub fn from_u8(val: u8) -> (r: Option<Rank>)
        ensures
            r == Rank::of_index(val as int),
            r is Some <==> val < 8,
            r is Some ==> r->0.index() == val,
    {
        match val {
            0 => Some(Rank::One),
            1 => Some(Rank::Two),
            2 => Some(Rank::Three),
            3 => Some(Rank::Four),
            4 => Some(Rank::Five),
            5 => Some(Rank::Six),
            6 => Some(Rank::Seven),
            7 => Some(Rank::Eight),
            _ => None,
        }
    }

    /// The rank of the square with index `i`; `None` when `i` is not below 64.
    pub fn from_index(i: usize) -> (r: Option<Rank>)
        ensures
            r == (if i < 64 { Rank::of_index(i as int / 8) } else { None }),
            r is Some <==> i < 64,
    {
        if i > 63 {
            return None;
        }
        Rank::from_u8((i / 8) as u8)
    }

    /// The rank `val` rows up; `None` when that leaves the board.
    pub fn plus(&self, val: u8) -> (r: Option<Rank>)
        ensures
            r == Rank::of_index(self.index() + val),
            r is Some <==> self.index() + val < 8,
    {
        if val > 7 {
            return None;
        }
        Rank::from_u8(self.to_u8() + val)
    }

    /// The rank `val` rows down; `None` when that leaves the board.
    pub fn minus(&self, val: u8) -> (r: Option<Rank>)
        ensures
            r == Rank::of_index(self.index() - val),
            r is Some <==> self.index() - val >= 0,
    {
        let i = self.to_u8();
        if val > i {
            return None;
        }
        Rank::from_u8(i - val)
    }

    /// The distance in rows between two ranks.
    pub fn diff(&self, rhs: Rank) -> (d: u8)
        ensures
            d == vstd::math::abs(self.index() - rhs.index()),
    {
        let a = self.to_u8();
        let b = rhs.to_u8();
        if a >= b {
            a - b
        } else {
            b - a
        }
    }
}

impl File {
    /// The file's index, `0..8`.
    pub open spec fn index(self) -> int {
        match self {
            File::A => 0,
            File::B => 1,
            File::C => 2,
            File::D => 3,
            File::E => 4,
            File::F => 5,
            File::G => 6,
            File::H => 7,
        }
    }

    /// The file with index `i`, if `i` is in `0..8`.
    pub open spec fn of_index(i: int) -> Option<File> {
        if i == 0 {
            Some(File::A)
        } else if i == 1 {
            Some(File::B)
        } else if i == 2 {
            Some(File::C)
        } else if i == 3 {
            Some(File::D)
        } else if i == 4 {
            Some(File::E)
        } else if i == 5 {
            Some(File::F)
        } else if i == 6 {
            Some(File::G)
        } else if i == 7 {
            Some(File::H)
        } else {
            None
        }
    }

    /// `of_index` and `index` are inverse to each other on `0..8`.
    pub proof fn lemma_index(self)
        ensures
            0 <= self.index() < 8,
            File::of_index(self.index()) == Some(self),
    {
    }

    /// The file's index as a machine integer.
    pub fn to_u8(&self) -> (i: u8)
        ensures
            i == self.index(),
    {
        match self {
            File::A => 0,
            File::B => 1,
            File::C => 2,
            File::D => 3,
            File::E => 4,
            File::F => 5,
            File::G => 6,
            File::H => 7,
        }
    }

    /// The file with index `val`; `None` when `val` is not below 8.
    pub fn from_u8(val: u8) -> (r: Option<File>)
        ensures
            r == File::of_index(val as int),
            r is Some <==> val < 8,
            r is Some ==> r->0.index() == val,
    {
        match val {
            0 => Some(File::A),
            1 => Some(File::B),
            2 => Some(File::C),
            3 => Some(File::D),
            4 => Some(File::E),
            5 => Some(File::F),
            6 => Some(File::G),
            7 => Some(File::H),
            _ => None,
        }
    }

    /// The file of the square with index `i`; `None` when `i` is not below 64.
    pub fn from_index(i: usize) -> (r: Option<File>)
        ensures
            r == (if i < 64 { File::of_index(i as int % 8) } else { None }),
            r is Some <==> i < 64,
    {
        if i > 63 {
            return None;
        }
        File::from_u8((i % 8) as u8)
    }

    /// The file `val` columns towards the h-file; `None` when that leaves the board.
    pub fn plus(&self, val: u8) -> (r: Option<File>)
        ensures
            r == File::of_index(self.index() + val),
            r is Some <==> self.index() + val < 8,
    {
        if val > 7 {
            return None;
        }
        File::from_u8(self.to_u8() + val)
    }

    /// The file `val` columns towards the a-file; `None` when that leaves the board.
    pub fn minus(&self, val: u8) -> (r: Option<File>)
        ensures
            r == File::of_index(self.index() - val),
            r is Some <==> self.index() - val >= 0,
    {
        let i = self.to_u8();
        if val > i {
            return None;
        }
        File::from_u8(i - val)
    }

    /// The distance in columns between two files.
    pub fn diff(&self, rhs: File) -> (d: u8)
        ensures
            d == vstd::math::abs(self.index() - rhs.index()),
    {
        let a = self.to_u8();
        let b = rhs.to_u8();
        if a >= b {
            a - b
        } else {
            b - a
        }
    }
}

/// The letter that names the file with index `f`.
pub open spec fn file_char(f: int) -> char {
    if f == 0 {
        'a'
    } else if f == 1 {
        'b'
    } else if f == 2 {
        'c'
    } else if f == 3 {
        'd'
    } else if f == 4 {
        'e'
    } else if f == 5 {
        'f'
    } else if f == 6 {
        'g'
    } else {
        'h'
    }
}

/// The digit that names the rank with index `r`.
pub open spec fn rank_char(r: int) -> char {
    if r == 0 {
        '1'
    } else if r == 1 {
        '2'
    } else if r == 2 {
        '3'
    } else if r == 3 {
        '4'
    } else if r == 4 {
        '5'
    } else if r == 5 {
        '6'
    } else if r == 6 {
        '7'
    } else {
        '8'
    }
}

/// The index of the file that `c` names, or -1 when `c` names none.
pub open spec fn file_of_char(c: char) -> int {
    if c == 'a' {
        0
    } else if c == 'b' {
        1
    } else if c == 'c' {
        2
    } else if c == 'd' {
        3
    } else if c == 'e' {
        4
    } else if c == 'f' {
        5
    } else if c == 'g' {
        6
    } else if c == 'h' {
        7
    } else {
        -1
    }
}

/// The index of the rank that `c` names, or -1 when `c` names none.
pub open spec fn rank_of_char(c: char) -> int {
    if c == '1' {
        0
    } else if c == '2' {
        1
    } else if c == '3' {
        2
    } else if c == '4' {
        3
    } else if c == '5' {
        4
    } else if c == '6' {
        5
    } else if c == '7' {
        6
    } else if c == '8' {
        7
    } else {
        -1
    }
}

/// The file index that `c` names, or 8 when it names none.
pub fn file_index_of_char(c: char) -> (f: u8)
    ensures
        f <= 8,
        f < 8 <==> file_of_char(c) >= 0,
        f < 8 ==> f == file_of_char(c),
{
    match c {
        'a' => 0,
        'b' => 1,
        'c' => 2,
        'd' => 3,
        'e' => 4,
        'f' => 5,
        'g' => 6,
        'h' => 7,
        _ => 8,
    }
}

/// The rank index that `c` names, or 8 when it names none.
pub fn rank_index_of_char(c: char) -> (r: u8)
    ensures
        r <= 8,
        r < 8 <==> rank_of_char(c) >= 0,
        r < 8 ==> r == rank_of_char(c),
{
    match c {
        '1' => 0,
        '2' => 1,
        '3' => 2,
        '4' => 3,
        '5' => 4,
        '6' => 5,
        '7' => 6,
        '8' => 7,
        _ => 8,
    }
}

impl Square {
    /// The square's index, `0..64`.
    pub open spec fn index(self) -> int {
        match self {
            Square::A1 => 0,
            Square::B1 => 1,
            Square::C1 => 2,
            Square::D1 => 3,
            Square::E1 => 4,
            Square::F1 => 5,
            Square::G1 => 6,
            Square::H1 => 7,
            Square::A2 => 8,
            Square::B2 => 9,
            Square::C2 => 10,
            Square::D2 => 11,
            Square::E2 => 12,
            Square::F2 => 13,
            Square::G2 => 14,
            Square::H2 => 15,
            Square::A3 => 16,
            Square::B3 => 17,
            Square::C3 => 18,
            Square::D3 => 19,
            Square::E3 => 20,
            Square::F3 => 21,
            Square::G3 => 22,
            Square::H3 => 23,
            Square::A4 => 24,
            Square::B4 => 25,
            Square::C4 => 26,
            Square::D4 => 27,
            Square::E4 => 28,
            Square::F4 => 29,
            Square::G4 => 30,
            Square::H4 => 31,
            Square::A5 => 32,
            Square::B5 => 33,
            Square::C5 => 34,
            Square::D5 => 35,
            Square::E5 => 36,
            Square::F5 => 37,
            Square::G5 => 38,
            Square::H5 => 39,
            Square::A6 => 40,
            Square::B6 => 41,
            Square::C6 => 42,
            Square::D6 => 43,
            Square::E6 => 44,
            Square::F6 => 45,
            Square::G6 => 46,
            Square::H6 => 47,
            Square::A7 => 48,
            Square::B7 => 49,
            Square::C7 => 50,
            Square::D7 => 51,
            Square::E7 => 52,
            Square::F7 => 53,
            Square::G7 => 54,
            Square::H7 => 55,
            Square::A8 => 56,
            Square::B8 => 57,
            Square::C8 => 58,
            Square::D8 => 59,
            Square::E8 => 60,
            Square::F8 => 61,
            Square::G8 => 62,
            Square::H8 => 63,
        }
    }

    /// The square with index `i`, if `i` is in `0..64`.
    pub open spec fn of_index(i: int) -> Option<Square> {
        if i == 0 {
            Some(Square::A1)
        } else if i == 1 {
            Some(Square::B1)
        } else if i == 2 {
            Some(Square::C1)
        } else if i == 3 {
            Some(Square::D1)
        } else if i == 4 {
            Some(Square::E1)
        } else if i == 5 {
            Some(Square::F1)
        } else if i == 6 {
            Some(Square::G1)
        } else if i == 7 {
            Some(Square::H1)
        } else if i == 8 {
            Some(Square::A2)
        } else if i == 9 {
            Some(Square::B2)
        } else if i == 10 {
            Some(Square::C2)
        } else if i == 11 {
            Some(Square::D2)
        } else if i == 12 {
            Some(Square::E2)
        } else if i == 13 {
            Some(Square::F2)
        } else if i == 14 {
            Some(Square::G2)
        } else if i == 15 {
            Some(Square::H2)
        } else if i == 16 {
            Some(Square::A3)
        } else if i == 17 {
            Some(Square::B3)
        } else if i == 18 {
            Some(Square::C3)
        } else if i == 19 {
            Some(Square::D3)
        } else if i == 20 {
            Some(Square::E3)
        } else if i == 21 {
            Some(Square::F3)
        } else if i == 22 {
            Some(Square::G3)
        } else if i == 23 {
            Some(Square::H3)
        } else if i == 24 {
            Some(Square::A4)
        } else if i == 25 {
            Some(Square::B4)
        } else if i == 26 {
            Some(Square::C4)
        } else if i == 27 {
            Some(Square::D4)
        } else if i == 28 {
            Some(Square::E4)
        } else if i == 29 {
            Some(Square::F4)
        } else if i == 30 {
            Some(Square::G4)
        } else if i == 31 {
            Some(Square::H4)
        } else if i == 32 {
            Some(Square::A5)
        } else if i == 33 {
            Some(Square::B5)
        } else if i == 34 {
            Some(Square::C5)
        } else if i == 35 {
            Some(Square::D5)
        } else if i == 36 {
            Some(Square::E5)
        } else if i == 37 {
            Some(Square::F5)
        } else if i == 38 {
            Some(Square::G5)
        } else if i == 39 {
            Some(Square::H5)
        } else if i == 40 {
            Some(Square::A6)
        } else if i == 41 {
            Some(Square::B6)
        } else if i == 42 {
            Some(Square::C6)
        } else if i == 43 {
            Some(Square::D6)
        } else if i == 44 {
            Some(Square::E6)
        } else if i == 45 {
            Some(Square::F6)
        } else if i == 46 {
            Some(Square::G6)
        } else if i == 47 {
            Some(Square::H6)
        } else if i == 48 {
            Some(Square::A7)
        } else if i == 49 {
            Some(Square::B7)
        } else if i == 50 {
            Some(Square::C7)
        } else if i == 51 {
            Some(Square::D7)
        } else if i == 52 {
            Some(Square::E7)
        } else if i == 53 {
            Some(Square::F7)
        } else if i == 54 {
            Some(Square::G7)
        } else if i == 55 {
            Some(Square::H7)
        } else if i == 56 {
            Some(Square::A8)
        } else if i == 57 {
            Some(Square::B8)
        } else if i == 58 {
            Some(Square::C8)
        } else if i == 59 {
            Some(Square::D8)
        } else if i == 60 {
            Some(Square::E8)
        } else if i == 61 {
            Some(Square::F8)
        } else if i == 62 {
            Some(Square::G8)
        } else if i == 63 {
            Some(Square::H8)
        } else {
            None
        }
    }

    /// The square on rank `r` and file `f`; `A1` when either is outside `0..8`.
    pub open spec fn at(r: int, f: int) -> Square {
        if 0 <= r < 8 && 0 <= f < 8 {
            Square::of_index(8 * r + f)->0
        } else {
            Square::A1
        }
    }

    /// The square's rank index, `0..8`.
    pub open spec fn rank_index(self) -> int {
        self.index() / 8
    }

    /// The square's file index, `0..8`.
    pub open spec fn file_index(self) -> int {
        self.index() % 8
    }

    /// What two characters name: the file letter, then the rank digit.
    pub open spec fn parse(s: Seq<char>) -> Option<Square> {
        if s.len() == 2 && file_of_char(s[0]) >= 0 && rank_of_char(s[1]) >= 0 {
            Some(Square::at(rank_of_char(s[1]), file_of_char(s[0])))
        } else {
            None
        }
    }

    /// The square's name: its file letter, then its rank digit.
    pub open spec fn name(self) -> Seq<char> {
        seq![file_char(self.file_index()), rank_char(self.rank_index())]
    }

    /// Every square has an index in `0..64`, and is the one square with it.
    pub proof fn lemma_index(self)
        ensures
            0 <= self.index() < 64,
            0 <= self.rank_index() < 8,
            0 <= self.file_index() < 8,
            Square::at(self.rank_index(), self.file_index()) == self,
            Square::of_index(self.index()) == Some(self),
    {
    }

    /// Every index in `0..64` is the index of the square that `of_index` gives.
    pub proof fn lemma_of_index(i: int)
        ensures
            Square::of_index(i) is Some <==> 0 <= i < 64,
            0 <= i < 64 ==> Square::of_index(i)->0.index() == i,
    {
    }

    /// On the board, `at(r, f)` has index `8 * r + f`.
    pub proof fn lemma_at(r: int, f: int)
        requires
            0 <= r < 8,
            0 <= f < 8,
        ensures
            Square::at(r, f).index() == 8 * r + f,
            Square::at(r, f).rank_index() == r,
            Square::at(r, f).file_index() == f,
    {
        Square::lemma_of_index(8 * r + f);
    }

    /// Two squares with the same index are the same square.
    pub proof fn lemma_injective(a: Square, b: Square)
        requires
            a.index() == b.index(),
        ensures
            a == b,
    {
        a.lemma_index();
        b.lemma_index();
    }

    /// The set that holds this square alone.
    pub fn mask(&self) -> (m: Mask)
        ensures
            m.0 == single(self.index()),
    {
        let i = self.to_shift();
        Mask(1u64 << i)
    }

    /// The square's rank.
    pub fn rank(&self) -> (r: Rank)
        ensures
            r.index() == self.rank_index(),
    {
        match Rank::from_u8((self.to_shift() / 8) as u8) {
            Some(r) => r,
            None => Rank::One,
        }
    }

    /// The square's file.
    pub fn file(&self) -> (f: File)
        ensures
            f.index() == self.file_index(),
    {
        match File::from_u8((self.to_shift() % 8) as u8) {
            Some(f) => f,
            None => File::A,
        }
    }

    /// The square's rank and file.
    pub fn coords(&self) -> (c: (Rank, File))
        ensures
            c.0.index() == self.rank_index(),
            c.1.index() == self.file_index(),
    {
        (self.rank(), self.file())
    }

    /// The square with index `val`; `None` when `val` is not below 64.
    pub fn from_u8(val: u8) -> (r: Option<Square>)
        ensures
            r == Square::of_index(val as int),
            r is Some <==> val < 64,
            r is Some ==> r->0.index() == val,
    {
        match val {
            0 => Some(Square::A1),
            1 => Some(Square::B1),
            2 => Some(Square::C1),
            3 => Some(Square::D1),
            4 => Some(Square::E1),
            5 => Some(Square::F1),
            6 => Some(Square::G1),
            7 => Some(Square::H1),
            8 => Some(Square::A2),
            9 => Some(Square::B2),
            10 => Some(Square::C2),
            11 => Some(Square::D2),
            12 => Some(Square::E2),
            13 => Some(Square::F2),
            14 => Some(Square::G2),
            15 => Some(Square::H2),
            16 => Some(Square::A3),
            17 => Some(Square::B3),
            18 => Some(Square::C3),
            19 => Some(Square::D3),
            20 => Some(Square::E3),
            21 => Some(Square::F3),
            22 => Some(Square::G3),
            23 => Some(Square::H3),
            24 => Some(Square::A4),
            25 => Some(Square::B4),
            26 => Some(Square::C4),
            27 => Some(Square::D4),
            28 => Some(Square::E4),
            29 => Some(Square::F4),
            30 => Some(Square::G4),
            31 => Some(Square::H4),
            32 => Some(Square::A5),
            33 => Some(Square::B5),
            34 => Some(Square::C5),
            35 => Some(Square::D5),
            36 => Some(Square::E5),
            37 => Some(Square::F5),
            38 => Some(Square::G5),
            39 => Some(Square::H5),
            40 => Some(Square::A6),
            41 => Some(Square::B6),
            42 => Some(Square::C6),
            43 => Some(Square::D6),
            44 => Some(Square::E6),
            45 => Some(Square::F6),
            46 => Some(Square::G6),
            47 => Some(Square::H6),
            48 => Some(Square::A7),
            49 => Some(Square::B7),
            50 => Some(Square::C7),
            51 => Some(Square::D7),
            52 => Some(Square::E7),
            53 => Some(Square::F7),
            54 => Some(Square::G7),
            55 => Some(Square::H7),
            56 => Some(Square::A8),
            57 => Some(Square::B8),
            58 => Some(Square::C8),
            59 => Some(Square::D8),
            60 => Some(Square::E8),
            61 => Some(Square::F8),
            62 => Some(Square::G8),
            63 => Some(Square::H8),
            _ => None,
        }
    }

    /// The square with index `val`; `None` when `val` is not below 64.
    pub fn from_u16(val: u16) -> (r: Option<Square>)
        ensures
            r == Square::of_index(val as int),
            r is Some <==> val < 64,
            r is Some ==> r->0.index() == val,
    {
        if val > 255 {
            return None;
        }
        Square::from_u8(val as u8)
    }

    /// The square with index `val`; `None` when `val` is not below 64.
    pub fn from_u32(val: u32) -> (r: Option<Square>)
        ensures
            r == Square::of_index(val as int),
            r is Some <==> val < 64,
            r is Some ==> r->0.index() == val,
    {
        if val > 255 {
            return None;
        }
        Square::from_u8(val as u8)
    }

    /// The square with index `val`; `None` when `val` is not below 64.
    pub fn from_u64(val: u64) -> (r: Option<Square>)
        ensures
            r == Square::of_index(val as int),
            r is Some <==> val < 64,
            r is Some ==> r->0.index() == val,
    {
        if val > 255 {
            return None;
        }
        Square::from_u8(val as u8)
    }

    /// The square with index `val`; `None` when `val` is not below 64.
    pub fn from_usize(val: usize) -> (r: Option<Square>)
        ensures
            r == Square::of_index(val as int),
            r is Some <==> val < 64,
            r is Some ==> r->0.index() == val,
    {
        if val > 255 {
            return None;
        }
        Square::from_u8(val as u8)
    }

    /// The one square of a set that holds exactly one; `None` for any other set.
    pub fn from_mask(mask: Mask) -> (r: Option<Square>)
        ensures
            r is Some <==> exists|i: int| 0 <= i < 64 && mask.0 == single(i),
            r is Some ==> mask.0 == single(r->0.index()),
    {
        let ones = mask.ones();
        if ones.len() != 1 {
            proof {
                broadcast use group_bits;

                if exists|i: int| 0 <= i < 64 && mask.0 == single(i) {
                    let i = choose|i: int| 0 <= i < 64 && mask.0 == single(i);
                    Square::lemma_of_index(i);
                    let s = Square::of_index(i)->0;
                    assert(mask.has(s));
                    if ones.len() > 1 {
                        assert(mask.has(ones@[0]) && mask.has(ones@[1]));
                        assert(ones@[0].index() < ones@[1].index());
                    }
                }
            }
            return None;
        }
        let s = ones[0];
        proof {
            broadcast use group_bits;

            s.lemma_index();
            assert(mask.has(s));
            assert forall|i: int| 0 <= i < 64 implies bit_at(mask.0, i) == bit_at(
                single(s.index()),
                i,
            ) by {
                if bit_at(mask.0, i) {
                    Square::lemma_of_index(i);
                    let t = Square::of_index(i)->0;
                    assert(mask.has(t));
                    assert(ones@.contains(t));
                }
            }
            lemma_same_bits(mask.0, single(s.index()));
        }
        Some(s)
    }

    /// The square on the given rank and file.
    pub fn from_coords(rank: Rank, file: File) -> (s: Square)
        ensures
            s == Square::at(rank.index(), file.index()),
            s.index() == 8 * rank.index() + file.index(),
            s.rank_index() == rank.index(),
            s.file_index() == file.index(),
    {
        proof {
            Square::lemma_at(rank.index(), file.index());
        }
        match Square::from_u8(rank.to_u8() * 8 + file.to_u8()) {
            Some(s) => s,
            None => Square::A1,
        }
    }

    /// The square that a file letter and a rank digit name; `None` if
    /// either names nothing.
    pub fn from_chars(file: char, rank: char) -> (r: Option<Square>)
        ensures
            r == Square::parse(seq![file, rank]),
    {
        let f = file_index_of_char(file);
        let r = rank_index_of_char(rank);
        if f >= 8 || r >= 8 {
            return None;
        }
        let rank = Rank::from_u8(r);
        let file = File::from_u8(f);
        match (rank, file) {
            (Some(rank), Some(file)) => Some(Square::from_coords(rank, file)),
            _ => None,
        }
    }

    /// Reads a square's name, such as `e4`: a file letter `a` to `h`, then a
    /// rank digit `1` to `8`. `None` for any other text.
    pub fn from_str(input: &str) -> (r: Option<Square>)
        ensures
            r == Square::parse(input@),
    {
        if input.unicode_len() != 2 {
            return None;
        }
        assert(input@ =~= seq![input@[0], input@[1]]);
        Square::from_chars(input.get_char(0), input.get_char(1))
    }

    /// The square's index as a shift amount.
    pub fn to_shift(&self) -> (i: usize)
        ensures
            i == self.index(),
            i < 64,
    {
        match self {
            Square::A1 => 0,
            Square::B1 => 1,
            Square::C1 => 2,
            Square::D1 => 3,
            Square::E1 => 4,
            Square::F1 => 5,
            Square::G1 => 6,
            Square::H1 => 7,
            Square::A2 => 8,
            Square::B2 => 9,
            Square::C2 => 10,
            Square::D2 => 11,
            Square::E2 => 12,
            Square::F2 => 13,
            Square::G2 => 14,
            Square::H2 => 15,
            Square::A3 => 16,
            Square::B3 => 17,
            Square::C3 => 18,
            Square::D3 => 19,
            Square::E3 => 20,
            Square::F3 => 21,
            Square::G3 => 22,
            Square::H3 => 23,
            Square::A4 => 24,
            Square::B4 => 25,
            Square::C4 => 26,
            Square::D4 => 27,
            Square::E4 => 28,
            Square::F4 => 29,
            Square::G4 => 30,
            Square::H4 => 31,
            Square::A5 => 32,
            Square::B5 => 33,
            Square::C5 => 34,
            Square::D5 => 35,
            Square::E5 => 36,
            Square::F5 => 37,
            Square::G5 => 38,
            Square::H5 => 39,
            Square::A6 => 40,
            Square::B6 => 41,
            Square::C6 => 42,
            Square::D6 => 43,
            Square::E6 => 44,
            Square::F6 => 45,
            Square::G6 => 46,
            Square::H6 => 47,
            Square::A7 => 48,
            Square::B7 => 49,
            Square::C7 => 50,
            Square::D7 => 51,
            Square::E7 => 52,
            Square::F7 => 53,
            Square::G7 => 54,
            Square::H7 => 55,
            Square::A8 => 56,
            Square::B8 => 57,
            Square::C8 => 58,
            Square::D8 => 59,
            Square::E8 => 60,
            Square::F8 => 61,
            Square::G8 => 62,
            Square::H8 => 63,
        }
    }

    /// The square's name, such as `e4`.
    pub fn to_string(&self) -> (s: String)
        ensures
            s@ == self.name(),
    {
        let i = self.to_shift();
        let f = match i % 8 {
            0 => "a",
            1 => "b",
            2 => "c",
            3 => "d",
            4 => "e",
            5 => "f",
            6 => "g",
            _ => "h",
        };
        let r = match i / 8 {
            0 => "1",
            1 => "2",
            2 => "3",
            3 => "4",
            4 => "5",
            5 => "6",
            6 => "7",
            _ => "8",
        };
        proof {
            reveal_strlit("a");
            reveal_strlit("b");
            reveal_strlit("c");
            reveal_strlit("d");
            reveal_strlit("e");
            reveal_strlit("f");
            reveal_strlit("g");
            reveal_strlit("h");
            reveal_strlit("1");
            reveal_strlit("2");
            reveal_strlit("3");
            reveal_strlit("4");
            reveal_strlit("5");
            reveal_strlit("6");
            reveal_strlit("7");
            reveal_strlit("8");
        }
        let mut s = String::from_str(f);
        s.append(r);
        assert(s@ =~= self.name());
        s
    }
}

} // verus!
