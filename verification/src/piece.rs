//! Colours and the twelve kinds of piece.
use vstd::prelude::*;

verus! {

/// Offsets between square indices for the eight knight jumps.
pub const KNIGHT_MOVE_OFFSETS: [i8; 8] = [15, 17, 6, 10, -10, -6, -17, -15];

/// Offsets between square indices for one diagonal step.
pub const BISHOP_MOVE_OFFSETS: [i8; 4] = [7, 9, -7, -9];

/// Offsets between square indices for one step along a rank or a file.
pub const ROOK_MOVE_OFFSETS: [i8; 4] = [8, 1, -8, -1];

/// The side that a piece belongs to.
#[derive(Debug, Clone, Copy, PartialEq, Eq, Structural)]
pub enum Color {
    White,
    Black,
}

/// A kind of piece together with its side.
#[derive(Debug, Clone, Copy, PartialEq, Eq, Structural)]
pub enum Piece {
    Pawn(Color),
    Knight(Color),
    Bishop(Color),
    Rook(Color),
    Queen(Color),
    King(Color),
}

impl Color {
    /// The other side.
    pub open spec fn other(self) -> Color {
        match self {
            Color::White => Color::Black,
            Color::Black => Color::White,
        }
    }

    /// Where this side's six piece sets start among the twelve: 0 or 6.
    pub open spec fn base(self) -> int {
        match self {
            Color::White => 0,
            Color::Black => 6,
        }
    }

    /// The other side.
    pub fn swapped(&self) -> (c: Color)
        ensures
            c == self.other(),
    {
        match self {
            Color::White => Color::Black,
            Color::Black => Color::White,
        }
    }
}

impl Piece {
    pub const WHITE_PAWN_INDEX: usize = 0;

    pub const WHITE_KNIGHT_INDEX: usize = 1;

    pub const WHITE_BISHOP_INDEX: usize = 2;

    pub const WHITE_ROOK_INDEX: usize = 3;

    pub const WHITE_QUEEN_INDEX: usize = 4;

    pub const WHITE_KING_INDEX: usize = 5;

    pub const BLACK_PAWN_INDEX: usize = 6;

    pub const BLACK_KNIGHT_INDEX: usize = 7;

    pub const BLACK_BISHOP_INDEX: usize = 8;

    pub const BLACK_ROOK_INDEX: usize = 9;

    pub const BLACK_QUEEN_INDEX: usize = 10;

    pub const BLACK_KING_INDEX: usize = 11;

    /// The side of the piece.
    pub open spec fn side(self) -> Color {
        match self {
            Piece::Pawn(c) => c,
            Piece::Knight(c) => c,
            Piece::Bishop(c) => c,
            Piece::Rook(c) => c,
            Piece::Queen(c) => c,
            Piece::King(c) => c,
        }
    }

    /// The kind of the piece, 0 for a pawn to 5 for a king.
    pub open spec fn kind(self) -> int {
        match self {
            Piece::Pawn(_) => 0,
            Piece::Knight(_) => 1,
            Piece::Bishop(_) => 2,
            Piece::Rook(_) => 3,
            Piece::Queen(_) => 4,
            Piece::King(_) => 5,
        }
    }

    /// Which of the twelve piece sets holds this piece: its side's base plus
    /// its kind.
    pub open spec fn slot(self) -> int {
        self.side().base() + self.kind()
    }

    /// The piece whose set is number `i`, for `i` in `0..12`.
    pub open spec fn of_slot(i: int) -> Option<Piece> {
        if i == 0 {
            Some(Piece::Pawn(Color::White))
        } else if i == 1 {
            Some(Piece::Knight(Color::White))
        } else if i == 2 {
            Some(Piece::Bishop(Color::White))
        } else if i == 3 {
            Some(Piece::Rook(Color::White))
        } else if i == 4 {
            Some(Piece::Queen(Color::White))
        } else if i == 5 {
            Some(Piece::King(Color::White))
        } else if i == 6 {
            Some(Piece::Pawn(Color::Black))
        } else if i == 7 {
            Some(Piece::Knight(Color::Black))
        } else if i == 8 {
            Some(Piece::Bishop(Color::Black))
        } else if i == 9 {
            Some(Piece::Rook(Color::Black))
        } else if i == 10 {
            Some(Piece::Queen(Color::Black))
        } else if i == 11 {
            Some(Piece::King(Color::Black))
        } else {
            None
        }
    }

    /// The piece that a letter stands for: upper case for White, lower case
    /// for Black.
    pub open spec fn of_char(ch: char) -> Option<Piece> {
        if ch == 'P' {
            Some(Piece::Pawn(Color::White))
        } else if ch == 'N' {
            Some(Piece::Knight(Color::White))
        } else if ch == 'B' {
            Some(Piece::Bishop(Color::White))
        } else if ch == 'R' {
            Some(Piece::Rook(Color::White))
        } else if ch == 'Q' {
            Some(Piece::Queen(Color::White))
        } else if ch == 'K' {
            Some(Piece::King(Color::White))
        } else if ch == 'p' {
            Some(Piece::Pawn(Color::Black))
        } else if ch == 'n' {
            Some(Piece::Knight(Color::Black))
        } else if ch == 'b' {
            Some(Piece::Bishop(Color::Black))
        } else if ch == 'r' {
            Some(Piece::Rook(Color::Black))
        } else if ch == 'q' {
            Some(Piece::Queen(Color::Black))
        } else if ch == 'k' {
            Some(Piece::King(Color::Black))
        } else {
            None
        }
    }

    /// `slot` and `of_slot` are inverse to each other.
    pub proof fn lemma_slot(self)
        ensures
            0 <= self.slot() < 12,
            Piece::of_slot(self.slot()) == Some(self),
    {
    }

    /// Every number in `0..12` is the slot of the piece that `of_slot` gives.
    pub proof fn lemma_of_slot(i: int)
        ensures
            Piece::of_slot(i) is Some <==> 0 <= i < 12,
            0 <= i < 12 ==> Piece::of_slot(i)->0.slot() == i,
    {
    }

    /// The side of the piece.
    pub fn color(&self) -> (c: Color)
        ensures
            c == self.side(),
    {
        match self {
            Piece::Pawn(color)
            | Piece::Knight(color)
            | Piece::Bishop(color)
            | Piece::Rook(color)
            | Piece::Queen(color)
            | Piece::King(color) => *color,
        }
    }

    /// Whether the piece moves along rays: a bishop, a rook or a queen.
    pub fn is_slider(&self) -> (b: bool)
        ensures
            b == (2 <= self.kind() <= 4),
    {
        match self {
            Piece::Queen(_) | Piece::Rook(_) | Piece::Bishop(_) => true,
            Piece::King(_) | Piece::Knight(_) | Piece::Pawn(_) => false,
        }
    }

    /// The piece that a letter stands for; `None` for any other character.
    pub fn from_char(ch: char) -> (p: Option<Piece>)
        ensures
            p == Piece::of_char(ch),
    {
        match ch {
            'P' => Some(Piece::Pawn(Color::White)),
            'N' => Some(Piece::Knight(Color::White)),
            'B' => Some(Piece::Bishop(Color::White)),
            'R' => Some(Piece::Rook(Color::White)),
            'Q' => Some(Piece::Queen(Color::White)),
            'K' => Some(Piece::King(Color::White)),
            'p' => Some(Piece::Pawn(Color::Black)),
            'n' => Some(Piece::Knight(Color::Black)),
            'b' => Some(Piece::Bishop(Color::Black)),
            'r' => Some(Piece::Rook(Color::Black)),
            'q' => Some(Piece::Queen(Color::Black)),
            'k' => Some(Piece::King(Color::Black)),
            _ => None,
        }
    }

    /// Which of the twelve piece sets holds this piece.
    pub fn to_mask_index(&self) -> (i: usize)
        ensures
            i == self.slot(),
            i < 12,
    {
        match self {
            Piece::Pawn(Color::White) => 0,
            Piece::Knight(Color::White) => 1,
            Piece::Bishop(Color::White) => 2,
            Piece::Rook(Color::White) => 3,
            Piece::Queen(Color::White) => 4,
            Piece::King(Color::White) => 5,
            Piece::Pawn(Color::Black) => 6,
            Piece::Knight(Color::Black) => 7,
            Piece::Bishop(Color::Black) => 8,
            Piece::Rook(Color::Black) => 9,
            Piece::Queen(Color::Black) => 10,
            Piece::King(Color::Black) => 11,
        }
    }

    /// The piece whose set is number `i`; `None` when `i` is not below 12.
    pub fn from_mask_index(i: usize) -> (p: Option<Piece>)
        ensures
            p == Piece::of_slot(i as int),
    {
        match i {
            0 => Some(Piece::Pawn(Color::White)),
            1 => Some(Piece::Knight(Color::White)),
            2 => Some(Piece::Bishop(Color::White)),
            3 => Some(Piece::Rook(Color::White)),
            4 => Some(Piece::Queen(Color::White)),
            5 => Some(Piece::King(Color::White)),
            6 => Some(Piece::Pawn(Color::Black)),
            7 => Some(Piece::Knight(Color::Black)),
            8 => Some(Piece::Bishop(Color::Black)),
            9 => Some(Piece::Rook(Color::Black)),
            10 => Some(Piece::Queen(Color::Black)),
            11 => Some(Piece::King(Color::Black)),
            _ => None,
        }
    }
}

} // verus!
