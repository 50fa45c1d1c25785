//! Positions and the game: what stands where, whose turn it is, and what a
//! move makes of a position.
use vstd::prelude::*;
use crate::bits::{bit_at, single, disjoint, lemma_single_injective, lemma_zero_bits};
use crate::geometry::{
    knight_mask, king_mask, pawn_pushes, pawn_captures, rook_attacks, bishop_attacks,
};
use crate::laws::lemma_pseudolegal_keeps_wf;
use crate::mask::Mask;
use crate::fen::{parse, parse_fen};
use crate::move_gen::{
    SlidingMoves, TableFillError, fixed_magics_collide, knight_moves_from, king_moves_from,
    white_pawn_moves_from, black_pawn_moves_from, white_pawn_captures_from,
    black_pawn_captures_from, generate_white_pawn_move_masks, generate_black_pawn_move_masks,
    generate_knight_move_masks, generate_bishop_move_masks, generate_rook_move_masks,
    generate_king_move_masks,
};
use crate::moves::{Move, MoveError};
use crate::piece::{Color, Piece};
use crate::square::Square;

verus! {

/// The position at the start of a game.
pub const START_FEN: &'static str = "rnbqkbnr/pppppppp/8/8/8/8/PPPPPPPP/RNBQKBNR w KQkq - 0 1";

/// A middle-game position with a pawn about to promote.
pub const TEST_POSITION_FEN: &'static str = "rnbq1k1r/pp1Pbppp/2p5/8/2B5/8/PPP1NnPP/RNBQK2R w KQ - 1 8";

/// Why a text is no position in Forsyth-Edwards notation.
#[derive(Debug, Clone, Copy, PartialEq, Eq, Structural)]
pub enum FenError {
    /// The piece section does not describe eight rows of eight squares.
    BadPosition,
    /// The side to move is neither `w` nor `b`.
    BadActiveColor,
    /// The castling rights are neither `-` nor letters of `KQkq` in order.
    BadCastlingRights,
    /// The en-passant section is missing, or names no square that a double
    /// pawn push passes over, or the square is occupied.
    BadEnPassant,
    /// The halfmove clock is no number, or is above 100.
    BadHalfmoves,
    /// The move number is no number that fits 32 bits.
    BadFullmoves,
    /// A section other than the en-passant one is missing.
    MissingSection,
    /// There are more than six sections.
    TooManySections,
}

/// The side of the board that a king castles towards.
#[derive(Debug, Clone, Copy, PartialEq, Eq, Structural)]
pub enum CastleDirection {
    Kingside,
    Queenside,
}

/// A move that does more than carry one piece from a square to another.
#[derive(Debug, Clone, Copy, PartialEq, Eq, Structural)]
pub enum SpecialMove {
    Castle(CastleDirection),
    EnPassant,
    Promotion,
}

/// A position: the twelve piece sets, the side to move, and what the rules
/// need to know of the past.
#[derive(Debug, Clone, Copy, PartialEq, Eq)]
pub struct BoardState {
    /// The side to move.
    pub active_color: Color,
    /// The squares of each kind of piece, by `Piece::slot`.
    pub masks: [Mask; 12],
    /// The move that led here, if any: it decides whether a pawn can be
    /// taken en passant.
    pub last_move: Option<Move>,
    /// The rook that started on a1 has moved or was taken.
    pub a1_rook_moved: bool,
    /// The rook that started on h1 has moved or was taken.
    pub h1_rook_moved: bool,
    /// The rook that started on a8 has moved or was taken.
    pub a8_rook_moved: bool,
    /// The rook that started on h8 has moved or was taken.
    pub h8_rook_moved: bool,
    /// Moves since the last capture or pawn move, both sides counted.
    pub halfmoves: u8,
    /// The number of the move, which goes up after each move of Black.
    pub fullmoves: u32,
}

/// `m` without square `sq`.
pub open spec fn lift(m: u64, sq: int) -> u64 {
    m & !single(sq)
}

/// `m` with square `sq`.
pub open spec fn put(m: u64, sq: int) -> u64 {
    m | single(sq)
}

impl BoardState {
    /// The pieces of kind `kind` (0 for pawns to 5 for kings) of one side.
    pub open spec fn set_of(self, color: Color, kind: int) -> u64 {
        self.masks[color.base() + kind].0
    }

    /// The squares that White's pieces stand on.
    pub open spec fn white_occupancy(self) -> u64 {
        self.masks[0].0 | self.masks[1].0 | self.masks[2].0 | self.masks[3].0 | self.masks[4].0
            | self.masks[5].0
    }

    /// The squares that Black's pieces stand on.
    pub open spec fn black_occupancy(self) -> u64 {
        self.masks[6].0 | self.masks[7].0 | self.masks[8].0 | self.masks[9].0 | self.masks[10].0
            | self.masks[11].0
    }

    /// The squares that the pieces of `color` stand on.
    pub open spec fn side_occupancy(self, color: Color) -> u64 {
        match color {
            Color::White => self.white_occupancy(),
            Color::Black => self.black_occupancy(),
        }
    }

    /// The squares that any piece stands on.
    pub open spec fn occupancy(self) -> u64 {
        self.white_occupancy() | self.black_occupancy()
    }

    /// The first piece set, counting from set `from`, that holds square
    /// `sq`.
    pub open spec fn holder(self, sq: int, from: int) -> Option<Piece>
        decreases 12 - from,
    {
        if from < 0 || from >= 12 {
            None
        } else if bit_at(self.masks[from].0, sq) {
            Piece::of_slot(from)
        } else {
            self.holder(sq, from + 1)
        }
    }

    /// The piece on square `sq`: the one of the first piece set that holds
    /// the square.
    pub open spec fn piece_on(self, sq: int) -> Option<Piece> {
        self.holder(sq, 0)
    }

    /// No square holds two pieces: the twelve piece sets are pairwise
    /// disjoint.
    pub open spec fn single_occupancy(self) -> bool {
        forall|i: int, j: int|
            0 <= i < j < 12 ==> disjoint((#[trigger] self.masks[i]).0, (#[trigger] self.masks[j]).0)
    }

    /// The position is sound: no square holds two pieces, and where a pawn
    /// may be taken en passant, the square to take it on is empty.
    pub open spec fn wf(self) -> bool {
        &&& self.single_occupancy()
        &&& self.en_passant_square() is Some ==> !bit_at(
            self.occupancy(),
            self.en_passant_square()->0,
        )
    }

    /// Reads a position in Forsyth-Edwards notation: six sections cut by
    /// single spaces, white space around them dropped. The piece section has
    /// eight rows of exactly eight squares each; the castling rights are `-`
    /// or letters of `KQkq` in this order; the en-passant square, where the
    /// position offers the capture, has to be empty; the halfmove clock is at
    /// most 100. A position that comes back is sound.
    pub fn from_fen(fen: &str) -> (result: Result<BoardState, FenError>)
        ensures
            result == parse_fen(fen@),
            result is Ok ==> result->Ok_0.wf(),
    {
        parse(fen)
    }

    /// An empty board with White to move.
    pub fn new() -> (s: BoardState)
        ensures
            forall|i: int| 0 <= i < 12 ==> (#[trigger] s.masks[i]).0 == 0,
            s.active_color == Color::White,
            s.last_move is None,
            !s.a1_rook_moved && !s.h1_rook_moved && !s.a8_rook_moved && !s.h8_rook_moved,
            s.halfmoves == 0,
            s.fullmoves == 0,
    {
        BoardState {
            active_color: Color::White,
            masks: [Mask(0);12],
            last_move: None,
            a1_rook_moved: false,
            h1_rook_moved: false,
            a8_rook_moved: false,
            h8_rook_moved: false,
            halfmoves: 0,
            fullmoves: 0,
        }
    }

    /// The piece on `square`, if any. Should two piece sets hold the square,
    /// the one that comes first counts.
    pub fn piece_at_square(&self, square: Square) -> (p: Option<Piece>)
        ensures
            p == self.piece_on(square.index()),
    {
        let bit: u64 = 1u64 << square.to_shift();
        let mut i: usize = 0;
        while i < 12
            invariant
                i <= 12,
                bit == single(square.index()),
                0 <= square.index() < 64,
                self.piece_on(square.index()) == self.holder(square.index(), i as int),
            decreases 12 - i,
        {
            if self.masks[i].0 & bit != 0 {
                return Piece::from_mask_index(i);
            }
            i += 1;
        }
        None
    }

    /// White's six piece sets, pawns first and the king last.
    pub fn white_pieces(&self) -> (sets: [Mask; 6])
        ensures
            forall|k: int| 0 <= k < 6 ==> #[trigger] sets[k] == self.masks[k],
    {
        [
            self.masks[0],
            self.masks[1],
            self.masks[2],
            self.masks[3],
            self.masks[4],
            self.masks[5],
        ]
    }

    /// Black's six piece sets, pawns first and the king last.
    pub fn black_pieces(&self) -> (sets: [Mask; 6])
        ensures
            forall|k: int| 0 <= k < 6 ==> #[trigger] sets[k] == self.masks[6 + k],
    {
        [
            self.masks[6],
            self.masks[7],
            self.masks[8],
            self.masks[9],
            self.masks[10],
            self.masks[11],
        ]
    }

    /// The six piece sets of `color`, pawns first and the king last.
    pub fn friendly_pieces(&self, color: Color) -> (sets: [Mask; 6])
        ensures
            forall|k: int| 0 <= k < 6 ==> #[trigger] sets[k] == self.masks[color.base() + k],
    {
        match color {
            Color::White => self.white_pieces(),
            Color::Black => self.black_pieces(),
        }
    }

    /// The six piece sets of the other side than `color`, pawns first and
    /// the king last.
    pub fn enemy_pieces(&self, color: Color) -> (sets: [Mask; 6])
        ensures
            forall|k: int| 0 <= k < 6 ==> #[trigger] sets[k] == self.masks[color.other().base() + k],
    {
        match color {
            Color::White => self.black_pieces(),
            Color::Black => self.white_pieces(),
        }
    }

    /// The table of `piece` for an empty board, by square index: where the
    /// piece may go from each square. A queen's table holds the rook's 64
    /// entries and then the bishop's.
    pub fn move_masks(&self, piece: Piece) -> (table: Vec<Mask>)
        ensures
            table@.len() == (if piece.kind() == 4 {
                128int
            } else {
                64int
            }),
            forall|i: int|
                0 <= i < 64 ==> (#[trigger] table@[i]).0 == (match piece {
                    Piece::Pawn(color) => pawn_pushes(color, i),
                    Piece::Knight(_) => knight_mask(i),
                    Piece::Bishop(_) => bishop_attacks(i, 0),
                    Piece::Rook(_) => rook_attacks(i, 0),
                    Piece::Queen(_) => rook_attacks(i, 0),
                    Piece::King(_) => king_mask(i),
                }),
            forall|i: int|
                64 <= i < table@.len() ==> (#[trigger] table@[i]).0 == bishop_attacks(i - 64, 0),
    {
        let first = match piece {
            Piece::Pawn(color) => match color {
                Color::White => generate_white_pawn_move_masks(),
                Color::Black => generate_black_pawn_move_masks(),
            },
            Piece::Knight(_) => generate_knight_move_masks(),
            Piece::Bishop(_) => generate_bishop_move_masks(),
            Piece::King(_) => generate_king_move_masks(),
            Piece::Rook(_) => generate_rook_move_masks(),
            Piece::Queen(_) => generate_rook_move_masks(),
        };
        let mut table: Vec<Mask> = Vec::with_capacity(128);
        let mut i: usize = 0;
        while i < 64
            invariant
                i <= 64,
                table@.len() == i,
                forall|j: int| 0 <= j < i ==> #[trigger] table@[j] == first[j],
            decreases 64 - i,
        {
            table.push(first[i]);
            i += 1;
        }
        if let Piece::Queen(_) = piece {
            let second = generate_bishop_move_masks();
            let mut i: usize = 0;
            while i < 64
                invariant
                    i <= 64,
                    table@.len() == 64 + i,
                    forall|j: int| 0 <= j < 64 ==> #[trigger] table@[j] == first[j],
                    forall|j: int| 0 <= j < i ==> #[trigger] table@[64 + j] == second[j],
                decreases 64 - i,
            {
                table.push(second[i]);
                i += 1;
            }
            assert forall|j: int| 64 <= j < table@.len() implies (#[trigger] table@[j]).0
                == bishop_attacks(j - 64, 0) by {
                assert(table@[64 + (j - 64)] == second[j - 64]);
            }
        }
        table
    }

    /// The squares of `piece`, to be changed in place.
    pub fn mask_mut(&mut self, piece: Piece) -> (m: &mut Mask)
        ensures
            *m == old(self).masks[piece.slot()],
            final(self).masks@ == old(self).masks@.update(piece.slot(), *final(m)),
            final(self).active_color == old(self).active_color,
            final(self).last_move == old(self).last_move,
            final(self).a1_rook_moved == old(self).a1_rook_moved,
            final(self).h1_rook_moved == old(self).h1_rook_moved,
            final(self).a8_rook_moved == old(self).a8_rook_moved,
            final(self).h8_rook_moved == old(self).h8_rook_moved,
            final(self).halfmoves == old(self).halfmoves,
            final(self).fullmoves == old(self).fullmoves,
    {
        &mut self.masks[piece.to_mask_index()]
    }

    /// The squares of `piece`.
    pub fn mask(&self, piece: Piece) -> (m: Mask)
        ensures
            m == self.masks[piece.slot()],
    {
        self.masks[piece.to_mask_index()]
    }

    /// Hands the turn to the other side.
    pub fn swap_active_color(&mut self)
        ensures
            final(self).active_color == old(self).active_color.other(),
            final(self).masks == old(self).masks,
            final(self).last_move == old(self).last_move,
            final(self).a1_rook_moved == old(self).a1_rook_moved,
            final(self).h1_rook_moved == old(self).h1_rook_moved,
            final(self).a8_rook_moved == old(self).a8_rook_moved,
            final(self).h8_rook_moved == old(self).h8_rook_moved,
            final(self).halfmoves == old(self).halfmoves,
            final(self).fullmoves == old(self).fullmoves,
    {
        self.active_color = self.active_color.swapped();
    }

    /// Takes every piece off the board.
    pub fn clear_pieces(&mut self)
        ensures
            forall|i: int| 0 <= i < 12 ==> (#[trigger] final(self).masks[i]).0 == 0,
            final(self).active_color == old(self).active_color,
            final(self).last_move == old(self).last_move,
            final(self).a1_rook_moved == old(self).a1_rook_moved,
            final(self).h1_rook_moved == old(self).h1_rook_moved,
            final(self).a8_rook_moved == old(self).a8_rook_moved,
            final(self).h8_rook_moved == old(self).h8_rook_moved,
            final(self).halfmoves == old(self).halfmoves,
            final(self).fullmoves == old(self).fullmoves,
    {
        self.masks = [Mask(0);12];
    }

    /// The squares that White's pieces stand on.
    pub fn white_pieces_mask(&self) -> (m: Mask)
        ensures
            m.0 == self.white_occupancy(),
    {
        Mask(
            self.masks[0].0 | self.masks[1].0 | self.masks[2].0 | self.masks[3].0
                | self.masks[4].0 | self.masks[5].0,
        )
    }

    /// The squares that Black's pieces stand on.
    pub fn black_pieces_mask(&self) -> (m: Mask)
        ensures
            m.0 == self.black_occupancy(),
    {
        Mask(
            self.masks[6].0 | self.masks[7].0 | self.masks[8].0 | self.masks[9].0
                | self.masks[10].0 | self.masks[11].0,
        )
    }

    /// The squares that any piece stands on.
    pub fn all_pieces_mask(&self) -> (m: Mask)
        ensures
            m.0 == self.occupancy(),
    {
        Mask(self.white_pieces_mask().0 | self.black_pieces_mask().0)
    }

    /// The squares that the pieces of `color` stand on.
    pub fn friendly_pieces_mask(&self, color: Color) -> (m: Mask)
        ensures
            m.0 == self.side_occupancy(color),
    {
        match color {
            Color::White => self.white_pieces_mask(),
            Color::Black => self.black_pieces_mask(),
        }
    }

    /// The squares that the pieces of the other side than `color` stand on.
    pub fn enemy_pieces_mask(&self, color: Color) -> (m: Mask)
        ensures
            m.0 == self.side_occupancy(color.other()),
    {
        match color {
            Color::White => self.black_pieces_mask(),
            Color::Black => self.white_pieces_mask(),
        }
    }
}

/// The square that a castling rook leaves.
pub open spec fn rook_home(color: Color, direction: CastleDirection) -> int {
    match (color, direction) {
        (Color::White, CastleDirection::Kingside) => 7,
        (Color::White, CastleDirection::Queenside) => 0,
        (Color::Black, CastleDirection::Kingside) => 63,
        (Color::Black, CastleDirection::Queenside) => 56,
    }
}

/// The square that a castling rook reaches.
pub open spec fn rook_transit(color: Color, direction: CastleDirection) -> int {
    match (color, direction) {
        (Color::White, CastleDirection::Kingside) => 5,
        (Color::White, CastleDirection::Queenside) => 3,
        (Color::Black, CastleDirection::Kingside) => 61,
        (Color::Black, CastleDirection::Queenside) => 59,
    }
}

/// One more than `n`, unless `n` is the largest value of its type.
pub open spec fn bump8(n: u8) -> u8 {
    if n < 255 {
        (n + 1) as u8
    } else {
        n
    }
}

/// One more than `n`, unless `n` is the largest value of its type.
pub open spec fn bump32(n: u32) -> u32 {
    if n < 0xffff_ffff {
        (n + 1) as u32
    } else {
        n
    }
}

impl BoardState {
    /// The square on which a pawn may be taken en passant, if the last move
    /// allows it: the last move carried a pawn two ranks straight ahead to
    /// the fourth rank (Black to move now) or the fifth (White to move now),
    /// and the square is the one that the pawn passed over.
    pub open spec fn en_passant_square(self) -> Option<int> {
        match self.last_move {
            Some(last) => {
                let moved = self.piece_on(last.to.index());
                if moved is Some && moved->0.kind() == 0 && last.rank_distance() == 2
                    && last.file_distance() == 0 {
                    if self.active_color == Color::White && last.to.rank_index() == 4 {
                        Some(last.to.index() + 8)
                    } else if self.active_color == Color::Black && last.to.rank_index() == 3 {
                        Some(last.to.index() - 8)
                    } else {
                        None
                    }
                } else {
                    None
                }
            },
            None => None,
        }
    }

    /// What kind of special move `mv` is here, if any. A pawn that reaches
    /// the en-passant square takes en passant; a pawn that reaches the first
    /// or the last rank promotes; a king that moves two files castles,
    /// towards the side it moves to.
    pub open spec fn special_move(self, mv: Move) -> Option<SpecialMove> {
        match self.piece_on(mv.from.index()) {
            Some(Piece::Pawn(_)) => {
                if self.en_passant_square() == Some(mv.to.index()) {
                    Some(SpecialMove::EnPassant)
                } else if mv.to.rank_index() == 0 || mv.to.rank_index() == 7 {
                    Some(SpecialMove::Promotion)
                } else {
                    None
                }
            },
            Some(Piece::King(_)) => {
                if mv.file_distance() == 2 {
                    if mv.to.file_index() > mv.from.file_index() {
                        Some(SpecialMove::Castle(CastleDirection::Kingside))
                    } else {
                        Some(SpecialMove::Castle(CastleDirection::Queenside))
                    }
                } else {
                    None
                }
            },
            _ => None,
        }
    }

    /// Whether `mv` takes the piece on the square it reaches: it does unless
    /// it castles or takes en passant.
    pub open spec fn takes_on_target(self, mv: Move) -> bool {
        self.piece_on(mv.to.index()) is Some && (self.special_move(mv) is None
            || self.special_move(mv) == Some(SpecialMove::Promotion))
    }

    /// Piece set `i` after `mv`.
    ///
    /// Taking en passant removes the other side's pawn behind the square
    /// reached. Castling carries the rook of the side to move from its corner
    /// to the square the king passes over. A promotion removes what stands on
    /// the square reached, puts a queen of the side to move there and removes
    /// the pawn. Any other move removes what stands on the square reached.
    /// But for a promotion, the piece moved then leaves its square and
    /// reaches the other.
    pub open spec fn mask_after(self, mv: Move, i: int) -> u64 {
        let m = self.masks[i].0;
        let from = mv.from.index();
        let to = mv.to.index();
        let mover = self.piece_on(from)->0;
        let color = self.active_color;
        match self.special_move(mv) {
            Some(SpecialMove::EnPassant) => {
                let taken = if color == Color::White {
                    to - 8
                } else {
                    to + 8
                };
                let m1 = if i == Piece::Pawn(color.other()).slot() {
                    lift(m, taken)
                } else {
                    m
                };
                if i == mover.slot() {
                    put(lift(m1, from), to)
                } else {
                    m1
                }
            },
            Some(SpecialMove::Castle(direction)) => {
                let m1 = if i == Piece::Rook(color).slot() {
                    put(lift(m, rook_home(color, direction)), rook_transit(color, direction))
                } else {
                    m
                };
                if i == mover.slot() {
                    put(lift(m1, from), to)
                } else {
                    m1
                }
            },
            Some(SpecialMove::Promotion) => {
                let m1 = if self.piece_on(to) is Some && self.piece_on(to)->0.slot() == i {
                    lift(m, to)
                } else {
                    m
                };
                let m2 = if i == Piece::Queen(color).slot() {
                    put(m1, to)
                } else {
                    m1
                };
                if i == mover.slot() {
                    lift(m2, from)
                } else {
                    m2
                }
            },
            None => {
                let m1 = if self.piece_on(to) is Some && self.piece_on(to)->0.slot() == i {
                    lift(m, to)
                } else {
                    m
                };
                if i == mover.slot() {
                    put(lift(m1, from), to)
                } else {
                    m1
                }
            },
        }
    }

    /// Whether `mv` ends the castling right of the rook that started on
    /// square `corner`: a rook leaves the corner, or a rook is taken there.
    pub open spec fn spoils_corner(self, mv: Move, corner: int) -> bool {
        ||| (self.piece_on(mv.from.index())->0.kind() == 3 && mv.from.index() == corner)
        ||| (self.takes_on_target(mv) && self.piece_on(mv.to.index())->0.kind() == 3
            && mv.to.index() == corner)
    }

    /// Whether `mv` sets the halfmove clock back: a pawn moves or a piece is
    /// taken.
    pub open spec fn resets_clock(self, mv: Move) -> bool {
        ||| self.piece_on(mv.from.index())->0.kind() == 0
        ||| self.takes_on_target(mv)
    }

    /// The position after `mv`, whether the rules allow the move or not.
    /// It says something only where a piece stands on the square that the
    /// move leaves.
    ///
    /// The piece sets change as `mask_after` says. The turn passes to the
    /// other side, the move is remembered, a corner flag once set stays set,
    /// the halfmove clock starts again at a pawn move or a capture and else
    /// goes up, and the move number goes up after a move of Black. Both
    /// counters stop at the largest value of their type.
    pub open spec fn after(self, mv: Move) -> BoardState {
        BoardState {
            active_color: self.active_color.other(),
            masks: [
                Mask(self.mask_after(mv, 0)),
                Mask(self.mask_after(mv, 1)),
                Mask(self.mask_after(mv, 2)),
                Mask(self.mask_after(mv, 3)),
                Mask(self.mask_after(mv, 4)),
                Mask(self.mask_after(mv, 5)),
                Mask(self.mask_after(mv, 6)),
                Mask(self.mask_after(mv, 7)),
                Mask(self.mask_after(mv, 8)),
                Mask(self.mask_after(mv, 9)),
                Mask(self.mask_after(mv, 10)),
                Mask(self.mask_after(mv, 11)),
            ],
            last_move: Some(mv),
            a1_rook_moved: self.a1_rook_moved || self.spoils_corner(mv, 0),
            h1_rook_moved: self.h1_rook_moved || self.spoils_corner(mv, 7),
            a8_rook_moved: self.a8_rook_moved || self.spoils_corner(mv, 56),
            h8_rook_moved: self.h8_rook_moved || self.spoils_corner(mv, 63),
            halfmoves: if self.resets_clock(mv) {
                0
            } else {
                bump8(self.halfmoves)
            },
            fullmoves: if self.active_color == Color::Black {
                bump32(self.fullmoves)
            } else {
                self.fullmoves
            },
        }
    }

    /// Whether the last move allows a capture en passant.
    pub fn possible_en_passant(&self) -> (b: bool)
        ensures
            b == self.en_passant_square() is Some,
    {
        let last_move = match self.last_move {
            Some(last_move) => last_move,
            None => {
                return false;
            },
        };
        let piece = match self.piece_at_square(last_move.to) {
            Some(piece) => piece,
            None => {
                return false;
            },
        };
        match piece {
            Piece::Pawn(_) => (),
            _ => {
                return false;
            },
        };
        let rank_diff = last_move.rank_diff();
        let file_diff = last_move.file_diff();
        if rank_diff != 2 || file_diff != 0 {
            return false;
        }
        let to_rank = last_move.to.rank().to_u8();
        match self.active_color {
            Color::White => to_rank == 4,
            Color::Black => to_rank == 3,
        }
    }

    /// The square on which a pawn may be taken en passant, as a set of one
    /// square; `None` if the last move allows no such capture.
    pub fn en_passant_mask(&self) -> (m: Option<Mask>)
        ensures
            m.is_some() == self.en_passant_square().is_some(),
            m is Some ==> m->0 == Mask(single(self.en_passant_square()->0)),
    {
        let last_move = match self.last_move {
            Some(last_move) => last_move,
            None => {
                return None;
            },
        };
        if !self.possible_en_passant() {
            return None;
        }
        let to_rank = last_move.to.rank();
        let capture_rank = match self.active_color {
            Color::White => to_rank.plus(1),
            Color::Black => to_rank.minus(1),
        };
        let capture_file = last_move.to.file();
        proof {
            last_move.to.lemma_index();
        }
        match capture_rank {
            Some(capture_rank) => Some(Square::from_coords(capture_rank, capture_file).mask()),
            None => None,
        }
    }

    /// Finds what kind of special move `mv` is, given the piece it moves.
    fn classify(&self, mv: Move, from_piece: Piece) -> (special: Option<SpecialMove>)
        requires
            self.piece_on(mv.from.index()) == Some(from_piece),
        ensures
            special == self.special_move(mv),
    {
        proof {
            mv.from.lemma_index();
            mv.to.lemma_index();
        }
        match from_piece {
            Piece::Pawn(_) => {
                let mut special_move: Option<SpecialMove> = None;
                let to_rank = mv.to.rank().to_u8();
                if to_rank == 0 || to_rank == 7 {
                    special_move = Some(SpecialMove::Promotion);
                }
                if let Some(mask) = self.en_passant_mask() {
                    proof {
                        lemma_single_injective(self.en_passant_square()->0, mv.to.index());
                    }
                    if mask.0 == mv.to.mask().0 {
                        special_move = Some(SpecialMove::EnPassant);
                    }
                }
                special_move
            },
            Piece::King(_) => {
                if mv.file_diff() == 2 {
                    let is_kingside = mv.to.file().to_u8() > mv.from.file().to_u8();
                    if is_kingside {
                        Some(SpecialMove::Castle(CastleDirection::Kingside))
                    } else {
                        Some(SpecialMove::Castle(CastleDirection::Queenside))
                    }
                } else {
                    None
                }
            },
            _ => None,
        }
    }

    /// The piece sets after an en-passant capture by `from_piece`.
    fn take_en_passant(&self, mv: Move, from_piece: Piece) -> (masks: [Mask; 12])
        requires
            self.piece_on(mv.from.index()) == Some(from_piece),
            self.special_move(mv) == Some(SpecialMove::EnPassant),
        ensures
            forall|i: int| 0 <= i < 12 ==> (#[trigger] masks[i]).0 == self.mask_after(mv, i),
    {
        proof {
            mv.from.lemma_index();
            mv.to.lemma_index();
            from_piece.lemma_slot();
        }
        let mut masks = self.masks;
        let rank = mv.to.rank();
        let file = mv.to.file();
        let offset_rank = match self.active_color {
            Color::White => rank.minus(1),
            Color::Black => rank.plus(1),
        };
        if let Some(offset_rank) = offset_rank {
            let taken = Square::from_coords(offset_rank, file).mask().0;
            let enemy_pawns = match self.active_color {
                Color::White => Piece::BLACK_PAWN_INDEX,
                Color::Black => Piece::WHITE_PAWN_INDEX,
            };
            masks[enemy_pawns] = Mask(masks[enemy_pawns].0 & !taken);
        }
        let mover = from_piece.to_mask_index();
        masks[mover] = Mask((masks[mover].0 & !mv.from.mask().0) | mv.to.mask().0);
        masks
    }

    /// The piece sets after castling: the rook of the side to move goes from
    /// its corner to the square the king passes over, and `from_piece` moves.
    fn castle(&self, mv: Move, from_piece: Piece, direction: CastleDirection) -> (masks: [Mask;
        12])
        requires
            self.piece_on(mv.from.index()) == Some(from_piece),
            self.special_move(mv) == Some(SpecialMove::Castle(direction)),
        ensures
            forall|i: int| 0 <= i < 12 ==> (#[trigger] masks[i]).0 == self.mask_after(mv, i),
    {
        proof {
            mv.from.lemma_index();
            mv.to.lemma_index();
            from_piece.lemma_slot();
        }
        let mut masks = self.masks;
        let rooks = Piece::Rook(self.active_color).to_mask_index();
        let (start_square, end_square) = match direction {
            CastleDirection::Kingside => match self.active_color {
                Color::White => (Square::H1, Square::F1),
                Color::Black => (Square::H8, Square::F8),
            },
            CastleDirection::Queenside => match self.active_color {
                Color::White => (Square::A1, Square::D1),
                Color::Black => (Square::A8, Square::D8),
            },
        };
        masks[rooks] = Mask((masks[rooks].0 & !start_square.mask().0) | end_square.mask().0);
        let mover = from_piece.to_mask_index();
        masks[mover] = Mask((masks[mover].0 & !mv.from.mask().0) | mv.to.mask().0);
        masks
    }

    /// The piece sets after a promotion: what stood on the square reached is
    /// gone, a queen of the side to move stands there, and the pawn is gone.
    fn promote(&self, mv: Move, from_piece: Piece, captured: Option<Piece>) -> (masks: [Mask; 12])
        requires
            self.piece_on(mv.from.index()) == Some(from_piece),
            self.piece_on(mv.to.index()) == captured,
            self.special_move(mv) == Some(SpecialMove::Promotion),
        ensures
            forall|i: int| 0 <= i < 12 ==> (#[trigger] masks[i]).0 == self.mask_after(mv, i),
    {
        proof {
            mv.from.lemma_index();
            mv.to.lemma_index();
            from_piece.lemma_slot();
        }
        let mut masks = self.masks;
        if let Some(captured_piece) = captured {
            proof {
                captured_piece.lemma_slot();
            }
            let taken = captured_piece.to_mask_index();
            masks[taken] = Mask(masks[taken].0 & !mv.to.mask().0);
        }
        let queens = Piece::Queen(self.active_color).to_mask_index();
        masks[queens] = Mask(masks[queens].0 | mv.to.mask().0);
        let mover = from_piece.to_mask_index();
        masks[mover] = Mask(masks[mover].0 & !mv.from.mask().0);
        masks
    }

    /// The piece sets after a move that is not special: what stood on the
    /// square reached is gone, and `from_piece` has moved.
    fn step(&self, mv: Move, from_piece: Piece, captured: Option<Piece>) -> (masks: [Mask; 12])
        requires
            self.piece_on(mv.from.index()) == Some(from_piece),
            self.piece_on(mv.to.index()) == captured,
            self.special_move(mv) is None,
        ensures
            forall|i: int| 0 <= i < 12 ==> (#[trigger] masks[i]).0 == self.mask_after(mv, i),
    {
        proof {
            mv.from.lemma_index();
            mv.to.lemma_index();
            from_piece.lemma_slot();
        }
        let mut masks = self.masks;
        if let Some(captured_piece) = captured {
            proof {
                captured_piece.lemma_slot();
            }
            let taken = captured_piece.to_mask_index();
            masks[taken] = Mask(masks[taken].0 & !mv.to.mask().0);
        }
        let mover = from_piece.to_mask_index();
        masks[mover] = Mask((masks[mover].0 & !mv.from.mask().0) | mv.to.mask().0);
        masks
    }

    /// Whether a rook leaves the corner with index `corner`, or is taken
    /// there.
    fn rook_leaves(mv: Move, from_piece: Piece, taken: Option<Piece>, corner: usize) -> (b: bool)
        ensures
            b == ((from_piece.kind() == 3 && mv.from.index() == corner) || (taken is Some
                && taken->0.kind() == 3 && mv.to.index() == corner)),
    {
        let leaves = match from_piece {
            Piece::Rook(_) => mv.from.to_shift() == corner,
            _ => false,
        };
        let is_taken = match taken {
            Some(Piece::Rook(_)) => mv.to.to_shift() == corner,
            _ => false,
        };
        leaves || is_taken
    }

    /// Makes a move on the board, whether the rules allow it or not. It
    /// fails only if no piece stands on the square that the move leaves.
    ///
    /// A pawn that reaches the first or the last rank becomes a queen; no
    /// other promotion is offered.
    pub fn make_move_unchecked(&self, mv: Move) -> (result: Result<BoardState, MoveError>)
        ensures
            match result {
                Ok(next) => self.piece_on(mv.from.index()) is Some && next == self.after(mv),
                Err(e) => e == MoveError::MissingPiece && self.piece_on(mv.from.index()) is None,
            },
            self.wf() && self.pseudolegal(mv) ==> result is Ok && result->Ok_0.wf(),
    {
        proof {
            if self.wf() && self.pseudolegal(mv) {
                lemma_pseudolegal_keeps_wf(*self, mv);
            }
        }
        let from_piece = match self.piece_at_square(mv.from) {
            Some(piece) => piece,
            None => {
                return Err(MoveError::MissingPiece);
            },
        };
        let special_move = self.classify(mv, from_piece);
        let on_target = self.piece_at_square(mv.to);
        let (masks, taken) = match special_move {
            Some(SpecialMove::EnPassant) => (self.take_en_passant(mv, from_piece), None),
            Some(SpecialMove::Castle(direction)) => (self.castle(mv, from_piece, direction), None),
            Some(SpecialMove::Promotion) => (self.promote(mv, from_piece, on_target), on_target),
            None => (self.step(mv, from_piece, on_target), on_target),
        };
        let is_capture = match special_move {
            Some(SpecialMove::EnPassant) => true,
            _ => taken.is_some(),
        };
        let halfmoves = match from_piece {
            Piece::Pawn(_) => 0,
            _ => {
                if is_capture {
                    0
                } else if self.halfmoves < 255 {
                    self.halfmoves + 1
                } else {
                    self.halfmoves
                }
            },
        };
        let fullmoves = if self.active_color == Color::Black && self.fullmoves < 0xffff_ffff {
            self.fullmoves + 1
        } else {
            self.fullmoves
        };
        let new_state = BoardState {
            active_color: self.active_color.swapped(),
            masks,
            last_move: Some(mv),
            a1_rook_moved: self.a1_rook_moved || BoardState::rook_leaves(mv, from_piece, taken, 0),
            h1_rook_moved: self.h1_rook_moved || BoardState::rook_leaves(mv, from_piece, taken, 7),
            a8_rook_moved: self.a8_rook_moved || BoardState::rook_leaves(mv, from_piece, taken, 56),
            h8_rook_moved: self.h8_rook_moved || BoardState::rook_leaves(mv, from_piece, taken, 63),
            halfmoves,
            fullmoves,
        };
        proof {
            assert(new_state.masks =~= self.after(mv).masks);
        }
        Ok(new_state)
    }
}

/// The square that a king starts on.
pub open spec fn king_home(color: Color) -> int {
    match color {
        Color::White => 4,
        Color::Black => 60,
    }
}

/// The square that a castling king reaches.
pub open spec fn castle_target(color: Color, direction: CastleDirection) -> int {
    match direction {
        CastleDirection::Kingside => king_home(color) + 2,
        CastleDirection::Queenside => king_home(color) - 2,
    }
}

/// One file from the king's home towards the side of `direction`: +1 or -1.
pub open spec fn castle_step(direction: CastleDirection) -> int {
    match direction {
        CastleDirection::Kingside => 1,
        CastleDirection::Queenside => -1,
    }
}

impl BoardState {
    /// A pawn of `color` attacks square `sq`.
    pub open spec fn pawn_attacks(self, sq: int, color: Color) -> bool {
        exists|p: int|
            0 <= p < 64 && bit_at(self.set_of(color, 0), p) && bit_at(
                #[trigger] pawn_captures(color, p),
                sq,
            )
    }

    /// A piece of `color` attacks square `sq`: a pawn's capture reaches it, a
    /// knight or the king stands a jump or a step away, or a rook, bishop or
    /// queen has a clear line to it.
    pub open spec fn attacked(self, sq: int, color: Color) -> bool {
        ||| self.pawn_attacks(sq, color)
        ||| self.set_of(color, 1) & knight_mask(sq) != 0
        ||| self.set_of(color, 5) & king_mask(sq) != 0
        ||| rook_attacks(sq, self.occupancy()) & (self.set_of(color, 3) | self.set_of(color, 4))
            != 0
        ||| bishop_attacks(sq, self.occupancy()) & (self.set_of(color, 2) | self.set_of(color, 4))
            != 0
    }

    /// Whether the way is free for the king of `color` to castle towards
    /// `direction`: the king's home square is not attacked, no piece stands
    /// between that square and the corner, and neither of the two squares
    /// that the king crosses is attacked.
    ///
    /// The king is taken to stand on its home square, and the castling
    /// rights are left to the caller.
    pub open spec fn may_castle(self, color: Color, direction: CastleDirection) -> bool {
        let home = king_home(color);
        let step = castle_step(direction);
        let enemy = color.other();
        &&& !self.attacked(home, enemy)
        &&& !bit_at(self.occupancy(), home + step)
        &&& !bit_at(self.occupancy(), home + 2 * step)
        &&& direction == CastleDirection::Queenside ==> !bit_at(self.occupancy(), home - 3)
        &&& !self.attacked(home + step, enemy)
        &&& !self.attacked(home + 2 * step, enemy)
    }

    /// Whether the rook that `color` would castle with towards `direction`
    /// has neither moved nor been taken.
    pub open spec fn castle_right(self, color: Color, direction: CastleDirection) -> bool {
        match (color, direction) {
            (Color::White, CastleDirection::Kingside) => !self.h1_rook_moved,
            (Color::White, CastleDirection::Queenside) => !self.a1_rook_moved,
            (Color::Black, CastleDirection::Kingside) => !self.h8_rook_moved,
            (Color::Black, CastleDirection::Queenside) => !self.a8_rook_moved,
        }
    }

    /// The square that the king of `color` reaches by castling towards
    /// `direction`, as a set, if it may castle from square `sq`: it stands on
    /// its home square, the right is there and the way is free. Else the
    /// empty set.
    pub open spec fn castle_move(self, sq: int, color: Color, direction: CastleDirection) -> u64 {
        if sq == king_home(color) && self.castle_right(color, direction) && self.may_castle(
            color,
            direction,
        ) {
            single(castle_target(color, direction))
        } else {
            0
        }
    }

    /// Where a pawn of `color` on square `sq` may go, its own side's pieces
    /// not yet left out: to the empty squares of its pushes, and none if the
    /// square ahead of its starting rank is occupied; to the occupied squares
    /// it attacks; and to the en-passant square if it attacks that.
    pub open spec fn pawn_moves(self, sq: int, color: Color) -> u64 {
        let occupied = self.occupancy();
        let ahead = match color {
            Color::White => 16 + sq % 8,
            Color::Black => 40 + sq % 8,
        };
        let starts = match color {
            Color::White => sq / 8 == 1,
            Color::Black => sq / 8 == 6,
        };
        let pushes = if starts && bit_at(occupied, ahead) {
            0
        } else {
            pawn_pushes(color, sq) & !occupied
        };
        let captures = pawn_captures(color, sq);
        let moves = pushes | (captures & occupied);
        match self.en_passant_square() {
            Some(target) => if captures & single(target) != 0 {
                moves | single(target)
            } else {
                moves
            },
            None => moves,
        }
    }

    /// Where `piece` on square `sq` may go, its own side's pieces not yet
    /// left out.
    pub open spec fn reach(self, sq: int, piece: Piece) -> u64 {
        let occupied = self.occupancy();
        match piece {
            Piece::Pawn(color) => self.pawn_moves(sq, color),
            Piece::Knight(_) => knight_mask(sq),
            Piece::Bishop(_) => bishop_attacks(sq, occupied),
            Piece::Rook(_) => rook_attacks(sq, occupied),
            Piece::Queen(_) => rook_attacks(sq, occupied) | bishop_attacks(sq, occupied),
            Piece::King(color) => king_mask(sq) | (self.castle_move(
                sq,
                color,
                CastleDirection::Kingside,
            ) | self.castle_move(sq, color, CastleDirection::Queenside)),
        }
    }

    /// The pseudolegal moves from square `sq`: where the piece on it may go
    /// by the rules of movement, whether or not its own king is then
    /// attacked. Empty unless a piece of the side to move stands on `sq`.
    pub open spec fn pseudolegal_mask(self, sq: int) -> u64 {
        match self.piece_on(sq) {
            Some(piece) => if piece.side() == self.active_color {
                self.reach(sq, piece) & !self.side_occupancy(piece.side())
            } else {
                0
            },
            None => 0,
        }
    }

    /// `mv` is pseudolegal.
    pub open spec fn pseudolegal(self, mv: Move) -> bool {
        bit_at(self.pseudolegal_mask(mv.from.index()), mv.to.index())
    }

    /// After `mv` the king of the side that moved is not attacked: the move
    /// leaves its square, a piece stands on the square it leaves, and in the
    /// position after it the side that moved has exactly one king, on a
    /// square that the other side does not attack.
    pub open spec fn keeps_king_safe(self, mv: Move) -> bool {
        let next = self.after(mv);
        let king = next.set_of(self.active_color, 5);
        &&& mv.from != mv.to
        &&& self.piece_on(mv.from.index()) is Some
        &&& exists|k: int|
            0 <= k < 64 && king == #[trigger] single(k) && !next.attacked(k, next.active_color)
    }

    /// `mv` is legal: pseudolegal, and the mover's king is not attacked
    /// after it.
    pub open spec fn legal(self, mv: Move) -> bool {
        self.pseudolegal(mv) && self.keeps_king_safe(mv)
    }

    /// Whether a pawn of `color` attacks `square`.
    fn pawn_attacked(&self, square: Square, color: Color) -> (b: bool)
        ensures
            b == self.pawn_attacks(square.index(), color),
    {
        let pawns = self.mask(Piece::Pawn(color));
        let squares = pawns.ones();
        let target = square.mask().0;
        let ghost sq = square.index();
        proof {
            square.lemma_index();
        }
        let mut k: usize = 0;
        while k < squares.len()
            invariant
                k <= squares@.len(),
                sq == square.index(),
                0 <= sq < 64,
                target == single(sq),
                pawns.0 == self.set_of(color, 0),
                Mask::lists(squares@, pawns.0),
                forall|j: int|
                    0 <= j < k ==> !bit_at(pawn_captures(color, (#[trigger] squares@[j]).index()), sq),
            decreases squares@.len() - k,
        {
            let from = squares[k].to_shift();
            let reach = match color {
                Color::White => white_pawn_captures_from(from),
                Color::Black => black_pawn_captures_from(from),
            };
            if reach.0 & target != 0 {
                proof {
                    let p = squares@[k as int].index();
                    squares@[k as int].lemma_index();
                    assert(bit_at(pawns.0, p));
                    assert(bit_at(pawn_captures(color, p), sq));
                }
                return true;
            }
            k += 1;
        }
        proof {
            if self.pawn_attacks(sq, color) {
                let p = choose|p: int|
                    0 <= p < 64 && bit_at(self.set_of(color, 0), p) && bit_at(
                        #[trigger] pawn_captures(color, p),
                        sq,
                    );
                Square::lemma_of_index(p);
                let s = Square::of_index(p)->0;
                assert(bit_at(pawns.0, s.index()));
                let j = choose|j: int| 0 <= j < squares@.len() && squares@[j] == s;
                assert(!bit_at(pawn_captures(color, squares@[j].index()), sq));
            }
        }
        false
    }

    /// Whether a piece of `color` attacks `square`.
    pub fn attacked_by(&self, square: Square, color: Color, sliding_moves: &SlidingMoves) -> (b:
        bool)
        ensures
            b == self.attacked(square.index(), color),
    {
        let from = square.to_shift();
        if self.pawn_attacked(square, color) {
            return true;
        }
        let knights = self.mask(Piece::Knight(color));
        if knights.0 & knight_moves_from(from).0 != 0 {
            return true;
        }
        let king = self.mask(Piece::King(color));
        if king.0 & king_moves_from(from).0 != 0 {
            return true;
        }
        let occupied = self.all_pieces_mask();
        let rooks_queens = self.mask(Piece::Rook(color)).0 | self.mask(Piece::Queen(color)).0;
        if sliding_moves.get_rook_moves(square, occupied).0 & rooks_queens != 0 {
            return true;
        }
        let bishops_queens = self.mask(Piece::Bishop(color)).0 | self.mask(Piece::Queen(color)).0;
        if sliding_moves.get_bishop_moves(square, occupied).0 & bishops_queens != 0 {
            return true;
        }
        false
    }

    /// Whether a king of `color` stands on a square that the other side
    /// attacks.
    pub fn in_check(&self, color: Color, sliding_moves: &SlidingMoves) -> (b: bool)
        ensures
            b == exists|k: int|
                0 <= k < 64 && bit_at(self.set_of(color, 5), k) && #[trigger] self.attacked(
                    k,
                    color.other(),
                ),
    {
        let kings = self.mask(Piece::King(color));
        let squares = kings.ones();
        let enemy = color.swapped();
        let mut i: usize = 0;
        while i < squares.len()
            invariant
                i <= squares@.len(),
                enemy == color.other(),
                kings.0 == self.set_of(color, 5),
                Mask::lists(squares@, kings.0),
                forall|j: int|
                    0 <= j < i ==> !self.attacked((#[trigger] squares@[j]).index(), enemy),
            decreases squares@.len() - i,
        {
            if self.attacked_by(squares[i], enemy, sliding_moves) {
                proof {
                    squares@[i as int].lemma_index();
                }
                return true;
            }
            i += 1;
        }
        proof {
            if exists|k: int|
                0 <= k < 64 && bit_at(self.set_of(color, 5), k) && #[trigger] self.attacked(
                    k,
                    color.other(),
                ) {
                let k = choose|k: int|
                    0 <= k < 64 && bit_at(self.set_of(color, 5), k) && #[trigger] self.attacked(
                        k,
                        color.other(),
                    );
                Square::lemma_of_index(k);
                let s = Square::of_index(k)->0;
                assert(bit_at(kings.0, s.index()));
                let j = choose|j: int| 0 <= j < squares@.len() && squares@[j] == s;
                assert(!self.attacked(squares@[j].index(), enemy));
            }
        }
        false
    }

    /// Whether the way is free for the king of `color` to castle towards
    /// `direction`. The king is taken to stand on its home square, e1 or e8;
    /// whether the rook has moved is for the caller to ask.
    pub fn can_castle(
        &self,
        color: Color,
        direction: CastleDirection,
        sliding_moves: &SlidingMoves,
    ) -> (b: bool)
        ensures
            b == self.may_castle(color, direction),
    {
        let king_square = match color {
            Color::White => Square::E1,
            Color::Black => Square::E8,
        };
        let enemy_color = color.swapped();
        if self.attacked_by(king_square, enemy_color, sliding_moves) {
            return false;
        }
        let (first, second) = match (color, direction) {
            (Color::White, CastleDirection::Kingside) => (Square::F1, Square::G1),
            (Color::White, CastleDirection::Queenside) => (Square::D1, Square::C1),
            (Color::Black, CastleDirection::Kingside) => (Square::F8, Square::G8),
            (Color::Black, CastleDirection::Queenside) => (Square::D8, Square::C8),
        };
        let occupied = self.all_pieces_mask().0;
        if occupied & first.mask().0 != 0 || occupied & second.mask().0 != 0 {
            return false;
        }
        match (color, direction) {
            (Color::White, CastleDirection::Queenside) => {
                if occupied & Square::B1.mask().0 != 0 {
                    return false;
                }
            },
            (Color::Black, CastleDirection::Queenside) => {
                if occupied & Square::B8.mask().0 != 0 {
                    return false;
                }
            },
            _ => (),
        }
        if self.attacked_by(first, enemy_color, sliding_moves) {
            return false;
        }
        if self.attacked_by(second, enemy_color, sliding_moves) {
            return false;
        }
        true
    }

    /// Whether `color` still has the right to castle towards `direction`.
    pub fn has_castle_right(&self, color: Color, direction: CastleDirection) -> (b: bool)
        ensures
            b == self.castle_right(color, direction),
    {
        match (color, direction) {
            (Color::White, CastleDirection::Kingside) => !self.h1_rook_moved,
            (Color::White, CastleDirection::Queenside) => !self.a1_rook_moved,
            (Color::Black, CastleDirection::Kingside) => !self.h8_rook_moved,
            (Color::Black, CastleDirection::Queenside) => !self.a8_rook_moved,
        }
    }

    /// The castling move of the king of `color` on `square` towards
    /// `direction`, as a set of at most one square.
    fn castle_destination(
        &self,
        square: Square,
        color: Color,
        direction: CastleDirection,
        sliding_moves: &SlidingMoves,
    ) -> (m: u64)
        ensures
            m == self.castle_move(square.index(), color, direction),
    {
        let home = match color {
            Color::White => 4,
            Color::Black => 60,
        };
        if square.to_shift() == home && self.has_castle_right(color, direction) && self.can_castle(
            color,
            direction,
            sliding_moves,
        ) {
            let target = match (color, direction) {
                (Color::White, CastleDirection::Kingside) => Square::G1,
                (Color::White, CastleDirection::Queenside) => Square::C1,
                (Color::Black, CastleDirection::Kingside) => Square::G8,
                (Color::Black, CastleDirection::Queenside) => Square::C8,
            };
            target.mask().0
        } else {
            0
        }
    }

    /// Where a pawn of `color` on `square` may go, its own side's pieces not
    /// yet left out.
    fn pawn_destinations(&self, square: Square, color: Color) -> (m: u64)
        ensures
            m == self.pawn_moves(square.index(), color),
    {
        let from = square.to_shift();
        let occupied = self.all_pieces_mask().0;
        let file = from % 8;
        let (starts, ahead): (bool, usize) = match color {
            Color::White => (from / 8 == 1, 16 + file),
            Color::Black => (from / 8 == 6, 40 + file),
        };
        let static_pushes = match color {
            Color::White => white_pawn_moves_from(from),
            Color::Black => black_pawn_moves_from(from),
        };
        let pushes = if starts && occupied & (1u64 << ahead) != 0 {
            0
        } else {
            static_pushes.0 & !occupied
        };
        let capture_mask = match color {
            Color::White => white_pawn_captures_from(from),
            Color::Black => black_pawn_captures_from(from),
        };
        let moves = pushes | (capture_mask.0 & occupied);
        match self.en_passant_mask() {
            Some(en_passant_mask) => {
                if capture_mask.0 & en_passant_mask.0 != 0 {
                    moves | en_passant_mask.0
                } else {
                    moves
                }
            },
            None => moves,
        }
    }

    /// The pseudolegal moves from `square`, as the set of squares reached:
    /// empty unless a piece of the side to move stands there.
    ///
    /// Rooks, bishops and queens go as far as the first occupied square;
    /// pawns are pushed onto empty squares only, take diagonally, and take en
    /// passant where the last move allows it; a king on its home square may
    /// castle while the rook's flag is clear and the way is free. No piece
    /// goes to a square of its own side.
    pub fn get_pseudolegal_move_mask(&self, square: Square, sliding_moves: &SlidingMoves) -> (m:
        Mask)
        ensures
            m.0 == self.pseudolegal_mask(square.index()),
    {
        let blockers = self.all_pieces_mask();
        let piece = match self.piece_at_square(square) {
            Some(piece) => piece,
            None => {
                return Mask(0);
            },
        };
        let color = piece.color();
        if color != self.active_color {
            return Mask(0);
        }
        let from = square.to_shift();
        let move_mask: u64 = match piece {
            Piece::Rook(_) => sliding_moves.get_rook_moves(square, blockers).0,
            Piece::Bishop(_) => sliding_moves.get_bishop_moves(square, blockers).0,
            Piece::Queen(_) => sliding_moves.get_rook_moves(square, blockers).0
                | sliding_moves.get_bishop_moves(square, blockers).0,
            Piece::Knight(_) => knight_moves_from(from).0,
            Piece::Pawn(_) => self.pawn_destinations(square, color),
            Piece::King(_) => king_moves_from(from).0 | (self.castle_destination(
                square,
                color,
                CastleDirection::Kingside,
                sliding_moves,
            ) | self.castle_destination(square, color, CastleDirection::Queenside, sliding_moves)),
        };
        Mask(move_mask & !self.friendly_pieces_mask(color).0)
    }

    /// The pseudolegal moves from `square`, in increasing order of the
    /// square reached.
    pub fn get_pseudolegal_moves(&self, square: Square, sliding_moves: &SlidingMoves) -> (moves:
        Vec<Move>)
        ensures
            Move::lists(moves@, square, self.pseudolegal_mask(square.index())),
    {
        let move_mask = self.get_pseudolegal_move_mask(square, sliding_moves);
        Move::from_move_mask(square, move_mask)
    }

    /// Whether the mover's king is safe after `mv`: the move is made as
    /// `make_move_unchecked` makes it, and is refused if it leaves its square
    /// where it is, if no piece stands there, or if the king of the side that
    /// moved is attacked afterwards. Whether the piece may move that way is
    /// not asked.
    pub fn is_move_legal(&self, mv: Move, sliding_moves: &SlidingMoves) -> (b: bool)
        ensures
            b == self.keeps_king_safe(mv),
    {
        if mv.from.to_shift() == mv.to.to_shift() {
            proof {
                Square::lemma_injective(mv.from, mv.to);
            }
            return false;
        }
        let potential_state = match self.make_move_unchecked(mv) {
            Ok(state) => state,
            Err(_) => {
                return false;
            },
        };
        let king = potential_state.mask(Piece::King(self.active_color));
        let king_square = match Square::from_mask(king) {
            Some(square) => square,
            None => {
                return false;
            },
        };
        let attacked = potential_state.attacked_by(
            king_square,
            potential_state.active_color,
            sliding_moves,
        );
        proof {
            king_square.lemma_index();
            assert forall|k: int| 0 <= k < 64 && king.0 == #[trigger] single(k) implies k
                == king_square.index() by {
                lemma_single_injective(k, king_square.index());
            }
        }
        !attacked
    }

    /// Makes `mv` if any pseudolegal move leaves its square. Where the piece
    /// goes is not held against its pseudolegal moves.
    pub fn make_move(&self, mv: Move, sliding_moves: &SlidingMoves) -> (result: Result<
        BoardState,
        MoveError,
    >)
        ensures
            match result {
                Ok(next) => self.pseudolegal_mask(mv.from.index()) != 0 && next == self.after(mv),
                Err(e) => e == MoveError::IllegalMove && self.pseudolegal_mask(mv.from.index())
                    == 0,
            },
            self.wf() && self.pseudolegal(mv) ==> result is Ok && result->Ok_0.wf(),
    {
        proof {
            if self.pseudolegal(mv) {
                lemma_zero_bits(mv.to.index());
            }
        }
        let possible_moves = self.get_pseudolegal_move_mask(mv.from, sliding_moves);
        if possible_moves.0 == 0 {
            return Err(MoveError::IllegalMove);
        }
        match self.make_move_unchecked(mv) {
            Ok(next) => Ok(next),
            Err(_) => Err(MoveError::IllegalMove),
        }
    }
}

/// Why a game could not be set up.
#[derive(Debug, Clone, Copy, PartialEq, Eq, Structural)]
pub enum BoardInitError {
    /// The text is no position.
    Fen(FenError),
    /// One of the fixed multipliers is no perfect hash for its square.
    Magics(TableFillError),
}

/// Where a move stands in the order of the list of legal moves: by the
/// square left, then by the square reached.
pub open spec fn move_order(mv: Move) -> int {
    64 * mv.from.index() + mv.to.index()
}

/// `moves` lists exactly the legal moves of `state`, each once, ordered by
/// the square left and then by the square reached.
pub open spec fn lists_legal(moves: Seq<Move>, state: BoardState) -> bool {
    &&& forall|k: int| 0 <= k < moves.len() ==> state.legal(#[trigger] moves[k])
    &&& forall|j: int, k: int|
        0 <= j < k < moves.len() ==> move_order(#[trigger] moves[j]) < move_order(
            #[trigger] moves[k],
        )
    &&& forall|mv: Move| #[trigger] state.legal(mv) ==> moves.contains(mv)
}

/// The history after `mv` is made: one position more, the one that `mv`
/// makes of the last.
pub open spec fn made(history: Seq<BoardState>, mv: Move) -> Seq<BoardState> {
    history.push(history.last().after(mv))
}

/// The history after a move is taken back: the last position is gone.
pub open spec fn unmade(history: Seq<BoardState>) -> Seq<BoardState> {
    history.drop_last()
}

/// A game: the positions from the first one to the current one, and the
/// lookup tables of the sliding pieces. The view is the list of positions,
/// which is never empty.
#[derive(Debug)]
pub struct Board {
    states: Vec<BoardState>,
    sliding_moves: SlidingMoves,
}

impl View for Board {
    type V = Seq<BoardState>;

    closed spec fn view(&self) -> Seq<BoardState> {
        self.states@
    }
}

impl Board {
    #[verifier::type_invariant]
    spec fn has_position(self) -> bool {
        self.states@.len() >= 1
    }

    /// Adds a position to the history. The history is swapped out for a
    /// stand-in while it grows, so that it is never empty.
    fn push_state(&mut self, state: BoardState)
        ensures
            final(self)@ == old(self)@.push(state),
    {
        let mut states: Vec<BoardState> = Vec::new();
        states.push(state);
        core::mem::swap(&mut self.states, &mut states);
        states.push(state);
        core::mem::swap(&mut self.states, &mut states);
    }

    /// Drops the last position of a history that holds more than one.
    fn pop_state(&mut self)
        requires
            old(self)@.len() > 1,
        ensures
            final(self)@ == old(self)@.drop_last(),
    {
        let mut states: Vec<BoardState> = Vec::new();
        states.push(self.states[0]);
        core::mem::swap(&mut self.states, &mut states);
        states.pop();
        core::mem::swap(&mut self.states, &mut states);
    }

    /// Sets up a game at the position that `fen` describes. The lookup
    /// tables are built first.
    pub fn new(fen: &str) -> (result: Result<Board, BoardInitError>)
        ensures
            match result {
                Ok(board) => !fixed_magics_collide() && parse_fen(fen@) is Ok && board@
                    == seq![parse_fen(fen@)->Ok_0] && board@[0].wf(),
                Err(BoardInitError::Magics(_)) => fixed_magics_collide(),
                Err(BoardInitError::Fen(e)) => !fixed_magics_collide() && parse_fen(fen@) == Err::<
                    BoardState,
                    FenError,
                >(e),
            },
    {
        let sliding_moves = match SlidingMoves::init() {
            Ok(sliding_moves) => sliding_moves,
            Err(e) => {
                return Err(BoardInitError::Magics(e));
            },
        };
        let state = match BoardState::from_fen(fen) {
            Ok(state) => state,
            Err(e) => {
                return Err(BoardInitError::Fen(e));
            },
        };
        let mut states: Vec<BoardState> = Vec::new();
        states.push(state);
        assert(states@ =~= seq![state]);
        Ok(Board { states, sliding_moves })
    }

    /// The current position.
    pub fn current_position(&self) -> (state: &BoardState)
        ensures
            self@.len() >= 1,
            *state == self@.last(),
    {
        proof {
            use_type_invariant(self);
        }
        &self.states[self.states.len() - 1]
    }

    /// The positions of the game, the first one first.
    pub fn history(&self) -> (states: &Vec<BoardState>)
        ensures
            states@ == self@,
            states@.len() >= 1,
    {
        proof {
            use_type_invariant(self);
        }
        &self.states
    }

    /// Starts the game anew at the position that `fen` describes. If the
    /// text is no position, the game stays as it is.
    pub fn load_from_fen(&mut self, fen: &str) -> (result: Result<(), FenError>)
        ensures
            match result {
                Ok(_) => parse_fen(fen@) is Ok && final(self)@ == seq![parse_fen(fen@)->Ok_0]
                    && final(self)@[0].wf(),
                Err(e) => parse_fen(fen@) == Err::<BoardState, FenError>(e) && final(self)@ == old(
                    self,
                )@,
            },
    {
        let state = match BoardState::from_fen(fen) {
            Ok(state) => state,
            Err(e) => {
                return Err(e);
            },
        };
        let mut states: Vec<BoardState> = Vec::new();
        states.push(state);
        assert(states@ =~= seq![state]);
        self.states = states;
        Ok(())
    }

    /// The legal moves of the current position: every pseudolegal move
    /// after which the mover's king is not attacked, ordered by the square
    /// left and then by the square reached.
    pub fn legal_moves(&self) -> (moves: Vec<Move>)
        ensures
            self@.len() >= 1,
            lists_legal(moves@, self@.last()),
    {
        let mut legal_moves: Vec<Move> = Vec::new();
        let state = self.current_position();
        let mut i: u8 = 0;
        while i < 64
            invariant
                i <= 64,
                self@.len() >= 1,
                *state == self@.last(),
                forall|k: int| 0 <= k < legal_moves@.len() ==> state.legal(#[trigger] legal_moves@[k]),
                forall|k: int|
                    0 <= k < legal_moves@.len() ==> (#[trigger] legal_moves@[k]).from.index() < i,
                forall|j: int, k: int|
                    0 <= j < k < legal_moves@.len() ==> move_order(#[trigger] legal_moves@[j])
                        < move_order(#[trigger] legal_moves@[k]),
                forall|mv: Move|
                    #[trigger] state.legal(mv) && mv.from.index() < i ==> legal_moves@.contains(mv),
            decreases 64 - i,
        {
            let square = match Square::from_u8(i) {
                Some(square) => square,
                None => Square::A1,
            };
            let pseudolegal_moves = state.get_pseudolegal_moves(square, &self.sliding_moves);
            let ghost mask = state.pseudolegal_mask(square.index());
            let mut n: usize = 0;
            while n < pseudolegal_moves.len()
                invariant
                    n <= pseudolegal_moves@.len(),
                    i < 64,
                    square.index() == i,
                    self@.len() >= 1,
                    *state == self@.last(),
                    mask == state.pseudolegal_mask(square.index()),
                    Move::lists(pseudolegal_moves@, square, mask),
                    forall|k: int|
                        0 <= k < legal_moves@.len() ==> state.legal(#[trigger] legal_moves@[k]),
                    forall|k: int|
                        0 <= k < legal_moves@.len() ==> (#[trigger] legal_moves@[k]).from.index()
                            <= i,
                    forall|k: int|
                        0 <= k < legal_moves@.len() && n < pseudolegal_moves@.len() ==> move_order(
                            #[trigger] legal_moves@[k],
                        ) < move_order(pseudolegal_moves@[n as int]),
                    forall|j: int, k: int|
                        0 <= j < k < legal_moves@.len() ==> move_order(#[trigger] legal_moves@[j])
                            < move_order(#[trigger] legal_moves@[k]),
                    forall|mv: Move|
                        #[trigger] state.legal(mv) && mv.from.index() < i ==> legal_moves@.contains(
                            mv,
                        ),
                    forall|mv: Move, k: int|
                        #[trigger] state.legal(mv) && 0 <= k < n && #[trigger] pseudolegal_moves@[k]
                            == mv ==> legal_moves@.contains(mv),
                decreases pseudolegal_moves@.len() - n,
            {
                let mv = pseudolegal_moves[n];
                let ghost before = legal_moves@;
                proof {
                    square.lemma_index();
                    mv.to.lemma_index();
                    assert(mv.from == square);
                    if n + 1 < pseudolegal_moves@.len() {
                        assert(move_order(pseudolegal_moves@[n as int]) < move_order(
                            pseudolegal_moves@[n + 1],
                        ));
                    }
                }
                if self.is_move_legal(mv) {
                    legal_moves.push(mv);
                    proof {
                        assert(legal_moves@[before.len() as int] == mv);
                        assert forall|m2: Move|
                            #[trigger] state.legal(m2) && m2.from.index() < i implies legal_moves@.contains(
                            m2,
                        ) by {
                            let k = choose|k: int| 0 <= k < before.len() && before[k] == m2;
                            assert(legal_moves@[k] == m2);
                        }
                        assert forall|m2: Move, k: int|
                            #[trigger] state.legal(m2) && 0 <= k < n + 1
                                && #[trigger] pseudolegal_moves@[k] == m2 implies legal_moves@.contains(
                            m2,
                        ) by {
                            if k < n {
                                let j = choose|j: int| 0 <= j < before.len() && before[j] == m2;
                                assert(legal_moves@[j] == m2);
                            }
                        }
                    }
                }
                n += 1;
            }
            proof {
                assert forall|mv: Move|
                    #[trigger] state.legal(mv) && mv.from.index() < i + 1 implies legal_moves@.contains(
                    mv,
                ) by {
                    if mv.from.index() == i {
                        Square::lemma_injective(mv.from, square);
                        let k = choose|k: int|
                            0 <= k < pseudolegal_moves@.len() && (#[trigger] pseudolegal_moves@[k]).to
                                == mv.to;
                        assert(pseudolegal_moves@[k] == mv);
                    }
                }
            }
            i += 1;
        }
        proof {
            assert forall|mv: Move| #[trigger] state.legal(mv) implies legal_moves@.contains(mv) by {
                mv.from.lemma_index();
            }
        }
        legal_moves
    }

    /// Makes `mv` in the current position, whether the rules allow it or
    /// not, and adds the position it leads to. If no piece stands on the
    /// square that the move leaves, the game stays as it is.
    pub fn make_move_unchecked(&mut self, mv: Move) -> (result: Result<(), MoveError>)
        ensures
            old(self)@.len() >= 1,
            match result {
                Ok(_) => old(self)@.last().piece_on(mv.from.index()) is Some && final(self)@
                    == made(old(self)@, mv),
                Err(e) => e == MoveError::MissingPiece && old(self)@.last().piece_on(
                    mv.from.index(),
                ) is None && final(self)@ == old(self)@,
            },
            old(self)@.last().wf() && old(self)@.last().pseudolegal(mv) ==> result is Ok
                && final(self)@.last().wf(),
    {
        let old_state = self.current_position();
        let new_state = match old_state.make_move_unchecked(mv) {
            Ok(state) => state,
            Err(e) => {
                return Err(e);
            },
        };
        self.push_state(new_state);
        Ok(())
    }

    /// Makes `mv` in the current position if any pseudolegal move leaves
    /// its square, and adds the position it leads to. Else the game stays as
    /// it is.
    pub fn make_move(&mut self, mv: Move) -> (result: Result<(), MoveError>)
        ensures
            old(self)@.len() >= 1,
            match result {
                Ok(_) => old(self)@.last().pseudolegal_mask(mv.from.index()) != 0 && final(self)@
                    == made(old(self)@, mv),
                Err(e) => e == MoveError::IllegalMove && old(self)@.last().pseudolegal_mask(
                    mv.from.index(),
                ) == 0 && final(self)@ == old(self)@,
            },
            old(self)@.last().wf() && old(self)@.last().pseudolegal(mv) ==> result is Ok
                && final(self)@.last().wf(),
    {
        let old_state = self.current_position();
        let new_state = match old_state.make_move(mv, &self.sliding_moves) {
            Ok(state) => state,
            Err(e) => {
                return Err(e);
            },
        };
        self.push_state(new_state);
        Ok(())
    }

    /// Takes the last move back. Fails if only the first position is left.
    pub fn unmake_move(&mut self) -> (result: Result<(), MoveError>)
        ensures
            match result {
                Ok(_) => old(self)@.len() > 1 && final(self)@ == unmade(old(self)@),
                Err(e) => e == MoveError::NoPreviousMoves && old(self)@.len() == 1 && final(self)@
                    == old(self)@,
            },
    {
        proof {
            use_type_invariant(&*self);
        }
        if self.states.len() > 1 {
            self.pop_state();
            Ok(())
        } else {
            Err(MoveError::NoPreviousMoves)
        }
    }

    /// Whether the mover's king is safe after `mv` in the current position.
    pub fn is_move_legal(&self, mv: Move) -> (b: bool)
        ensures
            self@.len() >= 1,
            b == self@.last().keeps_king_safe(mv),
    {
        self.current_position().is_move_legal(mv, &self.sliding_moves)
    }
}

} // verus!
