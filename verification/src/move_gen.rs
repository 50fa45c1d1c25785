//! Attack sets: the fixed ones of pawns, knights and kings, and the ray
//! casts of rooks and bishops.
use vstd::prelude::*;
use rand::Rng;
use crate::bits::{single, submask, lemma_or_laws, lemma_and_laws};
use crate::geometry::{
    on_board, square_bit, knight_mask, king_mask, white_pawn_pushes, black_pawn_pushes,
    white_pawn_captures, black_pawn_captures, ray, room, rook_attacks, bishop_attacks, far_edges,
    lemma_rook_relevant, lemma_bishop_relevant, lemma_rook_attacks_nonzero,
    lemma_bishop_attacks_nonzero, TOP_EDGE_MASK, BOTTOM_EDGE_MASK, LEFT_EDGE_MASK,
    RIGHT_EDGE_MASK,
};
use crate::magics::{ROOK_MAGICS, BISHOP_MAGICS, ROOK_INDEX_BITS, BISHOP_INDEX_BITS};
use crate::mask::Mask;
use crate::piece::{BISHOP_MOVE_OFFSETS, KNIGHT_MOVE_OFFSETS, ROOK_MOVE_OFFSETS};
use crate::square::Square;

verus! {

/// The rank index of the square with index `i`.
pub fn rank(i: usize) -> (r: usize)
    ensures
        r == i / 8,
{
    i / 8
}

/// The file index of the square with index `i`.
pub fn file(i: usize) -> (f: usize)
    ensures
        f == i % 8,
{
    i % 8
}

/// The distance between rank index `rank` and the rank of the square with
/// index `tile`.
pub fn rank_difference(rank: usize, tile: usize) -> (d: usize)
    ensures
        d == vstd::math::abs(rank - tile / 8),
{
    let other = tile / 8;
    if rank >= other {
        rank - other
    } else {
        other - rank
    }
}

/// The distance between file index `file` and the file of the square with
/// index `tile`.
pub fn file_difference(file: usize, tile: usize) -> (d: usize)
    ensures
        d == vstd::math::abs(file - tile % 8),
{
    let other = tile % 8;
    if file >= other {
        file - other
    } else {
        other - file
    }
}

/// `offset` is the index offset of one of the eight knight jumps.
pub open spec fn is_knight_offset(offset: int) -> bool {
    offset == 15 || offset == 17 || offset == 6 || offset == 10 || offset == -10 || offset == -6
        || offset == -17 || offset == -15
}

/// `offset` is the index offset of one step in one of the eight directions.
pub open spec fn is_step_offset(offset: int) -> bool {
    offset == 8 || offset == 1 || offset == -8 || offset == -1 || offset == 7 || offset == 9
        || offset == -7 || offset == -9
}

/// The change of rank that an index offset of a jump or a step stands for.
pub open spec fn offset_ranks(offset: int) -> int {
    if offset >= 14 {
        2
    } else if offset >= 6 {
        1
    } else if offset >= -2 {
        0
    } else if offset >= -10 {
        -1
    } else {
        -2
    }
}

/// The change of file that an index offset of a jump or a step stands for.
pub open spec fn offset_files(offset: int) -> int {
    offset - 8 * offset_ranks(offset)
}

/// The set that holds the square a knight reaches from `start` by the jump
/// `offset`, or nothing when the jump leaves the board. A jump that wraps
/// around an edge lands on a square that is no knight's jump away, and is
/// discarded.
fn knight_jump(start: usize, offset: i8) -> (m: u64)
    requires
        start < 64,
        is_knight_offset(offset as int),
    ensures
        m == square_bit(start / 8 + offset_ranks(offset as int), start % 8 + offset_files(offset as int)),
{
    let target: i8 = start as i8 + offset;
    if target < 0 || target > 63 {
        return 0;
    }
    let target: usize = target as usize;
    let rank_diff = rank_difference(rank(start), target);
    let file_diff = file_difference(file(start), target);
    if !(rank_diff == 1 && file_diff == 2 || rank_diff == 2 && file_diff == 1) {
        return 0;
    }
    1u64 << target
}

/// The set that holds the square one step `offset` away from `start`, or
/// nothing when the step leaves the board.
fn king_step(start: usize, offset: i8) -> (m: u64)
    requires
        start < 64,
        is_step_offset(offset as int),
    ensures
        m == square_bit(start / 8 + offset_ranks(offset as int), start % 8 + offset_files(offset as int)),
{
    let target: i8 = start as i8 + offset;
    if target < 0 || target > 63 {
        return 0;
    }
    let target: usize = target as usize;
    if rank_difference(rank(start), target) > 1 || file_difference(file(start), target) > 1 {
        return 0;
    }
    1u64 << target
}

/// The squares a knight's jump away from `start`.
pub(crate) fn knight_moves_from(start: usize) -> (m: Mask)
    requires
        start < 64,
    ensures
        m.0 == knight_mask(start as int),
{
    Mask(
        knight_jump(start, KNIGHT_MOVE_OFFSETS[0]) | knight_jump(start, KNIGHT_MOVE_OFFSETS[1])
            | knight_jump(start, KNIGHT_MOVE_OFFSETS[2]) | knight_jump(
            start,
            KNIGHT_MOVE_OFFSETS[3],
        ) | knight_jump(start, KNIGHT_MOVE_OFFSETS[4]) | knight_jump(start, KNIGHT_MOVE_OFFSETS[5])
            | knight_jump(start, KNIGHT_MOVE_OFFSETS[6]) | knight_jump(
            start,
            KNIGHT_MOVE_OFFSETS[7],
        ),
    )
}

/// The squares one step away from `start`.
pub(crate) fn king_moves_from(start: usize) -> (m: Mask)
    requires
        start < 64,
    ensures
        m.0 == king_mask(start as int),
{
    Mask(
        king_step(start, ROOK_MOVE_OFFSETS[0]) | king_step(start, ROOK_MOVE_OFFSETS[1])
            | king_step(start, ROOK_MOVE_OFFSETS[2]) | king_step(start, ROOK_MOVE_OFFSETS[3])
            | king_step(start, BISHOP_MOVE_OFFSETS[0]) | king_step(start, BISHOP_MOVE_OFFSETS[1])
            | king_step(start, BISHOP_MOVE_OFFSETS[2]) | king_step(start, BISHOP_MOVE_OFFSETS[3]),
    )
}

/// Where a white pawn on `start` may be pushed on an empty board.
pub(crate) fn white_pawn_moves_from(start: usize) -> (m: Mask)
    requires
        start < 64,
    ensures
        m.0 == white_pawn_pushes(start as int),
{
    if start < 8 || start >= 56 {
        Mask(0)
    } else if start < 16 {
        Mask((1u64 << (start + 8)) | (1u64 << (start + 16)))
    } else {
        Mask(1u64 << (start + 8))
    }
}

/// Where a black pawn on `start` may be pushed on an empty board.
pub(crate) fn black_pawn_moves_from(start: usize) -> (m: Mask)
    requires
        start < 64,
    ensures
        m.0 == black_pawn_pushes(start as int),
{
    if start < 8 || start >= 56 {
        Mask(0)
    } else if start >= 48 {
        Mask((1u64 << (start - 8)) | (1u64 << (start - 16)))
    } else {
        Mask(1u64 << (start - 8))
    }
}

/// The squares a white pawn on `start` attacks.
pub(crate) fn white_pawn_captures_from(start: usize) -> (m: Mask)
    requires
        start < 64,
    ensures
        m.0 == white_pawn_captures(start as int),
{
    if start < 8 || start >= 56 {
        return Mask(0);
    }
    let rank = rank(start);
    let file = file(start);
    let right: u64 = if rank_difference(rank, start + 9) == 1 && file_difference(file, start + 9)
        == 1 {
        1u64 << (start + 9)
    } else {
        0
    };
    let left: u64 = if rank_difference(rank, start + 7) == 1 && file_difference(file, start + 7)
        == 1 {
        1u64 << (start + 7)
    } else {
        0
    };
    Mask(right | left)
}

/// The squares a black pawn on `start` attacks.
pub(crate) fn black_pawn_captures_from(start: usize) -> (m: Mask)
    requires
        start < 64,
    ensures
        m.0 == black_pawn_captures(start as int),
{
    if start < 8 || start >= 56 {
        return Mask(0);
    }
    let rank = rank(start);
    let file = file(start);
    let left: u64 = if start >= 9 && rank_difference(rank, start - 9) == 1 && file_difference(
        file,
        start - 9,
    ) == 1 {
        1u64 << (start - 9)
    } else {
        0
    };
    let right: u64 = if start >= 7 && rank_difference(rank, start - 7) == 1 && file_difference(
        file,
        start - 7,
    ) == 1 {
        1u64 << (start - 7)
    } else {
        0
    };
    Mask(left | right)
}

/// Walks from `start` in steps of `offset` and collects every square up to
/// and including the first one in `blockers`. A step that changes the rank
/// or the file by more than one has wrapped around an edge and ends the walk.
fn cast_ray(start: usize, offset: i8, blockers: u64) -> (m: u64)
    requires
        start < 64,
        is_step_offset(offset as int),
    ensures
        m == ray(
            start as int / 8,
            start as int % 8,
            offset_ranks(offset as int),
            offset_files(offset as int),
            blockers,
        ),
{
    let ghost dr = offset_ranks(offset as int);
    let ghost df = offset_files(offset as int);
    let ghost total = ray(start as int / 8, start as int % 8, dr, df, blockers);
    let mut movemask: u64 = 0;
    let mut target: i8 = start as i8 + offset;
    let mut prev_rank = rank(start);
    let mut prev_file = file(start);
    proof {
        lemma_or_laws(total, 0, 0);
        lemma_or_laws(0, 0, 0);
    }
    while target >= 0 && target < 64
        invariant_except_break
            on_board(prev_rank as int, prev_file as int),
            target == 8 * prev_rank + prev_file + offset,
            total == movemask | ray(prev_rank as int, prev_file as int, dr, df, blockers),
            movemask | 0 == movemask,
        invariant
            is_step_offset(offset as int),
            dr == offset_ranks(offset as int),
            df == offset_files(offset as int),
        ensures
            movemask == total,
        decreases room(prev_rank as int, prev_file as int, dr, df),
    {
        let ghost here = ray(prev_rank as int, prev_file as int, dr, df, blockers);
        if rank_difference(prev_rank, target as usize) > 1 || file_difference(
            prev_file,
            target as usize,
        ) > 1 {
            assert(!on_board(prev_rank + dr, prev_file + df));
            break ;
        }
        assert(on_board(prev_rank + dr, prev_file + df));
        assert(target == 8 * (prev_rank + dr) + (prev_file + df));
        let ghost before = movemask;
        prev_rank = rank(target as usize);
        prev_file = file(target as usize);
        let bit: u64 = 1u64 << target;
        assert(bit == single(target as int));
        movemask = movemask | bit;
        if blockers & bit != 0 {
            break ;
        }
        proof {
            lemma_or_laws(before, bit, ray(prev_rank as int, prev_file as int, dr, df, blockers));
            lemma_or_laws(movemask, 0, 0);
        }
        target = target + offset;
    }
    movemask
}

/// The push table of the white pawn: for each square, by index, where a
/// white pawn standing there may be pushed on an empty board.
pub fn generate_white_pawn_move_masks() -> (masks: [Mask; 64])
    ensures
        forall|i: int| 0 <= i < 64 ==> (#[trigger] masks[i]).0 == white_pawn_pushes(i),
{
    let mut masks = [Mask(0);64];
    let mut i: usize = 0;
    while i < 64
        invariant
            i <= 64,
            forall|j: int| 0 <= j < i ==> (#[trigger] masks[j]).0 == white_pawn_pushes(j),
        decreases 64 - i,
    {
        masks[i] = white_pawn_moves_from(i);
        i += 1;
    }
    masks
}

/// The push table of the black pawn: for each square, by index, where a
/// black pawn standing there may be pushed on an empty board.
pub fn generate_black_pawn_move_masks() -> (masks: [Mask; 64])
    ensures
        forall|i: int| 0 <= i < 64 ==> (#[trigger] masks[i]).0 == black_pawn_pushes(i),
{
    let mut masks = [Mask(0);64];
    let mut i: usize = 0;
    while i < 64
        invariant
            i <= 64,
            forall|j: int| 0 <= j < i ==> (#[trigger] masks[j]).0 == black_pawn_pushes(j),
        decreases 64 - i,
    {
        masks[i] = black_pawn_moves_from(i);
        i += 1;
    }
    masks
}

/// The capture table of the white pawn: for each square, by index, the
/// squares that a white pawn standing there attacks.
pub fn generate_white_pawn_capture_masks() -> (masks: [Mask; 64])
    ensures
        forall|i: int| 0 <= i < 64 ==> (#[trigger] masks[i]).0 == white_pawn_captures(i),
{
    let mut masks = [Mask(0);64];
    let mut i: usize = 0;
    while i < 64
        invariant
            i <= 64,
            forall|j: int| 0 <= j < i ==> (#[trigger] masks[j]).0 == white_pawn_captures(j),
        decreases 64 - i,
    {
        masks[i] = white_pawn_captures_from(i);
        i += 1;
    }
    masks
}

/// The capture table of the black pawn: for each square, by index, the
/// squares that a black pawn standing there attacks.
pub fn generate_black_pawn_capture_masks() -> (masks: [Mask; 64])
    ensures
        forall|i: int| 0 <= i < 64 ==> (#[trigger] masks[i]).0 == black_pawn_captures(i),
{
    let mut masks = [Mask(0);64];
    let mut i: usize = 0;
    while i < 64
        invariant
            i <= 64,
            forall|j: int| 0 <= j < i ==> (#[trigger] masks[j]).0 == black_pawn_captures(j),
        decreases 64 - i,
    {
        masks[i] = black_pawn_captures_from(i);
        i += 1;
    }
    masks
}

/// The rook's table for an empty board: for each square, by index, the
/// squares on its rank and file.
pub fn generate_rook_move_masks() -> (masks: [Mask; 64])
    ensures
        forall|i: int| 0 <= i < 64 ==> (#[trigger] masks[i]).0 == rook_attacks(i, 0),
{
    let mut masks = [Mask(0);64];
    let mut start: usize = 0;
    while start < 64
        invariant
            start <= 64,
            forall|j: int| 0 <= j < start ==> (#[trigger] masks[j]).0 == rook_attacks(j, 0),
        decreases 64 - start,
    {
        masks[start] = Mask(Direction::Orthogonal.cast(start, 0));
        start += 1;
    }
    masks
}

/// The bishop's table for an empty board: for each square, by index, the
/// squares on its diagonals.
pub fn generate_bishop_move_masks() -> (masks: [Mask; 64])
    ensures
        forall|i: int| 0 <= i < 64 ==> (#[trigger] masks[i]).0 == bishop_attacks(i, 0),
{
    let mut masks = [Mask(0);64];
    let mut start: usize = 0;
    while start < 64
        invariant
            start <= 64,
            forall|j: int| 0 <= j < start ==> (#[trigger] masks[j]).0 == bishop_attacks(j, 0),
        decreases 64 - start,
    {
        masks[start] = Mask(Direction::Diagonal.cast(start, 0));
        start += 1;
    }
    masks
}

/// The knight's table: for each square, by index, the squares a knight's
/// jump away.
pub fn generate_knight_move_masks() -> (masks: [Mask; 64])
    ensures
        forall|i: int| 0 <= i < 64 ==> (#[trigger] masks[i]).0 == knight_mask(i),
{
    let mut masks = [Mask(0);64];
    let mut start: usize = 0;
    while start < 64
        invariant
            start <= 64,
            forall|j: int| 0 <= j < start ==> (#[trigger] masks[j]).0 == knight_mask(j),
        decreases 64 - start,
    {
        masks[start] = knight_moves_from(start);
        start += 1;
    }
    masks
}

/// The king's table: for each square, by index, the squares one step away.
pub fn generate_king_move_masks() -> (masks: [Mask; 64])
    ensures
        forall|i: int| 0 <= i < 64 ==> (#[trigger] masks[i]).0 == king_mask(i),
{
    let mut masks = [Mask(0);64];
    let mut start: usize = 0;
    while start < 64
        invariant
            start <= 64,
            forall|j: int| 0 <= j < start ==> (#[trigger] masks[j]).0 == king_mask(j),
        decreases 64 - start,
    {
        masks[start] = king_moves_from(start);
        start += 1;
    }
    masks
}

/// The two classes of sliding movement.
#[derive(Debug, Clone, Copy, PartialEq, Eq, Structural)]
pub enum Direction {
    /// Along ranks and files, as a rook moves.
    Orthogonal,
    /// Along diagonals, as a bishop moves.
    Diagonal,
}

impl Direction {
    /// The squares attacked from square `sq` in this class of movement when
    /// `blockers` are the occupied squares.
    pub open spec fn attacks(self, sq: int, blockers: u64) -> u64 {
        match self {
            Direction::Orthogonal => rook_attacks(sq, blockers),
            Direction::Diagonal => bishop_attacks(sq, blockers),
        }
    }

    /// The relevant blockers of square `sq`: the squares of its rays on an
    /// empty board, without the edges of the board that `sq` does not lie on.
    pub open spec fn relevant(self, sq: int) -> u64 {
        self.attacks(sq, 0) & !far_edges(sq)
    }

    /// Blockers outside the relevant ones never change an attack set.
    pub proof fn lemma_relevant(self, sq: int, blockers: u64)
        requires
            0 <= sq < 64,
        ensures
            self.attacks(sq, blockers & self.relevant(sq)) == self.attacks(sq, blockers),
    {
        match self {
            Direction::Orthogonal => lemma_rook_relevant(sq, blockers),
            Direction::Diagonal => lemma_bishop_relevant(sq, blockers),
        }
    }

    /// From every square something is attacked.
    pub proof fn lemma_attacks_nonzero(self, sq: int, blockers: u64)
        requires
            0 <= sq < 64,
        ensures
            self.attacks(sq, blockers) != 0,
    {
        match self {
            Direction::Orthogonal => lemma_rook_attacks_nonzero(sq, blockers),
            Direction::Diagonal => lemma_bishop_attacks_nonzero(sq, blockers),
        }
    }

    /// Casts the four rays of this class from `start`.
    fn cast(&self, start: usize, blockers: u64) -> (m: u64)
        requires
            start < 64,
        ensures
            m == self.attacks(start as int, blockers),
    {
        match self {
            Direction::Orthogonal => cast_ray(start, ROOK_MOVE_OFFSETS[0], blockers) | cast_ray(
                start,
                ROOK_MOVE_OFFSETS[1],
                blockers,
            ) | cast_ray(start, ROOK_MOVE_OFFSETS[2], blockers) | cast_ray(
                start,
                ROOK_MOVE_OFFSETS[3],
                blockers,
            ),
            Direction::Diagonal => cast_ray(start, BISHOP_MOVE_OFFSETS[0], blockers) | cast_ray(
                start,
                BISHOP_MOVE_OFFSETS[1],
                blockers,
            ) | cast_ray(start, BISHOP_MOVE_OFFSETS[2], blockers) | cast_ray(
                start,
                BISHOP_MOVE_OFFSETS[3],
                blockers,
            ),
        }
    }

    /// The edges of the board that the square with index `start` does not
    /// lie on.
    fn excluded_edges(start: usize) -> (m: u64)
        requires
            start < 64,
        ensures
            m == far_edges(start as int),
    {
        let rank = rank(start);
        let file = file(start);
        let bottom: u64 = if rank != 0 {
            BOTTOM_EDGE_MASK
        } else {
            0
        };
        let top: u64 = if rank != 7 {
            TOP_EDGE_MASK
        } else {
            0
        };
        let left: u64 = if file != 0 {
            LEFT_EDGE_MASK
        } else {
            0
        };
        let right: u64 = if file != 7 {
            RIGHT_EDGE_MASK
        } else {
            0
        };
        bottom | top | left | right
    }

    /// The relevant blockers of one square.
    pub fn blockers_for(&self, square: Square) -> (m: Mask)
        ensures
            m.0 == self.relevant(square.index()),
    {
        let start = square.to_shift();
        Mask(self.cast(start, 0) & !Direction::excluded_edges(start))
    }

    /// The relevant blockers of every square, by square index: the squares
    /// whose occupancy can change what is attacked from there. An edge of the
    /// board is left out unless the square itself lies on it.
    pub fn all_blockers(&self) -> (blockers: Vec<Mask>)
        ensures
            blockers@.len() == 64,
            forall|i: int| 0 <= i < 64 ==> (#[trigger] blockers@[i]).0 == self.relevant(i),
    {
        let mut blockers: Vec<Mask> = Vec::with_capacity(64);
        let mut i: usize = 0;
        while i < 64
            invariant
                i <= 64,
                blockers@.len() == i,
                forall|j: int| 0 <= j < i ==> (#[trigger] blockers@[j]).0 == self.relevant(j),
            decreases 64 - i,
        {
            blockers.push(Mask(self.cast(i, 0) & !Direction::excluded_edges(i)));
            i += 1;
        }
        blockers
    }

    /// For every square, by square index, every set of relevant blockers:
    /// all the submasks of the square's relevant blockers, from the full set
    /// down to the empty one.
    pub fn all_blocker_subsets(&self) -> (subsets: Vec<Vec<Mask>>)
        ensures
            subsets@.len() == 64,
            forall|i: int|
                0 <= i < 64 ==> Mask::lists_submasks((#[trigger] subsets@[i])@, self.relevant(i)),
    {
        let blockers = self.all_blockers();
        let mut subsets: Vec<Vec<Mask>> = Vec::with_capacity(64);
        let mut i: usize = 0;
        while i < 64
            invariant
                i <= 64,
                blockers@.len() == 64,
                forall|j: int| 0 <= j < 64 ==> (#[trigger] blockers@[j]).0 == self.relevant(j),
                subsets@.len() == i,
                forall|j: int|
                    0 <= j < i ==> Mask::lists_submasks(
                        (#[trigger] subsets@[j])@,
                        self.relevant(j),
                    ),
            decreases 64 - i,
        {
            subsets.push(blockers[i].subsets());
            i += 1;
        }
        subsets
    }

    /// The squares attacked from `square` in this class of movement when
    /// `blockers` are the occupied squares, found by walking each ray: every
    /// square up to and including the first blocker. Only the relevant
    /// blockers are looked at; the others never change the result.
    ///
    /// This is the slow way, meant for filling and checking lookup tables.
    pub fn moves_for(&self, square: Square, blockers: Mask) -> (m: Mask)
        ensures
            m.0 == self.attacks(square.index(), blockers.0),
            m.0 != 0,
    {
        let relevant = self.blockers_for(square);
        proof {
            square.lemma_index();
            self.lemma_relevant(square.index(), blockers.0);
            self.lemma_attacks_nonzero(square.index(), blockers.0);
            lemma_and_laws(relevant.0, blockers.0, 0);
        }
        Mask(self.cast(square.to_shift(), relevant.0 & blockers.0))
    }
}

/// The widest table index that the library accepts: a table has
/// `2^index_bits` slots, and its length has to fit a machine word.
pub const MAX_INDEX_BITS: u8 = 31;

/// How many multipliers the random search tries before it gives up.
pub const MAX_MAGIC_ATTEMPTS: u64 = 0xffff_ffff_ffff_ffff;

/// The perfect hash of one square and one class of movement: a set of
/// blockers is masked, multiplied and shifted down to a table index.
#[derive(Debug, Clone, Copy, PartialEq, Eq, Structural)]
pub struct MagicEntry {
    /// The blockers that the hash looks at.
    pub mask: Mask,
    /// The multiplier.
    pub magic: u64,
    /// How many bits an index has.
    pub index_bits: u8,
}

/// A multiplier sent two sets of blockers with different attack sets to the
/// same table slot.
#[derive(Debug, Clone, Copy, PartialEq, Eq, Structural)]
pub struct TableFillError;

proof fn lemma_index_bound(x: u64, bits: u64)
    by (bit_vector)
    requires
        1 <= bits <= 31,
    ensures
        x >> ((64 - bits) as u64) < 1u64 << bits,
        1u64 << bits <= 0x8000_0000,
{
}

impl MagicEntry {
    /// The index width is one that the library accepts.
    pub open spec fn wf(self) -> bool {
        1 <= self.index_bits <= MAX_INDEX_BITS
    }

    /// How many slots the entry's table has: two to the power `index_bits`.
    pub open spec fn slots(self) -> nat {
        (1u64 << (self.index_bits as u64)) as nat
    }

    /// The table index of a set of blockers: the blockers within `mask`,
    /// multiplied by `magic` modulo `2^64`, and of that the top `index_bits`
    /// bits.
    pub open spec fn slot(self, blockers: u64) -> int {
        (vstd::wrapping::u64_specs::wrapping_mul(blockers & self.mask.0, self.magic) >> ((64
            - self.index_bits) as u64)) as int
    }

    /// Every index lies within the table.
    pub proof fn lemma_slot_bound(self, blockers: u64)
        requires
            self.wf(),
        ensures
            0 <= self.slot(blockers) < self.slots(),
            self.slots() <= 0x8000_0000,
            self.slot(blockers & self.mask.0) == self.slot(blockers),
    {
        lemma_index_bound(
            vstd::wrapping::u64_specs::wrapping_mul(blockers & self.mask.0, self.magic),
            self.index_bits as u64,
        );
        lemma_and_laws(blockers, self.mask.0, 0);
    }

    /// The table index of a set of blockers.
    pub fn index(&self, blockers: Mask) -> (i: usize)
        requires
            self.wf(),
        ensures
            i == self.slot(blockers.0),
            i < self.slots(),
    {
        proof {
            self.lemma_slot_bound(blockers.0);
        }
        let blockers = blockers.0 & self.mask.0;
        let mul = blockers.wrapping_mul(self.magic);
        (mul >> (64 - self.index_bits)) as usize
    }
}

/// Two sets of blockers within the entry's mask share a table slot although
/// the attack sets from square `sq` differ for them.
pub open spec fn collides(direction: Direction, entry: MagicEntry, sq: int) -> bool {
    exists|a: u64, b: u64|
        submask(a, entry.mask.0) && submask(b, entry.mask.0) && #[trigger] entry.slot(a)
            == #[trigger] entry.slot(b) && direction.attacks(sq, a) != direction.attacks(sq, b)
}

/// `table` is the lookup table of `entry` for square `sq`: it has a slot for
/// every index, the slot of each set of blockers within the entry's mask
/// holds the attack set for those blockers, and every other slot is empty.
pub open spec fn table_sound(
    direction: Direction,
    entry: MagicEntry,
    sq: int,
    table: Seq<Mask>,
) -> bool {
    &&& table.len() == entry.slots()
    &&& forall|b: u64|
        submask(b, entry.mask.0) ==> table[#[trigger] entry.slot(b)].0 == direction.attacks(sq, b)
    &&& forall|i: int|
        0 <= i < table.len() && (#[trigger] table[i]).0 != 0 ==> exists|b: u64|
            submask(b, entry.mask.0) && #[trigger] entry.slot(b) == i
}

/// A sound table answers for every set of blockers, within the mask or not.
pub proof fn lemma_table_lookup(
    direction: Direction,
    entry: MagicEntry,
    sq: int,
    table: Seq<Mask>,
    blockers: u64,
)
    requires
        entry.wf(),
        table_sound(direction, entry, sq, table),
    ensures
        0 <= entry.slot(blockers) < table.len(),
        table[entry.slot(blockers)].0 == direction.attacks(sq, blockers & entry.mask.0),
{
    entry.lemma_slot_bound(blockers);
    lemma_and_laws(blockers, entry.mask.0, 0);
    assert(submask(blockers & entry.mask.0, entry.mask.0));
}

/// Fills the lookup table of `entry` for `square`: for every set of blockers
/// within the entry's mask, the attack set found by ray casting is written to
/// the slot that the entry assigns to the blockers.
///
/// Two sets of blockers may share a slot if their attack sets are the same.
/// If they differ, the multiplier is of no use and the fill fails. So the
/// fill succeeds exactly when the entry is a perfect hash for the square,
/// and the table then holds, at the index of each set of blockers, exactly
/// the ray-cast attack set.
pub fn try_fill_magic_table(direction: Direction, entry: &MagicEntry, square: Square) -> (result:
    Result<Vec<Mask>, TableFillError>)
    requires
        entry.wf(),
    ensures
        result is Err <==> collides(direction, *entry, square.index()),
        result is Ok ==> table_sound(direction, *entry, square.index(), result->Ok_0@),
{
    proof {
        entry.lemma_slot_bound(0);
    }
    let len: u64 = 1u64 << entry.index_bits;
    let mut table: Vec<Mask> = Vec::with_capacity(len as usize);
    let mut n: usize = 0;
    while n < len as usize
        invariant
            n <= len,
            len <= 0x8000_0000,
            table@.len() == n,
            forall|i: int| 0 <= i < n ==> (#[trigger] table@[i]).0 == 0,
        decreases len - n,
    {
        table.push(Mask(0));
        n += 1;
    }
    let subsets = entry.mask.subsets();
    let ghost sq = square.index();
    let mut k: usize = 0;
    while k < subsets.len()
        invariant
            entry.wf(),
            sq == square.index(),
            k <= subsets@.len(),
            Mask::lists_submasks(subsets@, entry.mask.0),
            table@.len() == entry.slots(),
            forall|j: int|
                0 <= j < k ==> table@[entry.slot((#[trigger] subsets@[j]).0)].0 == direction.attacks(
                    sq,
                    subsets@[j].0,
                ),
            forall|i: int|
                0 <= i < table@.len() && (#[trigger] table@[i]).0 != 0 ==> exists|j: int|
                    0 <= j < k && entry.slot((#[trigger] subsets@[j]).0) == i,
        decreases subsets@.len() - k,
    {
        let blockers = subsets[k];
        let moves = direction.moves_for(square, blockers);
        let i = entry.index(blockers);
        let stored = table[i];
        proof {
            assert forall|j: int| 0 <= j < subsets@.len() implies 0 <= entry.slot(
                (#[trigger] subsets@[j]).0,
            ) < entry.slots() by {
                entry.lemma_slot_bound(subsets@[j].0);
            }
        }
        if stored.0 == 0 {
            table.set(i, moves);
        } else if stored.0 != moves.0 {
            proof {
                let j = choose|j: int| 0 <= j < k && entry.slot((#[trigger] subsets@[j]).0) == i;
                assert(submask(subsets@[j].0, entry.mask.0));
                assert(submask(subsets@[k as int].0, entry.mask.0));
                assert(entry.slot(subsets@[j].0) == entry.slot(subsets@[k as int].0));
            }
            return Err(TableFillError);
        }
        proof {
            assert forall|j: int| 0 <= j < k + 1 implies table@[entry.slot(
                (#[trigger] subsets@[j]).0,
            )].0 == direction.attacks(sq, subsets@[j].0) by {
                if j < k && entry.slot(subsets@[j].0) == i {
                    direction.lemma_attacks_nonzero(sq, subsets@[j].0);
                }
            }
            assert forall|i2: int|
                0 <= i2 < table@.len() && (#[trigger] table@[i2]).0 != 0 implies exists|j: int|
                0 <= j < k + 1 && entry.slot((#[trigger] subsets@[j]).0) == i2 by {
                if i2 == i {
                    assert(entry.slot(subsets@[k as int].0) == i2);
                } else {
                    let j = choose|j: int|
                        0 <= j < k && entry.slot((#[trigger] subsets@[j]).0) == i2;
                    assert(entry.slot(subsets@[j].0) == i2);
                }
            }
        }
        k += 1;
    }
    proof {
        assert forall|b: u64| submask(b, entry.mask.0) implies table@[#[trigger] entry.slot(b)].0
            == direction.attacks(sq, b) by {
            let j = choose|j: int| 0 <= j < subsets@.len() && subsets@[j] == Mask(b);
            assert(subsets@[j].0 == b);
        }
        assert forall|i: int|
            0 <= i < table@.len() && (#[trigger] table@[i]).0 != 0 implies exists|b: u64|
            submask(b, entry.mask.0) && #[trigger] entry.slot(b) == i by {
            let j = choose|j: int| 0 <= j < k && entry.slot((#[trigger] subsets@[j]).0) == i;
            assert(submask(subsets@[j].0, entry.mask.0));
        }
        assert(table_sound(direction, *entry, sq, table@));
        if collides(direction, *entry, sq) {
            let (a, b) = choose|a: u64, b: u64|
                submask(a, entry.mask.0) && submask(b, entry.mask.0) && #[trigger] entry.slot(a)
                    == #[trigger] entry.slot(b) && direction.attacks(sq, a) != direction.attacks(
                    sq,
                    b,
                );
            assert(table@[entry.slot(a)].0 == direction.attacks(sq, a));
            assert(table@[entry.slot(b)].0 == direction.attacks(sq, b));
        }
    }
    Ok(table)
}

/// `tables` holds, for each square by index, the sound lookup table of that
/// square's entry in `magics`, and each entry's mask is the square's
/// relevant blockers.
pub open spec fn lookup_sound(
    direction: Direction,
    magics: Seq<MagicEntry>,
    tables: Seq<Vec<Mask>>,
) -> bool {
    &&& magics.len() == 64
    &&& tables.len() == 64
    &&& forall|i: int|
        0 <= i < 64 ==> (#[trigger] magics[i]).wf() && magics[i].mask.0 == direction.relevant(i)
            && table_sound(direction, magics[i], i, tables[i]@)
}

/// The fixed entry of square `sq`: its relevant blockers, its fixed
/// multiplier and the index width of its class.
pub open spec fn fixed_entry(direction: Direction, sq: int) -> MagicEntry {
    match direction {
        Direction::Orthogonal => MagicEntry {
            mask: Mask(direction.relevant(sq)),
            magic: ROOK_MAGICS[sq],
            index_bits: ROOK_INDEX_BITS,
        },
        Direction::Diagonal => MagicEntry {
            mask: Mask(direction.relevant(sq)),
            magic: BISHOP_MAGICS[sq],
            index_bits: BISHOP_INDEX_BITS,
        },
    }
}

/// One of the fixed multipliers is no perfect hash for its square.
pub open spec fn fixed_magics_collide() -> bool {
    exists|d: Direction, i: int| 0 <= i < 64 && collides(d, #[trigger] fixed_entry(d, i), i)
}

/// The fixed entries of one class of movement, by square index.
pub fn fixed_magics(direction: Direction) -> (magics: [MagicEntry; 64])
    ensures
        forall|i: int| 0 <= i < 64 ==> #[trigger] magics[i] == fixed_entry(direction, i),
{
    let blockers = direction.all_blockers();
    let mut magics = [MagicEntry { mask: Mask(0), magic: 0, index_bits: 1 };64];
    let mut i: usize = 0;
    while i < 64
        invariant
            i <= 64,
            blockers@.len() == 64,
            forall|j: int| 0 <= j < 64 ==> (#[trigger] blockers@[j]).0 == direction.relevant(j),
            forall|j: int| 0 <= j < i ==> #[trigger] magics[j] == fixed_entry(direction, j),
        decreases 64 - i,
    {
        let entry = match direction {
            Direction::Orthogonal => MagicEntry {
                mask: blockers[i],
                magic: ROOK_MAGICS[i],
                index_bits: ROOK_INDEX_BITS,
            },
            Direction::Diagonal => MagicEntry {
                mask: blockers[i],
                magic: BISHOP_MAGICS[i],
                index_bits: BISHOP_INDEX_BITS,
            },
        };
        magics[i] = entry;
        i += 1;
    }
    magics
}

/// Fills the lookup table of every square from its entry in `magics`. Fails
/// if any of the entries is no perfect hash for its square.
pub fn create_move_list(direction: Direction, magics: &[MagicEntry; 64]) -> (result: Result<
    Vec<Vec<Mask>>,
    TableFillError,
>)
    requires
        forall|i: int| 0 <= i < 64 ==> (#[trigger] magics[i]).wf(),
    ensures
        result is Err <==> exists|i: int| 0 <= i < 64 && collides(direction, #[trigger] magics[i], i),
        result is Ok ==> result->Ok_0@.len() == 64 && forall|i: int|
            0 <= i < 64 ==> table_sound(direction, magics[i], i, (#[trigger] result->Ok_0@[i])@),
{
    let mut moves: Vec<Vec<Mask>> = Vec::with_capacity(64);
    let mut i: u8 = 0;
    while i < 64
        invariant
            i <= 64,
            forall|j: int| 0 <= j < 64 ==> (#[trigger] magics[j]).wf(),
            moves@.len() == i,
            forall|j: int|
                0 <= j < i ==> table_sound(direction, magics[j], j, (#[trigger] moves@[j])@),
            forall|j: int| 0 <= j < i ==> !collides(direction, #[trigger] magics[j], j),
        decreases 64 - i,
    {
        let square = match Square::from_u8(i) {
            Some(square) => square,
            None => Square::A1,
        };
        match try_fill_magic_table(direction, &magics[i as usize], square) {
            Ok(table) => {
                moves.push(table);
            },
            Err(e) => {
                return Err(e);
            },
        }
        i += 1;
    }
    Ok(moves)
}

/// The lookup tables of the sliding pieces: for each square and each class
/// of movement an entry and its table. Once built it is never changed.
#[derive(Debug)]
pub struct SlidingMoves {
    rook_magics: [MagicEntry; 64],
    bishop_magics: [MagicEntry; 64],
    rook_magic_table: Vec<Vec<Mask>>,
    bishop_magic_table: Vec<Vec<Mask>>,
}

impl SlidingMoves {
    #[verifier::type_invariant]
    spec fn sound(self) -> bool {
        &&& lookup_sound(Direction::Orthogonal, self.rook_magics@, self.rook_magic_table@)
        &&& lookup_sound(Direction::Diagonal, self.bishop_magics@, self.bishop_magic_table@)
    }

    /// Builds the tables from the fixed multipliers. Fails if one of them is
    /// no perfect hash for its square.
    pub fn init() -> (result: Result<SlidingMoves, TableFillError>)
        ensures
            result is Err <==> fixed_magics_collide(),
    {
        let rook_magics = fixed_magics(Direction::Orthogonal);
        let bishop_magics = fixed_magics(Direction::Diagonal);
        let ghost rooks = rook_magics@;
        let ghost bishops = bishop_magics@;
        let rook_magic_table = match create_move_list(Direction::Orthogonal, &rook_magics) {
            Ok(tables) => tables,
            Err(e) => {
                proof {
                    let i = choose|i: int|
                        0 <= i < 64 && collides(Direction::Orthogonal, #[trigger] rooks[i], i);
                    assert(collides(
                        Direction::Orthogonal,
                        fixed_entry(Direction::Orthogonal, i),
                        i,
                    ));
                }
                return Err(e);
            },
        };
        let bishop_magic_table = match create_move_list(Direction::Diagonal, &bishop_magics) {
            Ok(tables) => tables,
            Err(e) => {
                proof {
                    let i = choose|i: int|
                        0 <= i < 64 && collides(Direction::Diagonal, #[trigger] bishops[i], i);
                    assert(collides(Direction::Diagonal, fixed_entry(Direction::Diagonal, i), i));
                }
                return Err(e);
            },
        };
        proof {
            assert forall|d: Direction, i: int| 0 <= i < 64 implies !collides(
                d,
                #[trigger] fixed_entry(d, i),
                i,
            ) by {
                match d {
                    Direction::Orthogonal => {
                        assert(rooks[i] == fixed_entry(d, i));
                    },
                    Direction::Diagonal => {
                        assert(bishops[i] == fixed_entry(d, i));
                    },
                }
            }
        }
        Ok(SlidingMoves { rook_magics, bishop_magics, rook_magic_table, bishop_magic_table })
    }

    /// The squares a rook on `square` attacks when `blockers` are the
    /// occupied squares: one table lookup.
    pub fn get_rook_moves(&self, square: Square, blockers: Mask) -> (m: Mask)
        ensures
            m.0 == rook_attacks(square.index(), blockers.0),
    {
        proof {
            use_type_invariant(self);
            square.lemma_index();
            let i = square.index();
            lemma_table_lookup(
                Direction::Orthogonal,
                self.rook_magics@[i],
                i,
                self.rook_magic_table@[i]@,
                blockers.0,
            );
            Direction::Orthogonal.lemma_relevant(i, blockers.0);
        }
        let magic = &self.rook_magics[square.to_shift()];
        let moves = &self.rook_magic_table[square.to_shift()];
        moves[magic.index(blockers)]
    }

    /// The squares a bishop on `square` attacks when `blockers` are the
    /// occupied squares: one table lookup.
    pub fn get_bishop_moves(&self, square: Square, blockers: Mask) -> (m: Mask)
        ensures
            m.0 == bishop_attacks(square.index(), blockers.0),
    {
        proof {
            use_type_invariant(self);
            square.lemma_index();
            let i = square.index();
            lemma_table_lookup(
                Direction::Diagonal,
                self.bishop_magics@[i],
                i,
                self.bishop_magic_table@[i]@,
                blockers.0,
            );
            Direction::Diagonal.lemma_relevant(i, blockers.0);
        }
        let magic = &self.bishop_magics[square.to_shift()];
        let moves = &self.bishop_magic_table[square.to_shift()];
        moves[magic.index(blockers)]
    }
}

/// Draws a 64-bit number from `rand::thread_rng()` with `Rng::gen`.
/// Nothing is claimed of the number: every value may come back.
#[verifier::external_body]
fn random_u64() -> (r: u64) {
    rand::thread_rng().gen()
}

/// The entry of `square` with the multiplier `magic`: its mask is the
/// square's relevant blockers.
pub open spec fn entry_with(direction: Direction, sq: int, index_bits: u8, magic: u64) -> MagicEntry {
    MagicEntry { mask: Mask(direction.relevant(sq)), magic, index_bits }
}

/// The multiplier that three random numbers make: their intersection, which
/// has few bits set.
pub fn sparse_candidate(a: u64, b: u64, c: u64) -> (magic: u64)
    ensures
        magic == a & b & c,
{
    a & b & c
}

/// Tries one multiplier for `square`: the entry with that multiplier and
/// its lookup table if the entry is a perfect hash for the square, and
/// `None` if it is not.
pub fn try_magic(direction: Direction, square: Square, index_bits: u8, magic: u64) -> (result:
    Option<(MagicEntry, Vec<Mask>)>)
    requires
        1 <= index_bits <= MAX_INDEX_BITS,
    ensures
        result is None <==> collides(
            direction,
            entry_with(direction, square.index(), index_bits, magic),
            square.index(),
        ),
        result is Some ==> {
            let (entry, table) = result->0;
            &&& entry == entry_with(direction, square.index(), index_bits, magic)
            &&& table_sound(direction, entry, square.index(), table@)
        },
{
    let mask = direction.blockers_for(square);
    let new_entry = MagicEntry { mask, magic, index_bits };
    match try_fill_magic_table(direction, &new_entry, square) {
        Ok(table) => Some((new_entry, table)),
        Err(_) => None,
    }
}

/// Searches a multiplier for `square` at random: each candidate is the
/// intersection of three random numbers and is kept if `try_magic` accepts
/// it.
///
/// Whatever the random numbers are, an entry that comes back is a perfect
/// hash over the square's relevant blockers, and the table that comes with
/// it is its sound lookup table. `None` comes back only after
/// `MAX_MAGIC_ATTEMPTS` candidates have failed.
pub fn generate_magic(direction: Direction, square: Square, index_bits: u8) -> (result: Option<
    (MagicEntry, Vec<Mask>),
>)
    requires
        1 <= index_bits <= MAX_INDEX_BITS,
    ensures
        result is Some ==> {
            let (entry, table) = result->0;
            &&& entry.mask.0 == direction.relevant(square.index())
            &&& entry.index_bits == index_bits
            &&& !collides(direction, entry, square.index())
            &&& table_sound(direction, entry, square.index(), table@)
        },
{
    let mut attempts: u64 = 0;
    while attempts < MAX_MAGIC_ATTEMPTS
        invariant
            1 <= index_bits <= MAX_INDEX_BITS,
        decreases MAX_MAGIC_ATTEMPTS - attempts,
    {
        let magic = sparse_candidate(random_u64(), random_u64(), random_u64());
        if let Some(found) = try_magic(direction, square, index_bits, magic) {
            return Some(found);
        }
        attempts += 1;
    }
    None
}

/// Searches a multiplier for every square, as `generate_magic` does for
/// one. `None` if the search gave up on a square.
///
/// Whatever the random numbers are, what comes back holds one entry and one
/// table for each square, by square index: every entry has the index width
/// asked for and the square's relevant blockers as its mask, is a perfect
/// hash for its square, and comes with its sound lookup table.
pub fn create_magics(direction: Direction, index_bits: u8) -> (result: Option<
    (Vec<MagicEntry>, Vec<Vec<Mask>>),
>)
    requires
        1 <= index_bits <= MAX_INDEX_BITS,
    ensures
        result is Some ==> {
            let (magics, tables) = result->0;
            &&& lookup_sound(direction, magics@, tables@)
            &&& forall|i: int|
                0 <= i < 64 ==> (#[trigger] magics@[i]).index_bits == index_bits && !collides(
                    direction,
                    magics@[i],
                    i,
                )
        },
{
    let mut magics: Vec<MagicEntry> = Vec::with_capacity(64);
    let mut masks: Vec<Vec<Mask>> = Vec::with_capacity(64);
    let mut i: u8 = 0;
    while i < 64
        invariant
            i <= 64,
            1 <= index_bits <= MAX_INDEX_BITS,
            magics@.len() == i,
            masks@.len() == i,
            forall|j: int|
                0 <= j < i ==> (#[trigger] magics@[j]).wf() && magics@[j].mask.0
                    == direction.relevant(j) && table_sound(direction, magics@[j], j, masks@[j]@),
            forall|j: int|
                0 <= j < i ==> (#[trigger] magics@[j]).index_bits == index_bits && !collides(
                    direction,
                    magics@[j],
                    j,
                ),
        decreases 64 - i,
    {
        let square = match Square::from_u8(i) {
            Some(square) => square,
            None => Square::A1,
        };
        match generate_magic(direction, square, index_bits) {
            Some((new_magic, new_masks)) => {
                magics.push(new_magic);
                masks.push(new_masks);
            },
            None => {
                return None;
            },
        }
        i += 1;
    }
    Some((magics, masks))
}

} // verus!
