//! Index arithmetic on the board, without the square type.
use vstd::prelude::*;
use crate::piece::Piece;

verus! {

/// Rank, file and piece-letter arithmetic on plain integers.
pub struct BoardHelper;

impl BoardHelper {
    /// The piece that a letter stands for; `None` for any other character.
    pub fn char_to_piece(ch: char) -> (p: Option<Piece>)
        ensures
            p == Piece::of_char(ch),
    {
        Piece::from_char(ch)
    }

    /// The rank index of the square with index `i`.
    pub fn rank(i: usize) -> (r: usize)
        ensures
            r == i / 8,
    {
        i / 8
    }

    /// The file index of the square with index `i`.
    pub fn file(i: usize) -> (f: usize)
        ensures
            f == i % 8,
    {
        i % 8
    }

    /// The distance between rank index `rank` and the rank of the square with
    /// index `tile`.
    pub fn rank_difference(rank: usize, tile: usize) -> (d: usize)
        ensures
            d == vstd::math::abs(rank - tile / 8),
    {
        let other = tile / 8;
        if rank >= other {
            rank - other
        } else {
            other - rank
        }
    }

    /// The distance between file index `file` and the file of the square with
    /// index `tile`.
    pub fn file_difference(file: usize, tile: usize) -> (d: usize)
        ensures
            d == vstd::math::abs(file - tile % 8),
    {
        let other = tile % 8;
        if file >= other {
            file - other
        } else {
            other - file
        }
    }

    /// Which of the twelve piece sets belongs to the piece that `piece`
    /// stands for.
    pub fn piece_to_bitboard_index(piece: char) -> (i: usize)
        requires
            Piece::of_char(piece) is Some,
        ensures
            i == Piece::of_char(piece)->0.slot(),
    {
        match Piece::from_char(piece) {
            Some(p) => p.to_mask_index(),
            None => 0,
        }
    }
}

} // verus!
