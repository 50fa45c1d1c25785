//! Moves: a square to leave and a square to reach.
use vstd::prelude::*;
use vstd::string::*;
use crate::bits::bit_at;
use crate::mask::Mask;
use crate::square::Square;

verus! {

/// A move from one square to another. It names no piece and no promotion:
/// the position decides what the move does.
#[derive(Debug, Clone, Copy, PartialEq, Eq, Structural)]
pub struct Move {
    pub from: Square,
    pub to: Square,
}

/// Why a move could not be made or taken back.
#[derive(Debug, Clone, Copy, PartialEq, Eq, Structural)]
pub enum MoveError {
    /// No piece stands on the square that the move leaves.
    MissingPiece,
    /// The piece on the square that the move leaves has nowhere to go.
    IllegalMove,
    /// Only the first position is left: there is no move to take back.
    NoPreviousMoves,
}

impl Move {
    /// What four characters name in long algebraic notation: the square to
    /// leave, then the square to reach.
    pub open spec fn parse(s: Seq<char>) -> Option<Move> {
        if s.len() == 4 {
            match (Square::parse(s.subrange(0, 2)), Square::parse(s.subrange(2, 4))) {
                (Some(from), Some(to)) => Some(Move { from, to }),
                _ => None,
            }
        } else {
            None
        }
    }

    /// The move's name in long algebraic notation, such as `e2e4`.
    pub open spec fn name(self) -> Seq<char> {
        self.from.name() + self.to.name()
    }

    /// The distance in ranks between the two squares.
    pub open spec fn rank_distance(self) -> nat {
        vstd::math::abs(self.to.rank_index() - self.from.rank_index())
    }

    /// The distance in files between the two squares.
    pub open spec fn file_distance(self) -> nat {
        vstd::math::abs(self.to.file_index() - self.from.file_index())
    }

    /// Reads a move in long algebraic notation: two square names, four
    /// characters in all, such as `e2e4`. `None` for any other text; a fifth
    /// character that names a promotion piece is not accepted.
    pub fn from_long_algebraic(input: &str) -> (m: Option<Move>)
        ensures
            m == Move::parse(input@),
    {
        if input.unicode_len() != 4 {
            return None;
        }
        let from = Square::from_str(input.substring_char(0, 2));
        let to = Square::from_str(input.substring_char(2, 4));
        match (from, to) {
            (Some(from), Some(to)) => Some(Move { from, to }),
            _ => None,
        }
    }

    /// Reads a move in long algebraic notation from its characters.
    pub fn from_chars(chars: &Vec<char>) -> (m: Option<Move>)
        ensures
            m == Move::parse(chars@),
    {
        if chars.len() != 4 {
            return None;
        }
        assert(chars@.subrange(0, 2) =~= seq![chars@[0], chars@[1]]);
        assert(chars@.subrange(2, 4) =~= seq![chars@[2], chars@[3]]);
        let from = Square::from_chars(chars[0], chars[1]);
        let to = Square::from_chars(chars[2], chars[3]);
        match (from, to) {
            (Some(from), Some(to)) => Some(Move { from, to }),
            _ => None,
        }
    }

    /// The move's name in long algebraic notation, such as `e2e4`.
    pub fn long_algebraic(&self) -> (s: String)
        ensures
            s@ == self.name(),
    {
        let mut s = self.from.to_string();
        let to = self.to.to_string();
        s.append(to.as_str());
        s
    }

    /// One move from `from` to each square of `move_mask`, in increasing
    /// order of the square reached.
    pub fn from_move_mask(from: Square, move_mask: Mask) -> (moves: Vec<Move>)
        ensures
            Move::lists(moves@, from, move_mask.0),
    {
        let targets = move_mask.ones();
        let mut moves: Vec<Move> = Vec::with_capacity(targets.len());
        let mut k: usize = 0;
        while k < targets.len()
            invariant
                k <= targets@.len(),
                moves@.len() == k,
                forall|j: int| 0 <= j < k ==> #[trigger] moves@[j] == (Move { from, to: targets@[j] }),
            decreases targets@.len() - k,
        {
            moves.push(Move { from, to: targets[k] });
            k += 1;
        }
        proof {
            assert forall|s: Square| bit_at(move_mask.0, #[trigger] s.index()) implies exists|j: int|
                0 <= j < moves@.len() && #[trigger] moves@[j].to == s by {
                let j = choose|j: int| 0 <= j < targets@.len() && targets@[j] == s;
                assert(moves@[j].to == s);
            }
        }
        moves
    }

    /// `moves` all leave `from`, and reach, in increasing index order, exactly
    /// the squares at which `m` has a bit set.
    pub open spec fn lists(moves: Seq<Move>, from: Square, m: u64) -> bool {
        &&& forall|k: int| 0 <= k < moves.len() ==> (#[trigger] moves[k]).from == from
        &&& forall|k: int| 0 <= k < moves.len() ==> bit_at(m, (#[trigger] moves[k]).to.index())
        &&& forall|j: int, k: int|
            0 <= j < k < moves.len() ==> (#[trigger] moves[j]).to.index() < (
            #[trigger] moves[k]).to.index()
        &&& forall|s: Square|
            bit_at(m, #[trigger] s.index()) ==> exists|k: int|
                0 <= k < moves.len() && (#[trigger] moves[k]).to == s
    }

    /// The distance in ranks between the two squares.
    pub fn rank_diff(&self) -> (d: u8)
        ensures
            d == self.rank_distance(),
    {
        self.to.rank().diff(self.from.rank())
    }

    /// The distance in files between the two squares.
    pub fn file_diff(&self) -> (d: u8)
        ensures
            d == self.file_distance(),
    {
        self.to.file().diff(self.from.file())
    }
}

} // verus!
