//! Sets of squares, one bit per square.
use vstd::prelude::*;
use vstd::string::*;
use crate::bits::{bit_at, submask};
use crate::square::Square;

verus! {

/// A set of squares: bit `i` stands for the square with index `i`.
#[derive(Debug, Clone, Copy, PartialEq, Eq, Structural)]
pub struct Mask(pub u64);

impl Mask {
    /// The set holds `square`.
    pub open spec fn has(self, square: Square) -> bool {
        bit_at(self.0, square.index())
    }

    /// `squares` lists, in increasing index order, exactly the squares at
    /// which `m` has a bit set.
    pub open spec fn lists(squares: Seq<Square>, m: u64) -> bool {
        &&& forall|k: int| 0 <= k < squares.len() ==> bit_at(m, #[trigger] squares[k].index())
        &&& forall|j: int, k: int|
            0 <= j < k < squares.len() ==> #[trigger] squares[j].index() < #[trigger] squares[k].index()
        &&& forall|s: Square| bit_at(m, #[trigger] s.index()) ==> squares.contains(s)
    }

    /// `list` holds, from the largest down to zero, exactly the submasks of `m`.
    pub open spec fn lists_submasks(list: Seq<Mask>, m: u64) -> bool {
        &&& list.len() > 0
        &&& list[0].0 == m
        &&& list[list.len() - 1].0 == 0
        &&& forall|k: int| 0 <= k < list.len() ==> submask(#[trigger] list[k].0, m)
        &&& forall|j: int, k: int| 0 <= j < k < list.len() ==> #[trigger] list[j].0 > #[trigger] list[k].0
        &&& forall|s: u64| #[trigger] submask(s, m) ==> list.contains(Mask(s))
    }

    /// The character at place `k` of the set's picture: eight rows of
    /// sixteen characters each, the eighth rank first. A row shows its eight
    /// squares from the a-file on, `1` for a square of the set and `0` for any
    /// other, with a space between two squares and a line feed at the end.
    pub open spec fn grid_char(self, k: int) -> char {
        let row = k / 16;
        let column = k % 16;
        if column == 15 {
            '\n'
        } else if column % 2 == 1 {
            ' '
        } else if bit_at(self.0, 8 * (7 - row) + column / 2) {
            '1'
        } else {
            '0'
        }
    }

    /// The set's picture as a board, 128 characters.
    pub open spec fn grid(self) -> Seq<char> {
        Seq::new(128, |k: int| self.grid_char(k))
    }

    /// The set's picture as a board: eight lines, the eighth rank first,
    /// each with the eight squares of its rank from the a-file on, `1` for a
    /// square of the set and `0` for any other, with spaces between them.
    pub fn to_grid(&self) -> (s: String)
        ensures
            s@ == self.grid(),
    {
        let mut s = String::from_str("");
        proof {
            reveal_strlit("");
        }
        assert(s@ =~= Seq::new(0, |j: int| self.grid_char(j)));
        let mut k: usize = 0;
        while k < 128
            invariant
                k <= 128,
                s@ == Seq::new(k as nat, |j: int| self.grid_char(j)),
            decreases 128 - k,
        {
            let row = k / 16;
            let column = k % 16;
            let ghost before = s@;
            proof {
                reveal_strlit("\n");
                reveal_strlit(" ");
                reveal_strlit("1");
                reveal_strlit("0");
            }
            if column == 15 {
                s.append("\n");
            } else if column % 2 == 1 {
                s.append(" ");
            } else if self.0 & (1u64 << (8 * (7 - row) + column / 2)) != 0 {
                s.append("1");
            } else {
                s.append("0");
            }
            assert(s@ =~= before.push(self.grid_char(k as int)));
            assert(s@ =~= Seq::new((k + 1) as nat, |j: int| self.grid_char(j)));
            k += 1;
        }
        s
    }

    fn squares_of(m: u64) -> (squares: Vec<Square>)
        ensures
            Mask::lists(squares@, m),
    {
        let mut squares: Vec<Square> = Vec::new();
        let mut i: u8 = 0;
        while i < 64
            invariant
                i <= 64,
                forall|k: int| 0 <= k < squares@.len() ==> bit_at(m, #[trigger] squares@[k].index()),
                forall|k: int| 0 <= k < squares@.len() ==> #[trigger] squares@[k].index() < i,
                forall|j: int, k: int|
                    0 <= j < k < squares@.len() ==> #[trigger] squares@[j].index()
                        < #[trigger] squares@[k].index(),
                forall|s: Square|
                    bit_at(m, #[trigger] s.index()) && s.index() < i ==> squares@.contains(s),
            decreases 64 - i,
        {
            if m & (1u64 << i) != 0 {
                if let Some(square) = Square::from_u8(i) {
                    let ghost before = squares@;
                    squares.push(square);
                    proof {
                        assert(squares@[before.len() as int] == square);
                        assert forall|s: Square|
                            bit_at(m, #[trigger] s.index()) && s.index() < i + 1 implies squares@.contains(
                            s,
                        ) by {
                            if s.index() < i {
                                let k = choose|k: int| 0 <= k < before.len() && before[k] == s;
                                assert(squares@[k] == s);
                            } else {
                                Square::lemma_injective(s, square);
                            }
                        }
                    }
                }
            }
            i += 1;
        }
        proof {
            assert forall|s: Square| bit_at(m, #[trigger] s.index()) implies squares@.contains(s) by {
                s.lemma_index();
            }
        }
        squares
    }

    /// The squares of the set, in increasing index order.
    pub fn ones(&self) -> (squares: Vec<Square>)
        ensures
            Mask::lists(squares@, self.0),
    {
        Mask::squares_of(self.0)
    }

    /// The squares outside the set, in increasing index order.
    pub fn zeroes(&self) -> (squares: Vec<Square>)
        ensures
            Mask::lists(squares@, !self.0),
    {
        Mask::squares_of(!self.0)
    }

    /// Every submask of the set, each once, from the set itself down to the
    /// empty set.
    pub fn subsets(&self) -> (list: Vec<Mask>)
        ensures
            Mask::lists_submasks(list@, self.0),
    {
        let mut submasks: Vec<Mask> = Vec::new();
        let m = self.0;
        let mut s = m;
        proof {
            lemma_submask_step(m, m, m);
            assert forall|t: u64| #[trigger] submask(t, m) implies t <= m by {
                lemma_submask_step(m, m, t);
            }
        }
        while s > 0
            invariant
                submask(s, m),
                submasks@.len() == 0 ==> s == m,
                submasks@.len() > 0 ==> submasks@[0].0 == m,
                forall|k: int| 0 <= k < submasks@.len() ==> submask(#[trigger] submasks@[k].0, m),
                forall|k: int| 0 <= k < submasks@.len() ==> #[trigger] submasks@[k].0 > s,
                forall|j: int, k: int|
                    0 <= j < k < submasks@.len() ==> #[trigger] submasks@[j].0
                        > #[trigger] submasks@[k].0,
                forall|t: u64| #[trigger] submask(t, m) && t > s ==> submasks@.contains(Mask(t)),
            decreases s,
        {
            let ghost before = submasks@;
            submasks.push(Mask(s));
            let next = (s - 1) & m;
            proof {
                assert(submasks@[before.len() as int] == Mask(s));
                lemma_submask_step(s, m, 0);
                assert forall|t: u64| #[trigger] submask(t, m) && t > next implies submasks@.contains(
                    Mask(t),
                ) by {
                    lemma_submask_step(s, m, t);
                    if t > s {
                        let k = choose|k: int| 0 <= k < before.len() && before[k] == Mask(t);
                        assert(submasks@[k] == Mask(t));
                    }
                }
            }
            s = next;
        }
        let ghost before = submasks@;
        submasks.push(Mask(0));
        proof {
            assert(submasks@[before.len() as int] == Mask(0u64));
            assert forall|t: u64| #[trigger] submask(t, m) implies submasks@.contains(Mask(t)) by {
                if t > 0 {
                    let k = choose|k: int| 0 <= k < before.len() && before[k] == Mask(t);
                    assert(submasks@[k] == Mask(t));
                }
            }
        }
        submasks
    }
}

impl core::ops::BitAnd for Mask {
    type Output = Mask;

    /// The squares in both sets.
    fn bitand(self, rhs: Mask) -> (m: Mask) {
        Mask(self.0 & rhs.0)
    }
}

impl vstd::std_specs::ops::BitAndSpecImpl for Mask {
    open spec fn obeys_bitand_spec() -> bool {
        true
    }

    open spec fn bitand_req(self, rhs: Mask) -> bool {
        true
    }

    open spec fn bitand_spec(self, rhs: Mask) -> Mask {
        Mask(self.0 & rhs.0)
    }
}

impl core::ops::BitOr for Mask {
    type Output = Mask;

    /// The squares in either set.
    fn bitor(self, rhs: Mask) -> (m: Mask) {
        Mask(self.0 | rhs.0)
    }
}

impl vstd::std_specs::ops::BitOrSpecImpl for Mask {
    open spec fn obeys_bitor_spec() -> bool {
        true
    }

    open spec fn bitor_req(self, rhs: Mask) -> bool {
        true
    }

    open spec fn bitor_spec(self, rhs: Mask) -> Mask {
        Mask(self.0 | rhs.0)
    }
}

impl core::ops::BitXor for Mask {
    type Output = Mask;

    /// The squares in exactly one of the two sets.
    fn bitxor(self, rhs: Mask) -> (m: Mask) {
        Mask(self.0 ^ rhs.0)
    }
}

impl vstd::std_specs::ops::BitXorSpecImpl for Mask {
    open spec fn obeys_bitxor_spec() -> bool {
        true
    }

    open spec fn bitxor_req(self, rhs: Mask) -> bool {
        true
    }

    open spec fn bitxor_spec(self, rhs: Mask) -> Mask {
        Mask(self.0 ^ rhs.0)
    }
}

impl core::ops::Not for Mask {
    type Output = Mask;

    /// The squares outside the set.
    fn not(self) -> (m: Mask) {
        Mask(!self.0)
    }
}

impl vstd::std_specs::ops::NotSpecImpl for Mask {
    open spec fn obeys_not_spec() -> bool {
        true
    }

    open spec fn not_req(self) -> bool {
        true
    }

    open spec fn not_spec(self) -> Mask {
        Mask(!self.0)
    }
}

impl core::ops::BitAndAssign for Mask {
    fn bitand_assign(&mut self, rhs: Mask)
        ensures
            final(self).0 == old(self).0 & rhs.0,
    {
        self.0 = self.0 & rhs.0;
    }
}

impl core::ops::BitOrAssign for Mask {
    fn bitor_assign(&mut self, rhs: Mask)
        ensures
            final(self).0 == old(self).0 | rhs.0,
    {
        self.0 = self.0 | rhs.0;
    }
}

impl core::ops::BitXorAssign for Mask {
    fn bitxor_assign(&mut self, rhs: Mask)
        ensures
            final(self).0 == old(self).0 ^ rhs.0,
    {
        self.0 = self.0 ^ rhs.0;
    }
}

/// One step of the descent through the submasks of `m`: from a submask `s`
/// above zero, `(s - 1) & m` is the next smaller submask, and no submask `t`
/// lies strictly between the two.
proof fn lemma_submask_step(s: u64, m: u64, t: u64)
    by (bit_vector)
    ensures
        m & m == m,
        0u64 & m == 0,
        s & m == s && s > 0 ==> (((s - 1) as u64) & m) & m == ((s - 1) as u64) & m,
        s & m == s && s > 0 ==> ((s - 1) as u64) & m < s,
        s & m == s && s > 0 && t & m == t && t < s ==> t <= ((s - 1) as u64) & m,
        t & m == t ==> t <= m,
{
}

} // verus!
