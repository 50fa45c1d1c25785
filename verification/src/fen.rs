//! Reading a position from Forsyth-Edwards notation.
//!
//! The text is trimmed of white space and cut at each space into sections:
//! the pieces, the side to move, the castling rights, the en-passant square,
//! the halfmove clock and the move number. Two spaces in a row enclose an
//! empty section.
use vstd::prelude::*;
use vstd::string::*;
use crate::bits::{bit_at, single, disjoint, group_bits, lemma_disjoint_bits};
use crate::board::{BoardState, FenError};
use crate::mask::Mask;
use crate::moves::Move;
use crate::piece::{Color, Piece};
use crate::square::{Rank, Square};

verus! {

/// `c` is white space, as `char::is_whitespace` has it.
pub open spec fn is_space(c: char) -> bool {
    let n = c as u32;
    (0x09 <= n <= 0x0d) || n == 0x20 || n == 0x85 || n == 0xa0 || n == 0x1680 || (0x2000 <= n
        <= 0x200a) || n == 0x2028 || n == 0x2029 || n == 0x202f || n == 0x205f || n == 0x3000
}

/// Where the text starts once leading white space is dropped: the index of
/// the first character at or after `from` that is no white space.
pub open spec fn trim_start(s: Seq<char>, from: int) -> int
    decreases s.len() - from,
{
    if 0 <= from < s.len() && is_space(s[from]) {
        trim_start(s, from + 1)
    } else {
        from
    }
}

/// Where the text ends once trailing white space is dropped, looking no
/// further back than `start`: one past the last character before `to` that
/// is no white space.
pub open spec fn trim_end(s: Seq<char>, start: int, to: int) -> int
    decreases to,
{
    if 0 <= start < to <= s.len() && is_space(s[to - 1]) {
        trim_end(s, start, to - 1)
    } else {
        to
    }
}

/// The text without the white space that leads and trails it.
pub open spec fn trimmed(s: Seq<char>) -> Seq<char> {
    let start = trim_start(s, 0);
    s.subrange(start, trim_end(s, start, s.len() as int))
}

/// The pieces that `sep` cuts the text into, in order. A text without `sep`
/// is one piece, and the empty text is one empty piece.
pub open spec fn split(s: Seq<char>, sep: char) -> Seq<Seq<char>>
    decreases s.len(),
{
    if s.len() == 0 {
        seq![Seq::<char>::empty()]
    } else {
        let head = split(s.drop_last(), sep);
        if s.last() == sep {
            head.push(Seq::<char>::empty())
        } else {
            head.drop_last().push(head.last().push(s.last()))
        }
    }
}

/// The views of the texts in `v`.
pub open spec fn texts(v: Seq<Vec<char>>) -> Seq<Seq<char>> {
    Seq::new(v.len(), |i: int| v[i]@)
}

/// Whether `c` is white space.
pub fn is_whitespace(c: char) -> (b: bool)
    ensures
        b == is_space(c),
{
    let n = c as u32;
    (0x09 <= n && n <= 0x0d) || n == 0x20 || n == 0x85 || n == 0xa0 || n == 0x1680 || (0x2000 <= n
        && n <= 0x200a) || n == 0x2028 || n == 0x2029 || n == 0x202f || n == 0x205f || n == 0x3000
}

/// The characters of `text` without the white space that leads and trails
/// them.
pub fn trimmed_chars(text: &str) -> (chars: Vec<char>)
    ensures
        chars@ == trimmed(text@),
{
    let len = text.unicode_len();
    let mut start: usize = 0;
    while start < len && is_whitespace(text.get_char(start))
        invariant
            start <= len,
            len == text@.len(),
            trim_start(text@, 0) == trim_start(text@, start as int),
        decreases len - start,
    {
        start += 1;
    }
    let mut end: usize = len;
    while end > start && is_whitespace(text.get_char(end - 1))
        invariant
            start <= end <= len,
            len == text@.len(),
            trim_end(text@, start as int, len as int) == trim_end(text@, start as int, end as int),
        decreases end,
    {
        end -= 1;
    }
    let mut chars: Vec<char> = Vec::new();
    let mut i: usize = start;
    while i < end
        invariant
            start <= i <= end <= len,
            len == text@.len(),
            chars@ == text@.subrange(start as int, i as int),
        decreases end - i,
    {
        chars.push(text.get_char(i));
        assert(text@.subrange(start as int, i as int).push(text@[i as int]) =~= text@.subrange(
            start as int,
            i + 1,
        ));
        i += 1;
    }
    chars
}

/// Cuts `chars` at each `sep`.
pub fn split_chars(chars: &Vec<char>, sep: char) -> (parts: Vec<Vec<char>>)
    ensures
        texts(parts@) == split(chars@, sep),
        parts@.len() >= 1,
{
    let mut parts: Vec<Vec<char>> = Vec::new();
    let mut current: Vec<char> = Vec::new();
    let mut i: usize = 0;
    assert(chars@.subrange(0, 0) =~= Seq::<char>::empty());
    assert(texts(parts@).push(current@) =~= split(chars@.subrange(0, 0), sep));
    while i < chars.len()
        invariant
            i <= chars@.len(),
            texts(parts@).push(current@) == split(chars@.subrange(0, i as int), sep),
        decreases chars@.len() - i,
    {
        let c = chars[i];
        let ghost before = chars@.subrange(0, i as int);
        let ghost now = chars@.subrange(0, i + 1);
        proof {
            assert(now.drop_last() =~= before);
            assert(now.last() == c);
            let head = split(before, sep);
            assert(head.last() == current@);
            assert(head.drop_last() =~= texts(parts@));
        }
        if c == sep {
            let ghost old_parts = parts@;
            parts.push(current);
            current = Vec::new();
            proof {
                assert(texts(parts@) =~= texts(old_parts).push(parts@[old_parts.len() as int]@));
                assert(texts(parts@).push(current@) =~= split(now, sep));
            }
        } else {
            current.push(c);
            proof {
                assert(texts(parts@).push(current@) =~= split(now, sep));
            }
        }
        i += 1;
    }
    let ghost old_parts = parts@;
    let ghost last = current@;
    parts.push(current);
    proof {
        assert(chars@.subrange(0, chars@.len() as int) =~= chars@);
        assert(texts(parts@) =~= texts(old_parts).push(last));
    }
    parts
}

/// How many empty squares a digit of the piece section stands for: one to
/// eight for the digits `1` to `8`, and zero for any other character.
pub open spec fn skip_of(c: char) -> int {
    if 0x31 <= c as u32 <= 0x38 {
        c as u32 - 0x30
    } else {
        0
    }
}

/// `n` empty squares.
pub open spec fn empties(n: int) -> Seq<Option<Piece>> {
    Seq::new(n as nat, |i: int| None::<Piece>)
}

/// The squares that one row of the piece section describes, from the a-file
/// on: a digit stands for that many empty squares, a piece letter for a
/// piece. `None` if any other character occurs.
pub open spec fn row_squares(row: Seq<char>) -> Option<Seq<Option<Piece>>>
    decreases row.len(),
{
    if row.len() == 0 {
        Some(Seq::empty())
    } else {
        match row_squares(row.drop_last()) {
            Some(squares) => {
                let c = row.last();
                if skip_of(c) > 0 {
                    Some(squares + empties(skip_of(c)))
                } else if Piece::of_char(c) is Some {
                    Some(squares.push(Piece::of_char(c)))
                } else {
                    None
                }
            },
            None => None,
        }
    }
}

/// The row describes exactly eight squares.
pub open spec fn row_ok(row: Seq<char>) -> bool {
    row_squares(row) is Some && row_squares(row)->0.len() == 8
}

/// What stands on each of the 64 squares, by square index, as the piece
/// section says: eight rows cut by `/`, the eighth rank first, each of
/// exactly eight squares. `None` for any other text.
pub open spec fn placement(text: Seq<char>) -> Option<Seq<Option<Piece>>> {
    let rows = split(text, '/');
    if rows.len() == 8 && forall|r: int| 0 <= r < 8 ==> row_ok(#[trigger] rows[r]) {
        Some(Seq::new(64, |i: int| row_squares(rows[7 - i / 8])->0[i % 8]))
    } else {
        None
    }
}

/// The set of the squares below index `n` on which the piece of set `slot`
/// stands.
pub open spec fn squares_with(squares: Seq<Option<Piece>>, slot: int, n: int) -> u64
    decreases n,
{
    if n <= 0 {
        0
    } else if squares[n - 1] is Some && squares[n - 1]->0.slot() == slot {
        squares_with(squares, slot, n - 1) | single(n - 1)
    } else {
        squares_with(squares, slot, n - 1)
    }
}

/// The side to move that the second section names: `w` or `b`.
pub open spec fn side_of(token: Seq<char>) -> Option<Color> {
    if token =~= seq!['w'] {
        Some(Color::White)
    } else if token =~= seq!['b'] {
        Some(Color::Black)
    } else {
        None
    }
}

/// The castling section that names exactly the given rights: `K` and `Q` for
/// White's king side and queen side, `k` and `q` for Black's, in this order.
pub open spec fn rights_text(wk: bool, wq: bool, bk: bool, bq: bool) -> Seq<char> {
    (if wk {
        seq!['K']
    } else {
        Seq::<char>::empty()
    }) + (if wq {
        seq!['Q']
    } else {
        Seq::<char>::empty()
    }) + (if bk {
        seq!['k']
    } else {
        Seq::<char>::empty()
    }) + (if bq {
        seq!['q']
    } else {
        Seq::<char>::empty()
    })
}

/// The castling rights that the third section names, as the four rights
/// `(K, Q, k, q)`. A lone `-` names none, and so does the empty section.
/// `None` if the section is neither `-` nor some of the letters `KQkq` in
/// this order, each at most once.
pub open spec fn rights_of(token: Seq<char>) -> Option<(bool, bool, bool, bool)> {
    let wk = token.contains('K');
    let wq = token.contains('Q');
    let bk = token.contains('k');
    let bq = token.contains('q');
    if token =~= seq!['-'] {
        Some((false, false, false, false))
    } else if token =~= rights_text(wk, wq, bk, bq) {
        Some((wk, wq, bk, bq))
    } else {
        None
    }
}

/// The double pawn push that the fourth section stands for. A lone `-`
/// stands for none. A square of the third rank stands for the push of a
/// white pawn over it, a square of the sixth rank for the push of a black
/// pawn over it. `None` for any other text.
pub open spec fn push_of(token: Seq<char>) -> Option<Option<Move>> {
    if token =~= seq!['-'] {
        Some(None)
    } else {
        match Square::parse(token) {
            Some(square) => {
                let f = square.file_index();
                if square.rank_index() == 2 {
                    Some(Some(Move { from: Square::at(1, f), to: Square::at(3, f) }))
                } else if square.rank_index() == 5 {
                    Some(Some(Move { from: Square::at(6, f), to: Square::at(4, f) }))
                } else {
                    None
                }
            },
            None => None,
        }
    }
}

/// The value of a decimal digit, or -1 for any other character.
pub open spec fn digit_of(c: char) -> int {
    if 0x30 <= c as u32 <= 0x39 {
        c as u32 - 0x30
    } else {
        -1
    }
}

/// The number that a run of decimal digits stands for; zero for the empty
/// run; `None` if a character is no digit.
pub open spec fn digits_value(s: Seq<char>) -> Option<nat>
    decreases s.len(),
{
    if s.len() == 0 {
        Some(0)
    } else {
        match digits_value(s.drop_last()) {
            Some(v) => if digit_of(s.last()) >= 0 {
                Some((v * 10 + digit_of(s.last())) as nat)
            } else {
                None
            },
            None => None,
        }
    }
}

/// The digits of a number: the text without the plus sign that may lead
/// it.
pub open spec fn unsigned(s: Seq<char>) -> Seq<char> {
    if s.len() > 0 && s[0] == '+' {
        s.subrange(1, s.len() as int)
    } else {
        s
    }
}

/// The number that the text stands for: one or more decimal digits, which a
/// plus sign may lead, and nothing else.
pub open spec fn decimal(s: Seq<char>) -> Option<nat> {
    if unsigned(s).len() == 0 {
        None
    } else {
        digits_value(unsigned(s))
    }
}

/// The position that the parts of a text describe, with the given counters.
pub open spec fn position(
    squares: Seq<Option<Piece>>,
    side: Color,
    rights: (bool, bool, bool, bool),
    push: Option<Move>,
    halfmoves: u8,
    fullmoves: u32,
) -> BoardState {
    BoardState {
        active_color: side,
        masks: [
            Mask(squares_with(squares, 0, 64)),
            Mask(squares_with(squares, 1, 64)),
            Mask(squares_with(squares, 2, 64)),
            Mask(squares_with(squares, 3, 64)),
            Mask(squares_with(squares, 4, 64)),
            Mask(squares_with(squares, 5, 64)),
            Mask(squares_with(squares, 6, 64)),
            Mask(squares_with(squares, 7, 64)),
            Mask(squares_with(squares, 8, 64)),
            Mask(squares_with(squares, 9, 64)),
            Mask(squares_with(squares, 10, 64)),
            Mask(squares_with(squares, 11, 64)),
        ],
        last_move: push,
        a1_rook_moved: !rights.1,
        h1_rook_moved: !rights.0,
        a8_rook_moved: !rights.3,
        h8_rook_moved: !rights.2,
        halfmoves,
        fullmoves,
    }
}

/// What a text in Forsyth-Edwards notation stands for.
///
/// The text is trimmed and cut at each space. The sections are read in
/// order, and the first one that is wrong decides the error:
/// the pieces (`BadPosition`), the side to move (`BadActiveColor`), the
/// castling rights (`BadCastlingRights`), the en-passant square
/// (`BadEnPassant`, also where the section is missing, and where the position
/// offers the capture but the square is occupied), the halfmove clock, at
/// most 100 (`BadHalfmoves`), and the move number, which has to fit 32 bits
/// (`BadFullmoves`). Any other section that is missing gives
/// `MissingSection`, and a seventh section gives `TooManySections`.
pub open spec fn parse_fen(text: Seq<char>) -> Result<BoardState, FenError> {
    let sections = split(trimmed(text), ' ');
    let n = sections.len();
    if placement(sections[0]) is None {
        Err(FenError::BadPosition)
    } else if n < 2 {
        Err(FenError::MissingSection)
    } else if side_of(sections[1]) is None {
        Err(FenError::BadActiveColor)
    } else if n < 3 {
        Err(FenError::MissingSection)
    } else if rights_of(sections[2]) is None {
        Err(FenError::BadCastlingRights)
    } else if n < 4 || push_of(sections[3]) is None {
        Err(FenError::BadEnPassant)
    } else {
        let squares = placement(sections[0])->0;
        let side = side_of(sections[1])->0;
        let rights = rights_of(sections[2])->0;
        let push = push_of(sections[3])->0;
        let draft = position(squares, side, rights, push, 0, 0);
        if draft.en_passant_square() is Some && bit_at(
            draft.occupancy(),
            draft.en_passant_square()->0,
        ) {
            Err(FenError::BadEnPassant)
        } else if n < 5 {
            Err(FenError::MissingSection)
        } else if decimal(sections[4]) is None || decimal(sections[4])->0 > 100 {
            Err(FenError::BadHalfmoves)
        } else if n < 6 {
            Err(FenError::MissingSection)
        } else if decimal(sections[5]) is None || decimal(sections[5])->0 > 0xffff_ffff {
            Err(FenError::BadFullmoves)
        } else if n > 6 {
            Err(FenError::TooManySections)
        } else {
            Ok(
                position(
                    squares,
                    side,
                    rights,
                    push,
                    decimal(sections[4])->0 as u8,
                    decimal(sections[5])->0 as u32,
                ),
            )
        }
    }
}

/// A row read up to some character is read in full only if it was read so
/// far, and describes no fewer squares in full.
proof fn lemma_row_grows(row: Seq<char>, i: int)
    requires
        0 <= i <= row.len(),
        row_squares(row) is Some,
    ensures
        row_squares(row.subrange(0, i)) is Some,
        row_squares(row.subrange(0, i))->0.len() <= row_squares(row)->0.len(),
    decreases row.len() - i,
{
    if i == row.len() {
        assert(row.subrange(0, i) =~= row);
    } else {
        assert(row.drop_last().subrange(0, i) =~= row.subrange(0, i));
        lemma_row_grows(row.drop_last(), i);
    }
}

/// Reads one row of the piece section.
fn parse_row(row: &Vec<char>) -> (squares: Option<Vec<Option<Piece>>>)
    ensures
        squares is Some <==> row_ok(row@),
        squares is Some ==> squares->0@ == row_squares(row@)->0,
{
    let mut squares: Vec<Option<Piece>> = Vec::new();
    let mut i: usize = 0;
    assert(row@.subrange(0, 0) =~= Seq::<char>::empty());
    while i < row.len()
        invariant
            i <= row@.len(),
            squares@.len() <= 8,
            row_squares(row@.subrange(0, i as int)) == Some(squares@),
        decreases row@.len() - i,
    {
        let c = row[i];
        let ghost now = row@.subrange(0, i + 1);
        proof {
            assert(now.drop_last() =~= row@.subrange(0, i as int));
            assert(now.last() == c);
        }
        let n = c as u32;
        if 0x31 <= n && n <= 0x38 {
            let skip = (n - 0x30) as usize;
            let ghost before = squares@;
            let mut k: usize = 0;
            while k < skip
                invariant
                    k <= skip <= 8,
                    squares@ == before + empties(k as int),
                decreases skip - k,
            {
                squares.push(None);
                assert(squares@ =~= before + empties(k + 1));
                k += 1;
            }
        } else {
            match Piece::from_char(c) {
                Some(piece) => {
                    squares.push(Some(piece));
                },
                None => {
                    proof {
                        if row_squares(row@) is Some {
                            lemma_row_grows(row@, i + 1);
                        }
                    }
                    return None;
                },
            }
        }
        if squares.len() > 8 {
            proof {
                if row_squares(row@) is Some {
                    lemma_row_grows(row@, i + 1);
                }
            }
            return None;
        }
        i += 1;
    }
    assert(row@.subrange(0, row@.len() as int) =~= row@);
    if squares.len() == 8 {
        Some(squares)
    } else {
        None
    }
}

/// Reads the piece section.
fn parse_placement(text: &Vec<char>) -> (squares: Option<Vec<Option<Piece>>>)
    ensures
        squares is Some <==> placement(text@) is Some,
        squares is Some ==> squares->0@ == placement(text@)->0,
{
    let rows = split_chars(text, '/');
    if rows.len() != 8 {
        return None;
    }
    let ghost row_texts = split(text@, '/');
    let mut parsed: Vec<Vec<Option<Piece>>> = Vec::new();
    let mut r: usize = 0;
    while r < 8
        invariant
            r <= 8,
            rows@.len() == 8,
            row_texts.len() == 8,
            row_texts == split(text@, '/'),
            texts(rows@) == row_texts,
            parsed@.len() == r,
            forall|j: int| 0 <= j < r ==> row_ok(#[trigger] row_texts[j]),
            forall|j: int| 0 <= j < r ==> (#[trigger] parsed@[j])@ == row_squares(row_texts[j])->0,
        decreases 8 - r,
    {
        assert(texts(rows@)[r as int] == rows@[r as int]@);
        match parse_row(&rows[r]) {
            Some(squares) => {
                parsed.push(squares);
            },
            None => {
                assert(!row_ok(row_texts[r as int]));
                return None;
            },
        }
        r += 1;
    }
    let mut squares: Vec<Option<Piece>> = Vec::with_capacity(64);
    let mut i: usize = 0;
    while i < 64
        invariant
            i <= 64,
            parsed@.len() == 8,
            row_texts.len() == 8,
            row_texts == split(text@, '/'),
            forall|j: int| 0 <= j < 8 ==> row_ok(#[trigger] row_texts[j]),
            forall|j: int| 0 <= j < 8 ==> (#[trigger] parsed@[j])@ == row_squares(row_texts[j])->0,
            squares@.len() == i,
            forall|j: int|
                0 <= j < i ==> #[trigger] squares@[j] == row_squares(row_texts[7 - j / 8])->0[j % 8],
        decreases 64 - i,
    {
        let row = &parsed[7 - i / 8];
        assert(row_ok(row_texts[7 - i / 8]));
        squares.push(row[i % 8]);
        i += 1;
    }
    assert(squares@ =~= placement(text@)->0);
    Some(squares)
}

/// Whether `token` is the one character `c`.
fn is_char(token: &Vec<char>, c: char) -> (b: bool)
    ensures
        b == (token@ =~= seq![c]),
{
    token.len() == 1 && token[0] == c
}

/// Reads the side to move.
fn parse_side(token: &Vec<char>) -> (side: Option<Color>)
    ensures
        side == side_of(token@),
{
    if is_char(token, 'w') {
        Some(Color::White)
    } else if is_char(token, 'b') {
        Some(Color::Black)
    } else {
        None
    }
}

/// Whether `c` occurs in `token`.
fn has_char(token: &Vec<char>, c: char) -> (b: bool)
    ensures
        b == token@.contains(c),
{
    let mut i: usize = 0;
    while i < token.len()
        invariant
            i <= token@.len(),
            forall|j: int| 0 <= j < i ==> token@[j] != c,
        decreases token@.len() - i,
    {
        if token[i] == c {
            return true;
        }
        i += 1;
    }
    false
}

/// Whether two texts are the same.
fn same_text(a: &Vec<char>, b: &Vec<char>) -> (same: bool)
    ensures
        same == (a@ =~= b@),
{
    if a.len() != b.len() {
        return false;
    }
    let mut i: usize = 0;
    while i < a.len()
        invariant
            i <= a@.len(),
            a@.len() == b@.len(),
            forall|j: int| 0 <= j < i ==> a@[j] == b@[j],
        decreases a@.len() - i,
    {
        if a[i] != b[i] {
            return false;
        }
        i += 1;
    }
    true
}

/// Reads the castling rights.
fn parse_rights(token: &Vec<char>) -> (rights: Option<(bool, bool, bool, bool)>)
    ensures
        rights == rights_of(token@),
{
    if is_char(token, '-') {
        return Some((false, false, false, false));
    }
    let wk = has_char(token, 'K');
    let wq = has_char(token, 'Q');
    let bk = has_char(token, 'k');
    let bq = has_char(token, 'q');
    let mut expected: Vec<char> = Vec::new();
    if wk {
        expected.push('K');
    }
    if wq {
        expected.push('Q');
    }
    if bk {
        expected.push('k');
    }
    if bq {
        expected.push('q');
    }
    assert(expected@ =~= rights_text(wk, wq, bk, bq));
    if same_text(token, &expected) {
        Some((wk, wq, bk, bq))
    } else {
        None
    }
}

/// Reads the en-passant section.
fn parse_push(token: &Vec<char>) -> (push: Option<Option<Move>>)
    ensures
        push == push_of(token@),
{
    if is_char(token, '-') {
        return Some(None);
    }
    if token.len() != 2 {
        return None;
    }
    assert(token@ =~= seq![token@[0], token@[1]]);
    let square = match Square::from_chars(token[0], token[1]) {
        Some(square) => square,
        None => {
            return None;
        },
    };
    let file = square.file();
    proof {
        square.lemma_index();
    }
    match square.rank() {
        Rank::Three => Some(
            Some(
                Move {
                    from: Square::from_coords(Rank::Two, file),
                    to: Square::from_coords(Rank::Four, file),
                },
            ),
        ),
        Rank::Six => Some(
            Some(
                Move {
                    from: Square::from_coords(Rank::Seven, file),
                    to: Square::from_coords(Rank::Five, file),
                },
            ),
        ),
        _ => None,
    }
}

/// A run of digits read up to some character is a number only if it was one
/// so far, and stands for no smaller number.
proof fn lemma_digits_grow(s: Seq<char>, i: int)
    requires
        0 <= i <= s.len(),
        digits_value(s) is Some,
    ensures
        digits_value(s.subrange(0, i)) is Some,
        digits_value(s.subrange(0, i))->0 <= digits_value(s)->0,
    decreases s.len() - i,
{
    if i == s.len() {
        assert(s.subrange(0, i) =~= s);
    } else {
        assert(s.drop_last().subrange(0, i) =~= s.subrange(0, i));
        lemma_digits_grow(s.drop_last(), i);
    }
}

/// Reads a number of one or more decimal digits, which a plus sign may
/// lead, that is at most `limit`.
fn parse_number(token: &Vec<char>, limit: u32) -> (value: Option<u32>)
    ensures
        value is Some <==> decimal(token@) is Some && decimal(token@)->0 <= limit,
        value is Some ==> value->0 == decimal(token@)->0,
{
    let start: usize = if token.len() > 0 && token[0] == '+' {
        1
    } else {
        0
    };
    if token.len() == start {
        return None;
    }
    let ghost digits = unsigned(token@);
    assert(digits =~= token@.subrange(start as int, token@.len() as int));
    let mut value: u32 = 0;
    let mut i: usize = start;
    assert(digits.subrange(0, 0) =~= Seq::<char>::empty());
    while i < token.len()
        invariant
            start <= i <= token@.len(),
            start < token@.len(),
            digits == unsigned(token@),
            digits == token@.subrange(start as int, token@.len() as int),
            value <= limit,
            digits_value(digits.subrange(0, i - start)) == Some(value as nat),
        decreases token@.len() - i,
    {
        let c = token[i];
        let ghost now = digits.subrange(0, i + 1 - start);
        proof {
            assert(now.drop_last() =~= digits.subrange(0, i - start));
            assert(now.last() == c);
            if digits_value(digits) is Some {
                lemma_digits_grow(digits, i + 1 - start);
            }
        }
        let n = c as u32;
        if n < 0x30 || n > 0x39 {
            return None;
        }
        let next: u64 = value as u64 * 10 + (n - 0x30) as u64;
        if next > limit as u64 {
            return None;
        }
        value = next as u32;
        i += 1;
    }
    assert(digits.subrange(0, digits.len() as int) =~= digits);
    Some(value)
}

/// The piece sets hold, below index `n`, exactly the squares on which their
/// piece stands.
pub proof fn lemma_squares_with(squares: Seq<Option<Piece>>, slot: int, n: int, i: int)
    ensures
        bit_at(squares_with(squares, slot, n), i) <==> 0 <= i < n && i < 64 && squares[i] is Some
            && squares[i]->0.slot() == slot,
    decreases n,
{
    broadcast use group_bits;

    if n > 0 {
        lemma_squares_with(squares, slot, n - 1, i);
    }
}

/// Fills the twelve piece sets from what stands on each square.
fn place(squares: &Vec<Option<Piece>>) -> (masks: [Mask; 12])
    requires
        squares@.len() == 64,
    ensures
        forall|k: int| 0 <= k < 12 ==> (#[trigger] masks[k]).0 == squares_with(squares@, k, 64),
{
    let mut masks = [Mask(0);12];
    let mut i: usize = 0;
    while i < 64
        invariant
            i <= 64,
            squares@.len() == 64,
            forall|k: int|
                0 <= k < 12 ==> (#[trigger] masks[k]).0 == squares_with(squares@, k, i as int),
        decreases 64 - i,
    {
        if let Some(piece) = squares[i] {
            proof {
                piece.lemma_slot();
            }
            let slot = piece.to_mask_index();
            masks[slot] = Mask(masks[slot].0 | (1u64 << i));
        }
        i += 1;
    }
    masks
}

/// Reads a position in Forsyth-Edwards notation.
pub fn parse(fen: &str) -> (result: Result<BoardState, FenError>)
    ensures
        result == parse_fen(fen@),
        result is Ok ==> result->Ok_0.wf(),
{
    let chars = trimmed_chars(fen);
    let sections = split_chars(&chars, ' ');
    let ghost parts = split(trimmed(fen@), ' ');
    let n = sections.len();
    assert forall|j: int| 0 <= j < n implies sections@[j]@ == #[trigger] parts[j] by {
        assert(texts(sections@)[j] == sections@[j]@);
    }
    let squares = match parse_placement(&sections[0]) {
        Some(squares) => squares,
        None => {
            return Err(FenError::BadPosition);
        },
    };
    if n < 2 {
        return Err(FenError::MissingSection);
    }
    let side = match parse_side(&sections[1]) {
        Some(side) => side,
        None => {
            return Err(FenError::BadActiveColor);
        },
    };
    if n < 3 {
        return Err(FenError::MissingSection);
    }
    let rights = match parse_rights(&sections[2]) {
        Some(rights) => rights,
        None => {
            return Err(FenError::BadCastlingRights);
        },
    };
    if n < 4 {
        return Err(FenError::BadEnPassant);
    }
    let push = match parse_push(&sections[3]) {
        Some(push) => push,
        None => {
            return Err(FenError::BadEnPassant);
        },
    };
    let masks = place(&squares);
    let mut state = BoardState {
        active_color: side,
        masks,
        last_move: push,
        a1_rook_moved: !rights.1,
        h1_rook_moved: !rights.0,
        a8_rook_moved: !rights.3,
        h8_rook_moved: !rights.2,
        halfmoves: 0,
        fullmoves: 0,
    };
    let ghost draft = position(squares@, side, rights, push, 0, 0);
    proof {
        assert(state.masks =~= draft.masks);
        assert(state == draft);
    }
    if let Some(target) = state.en_passant_mask() {
        proof {
            let e = state.en_passant_square()->0;
            assert(0 <= e < 64) by {
                state.last_move->0.to.lemma_index();
            }
        }
        if state.all_pieces_mask().0 & target.0 != 0 {
            return Err(FenError::BadEnPassant);
        }
    }
    if n < 5 {
        return Err(FenError::MissingSection);
    }
    let halfmoves = match parse_number(&sections[4], 100) {
        Some(halfmoves) => halfmoves,
        None => {
            return Err(FenError::BadHalfmoves);
        },
    };
    if n < 6 {
        return Err(FenError::MissingSection);
    }
    let fullmoves = match parse_number(&sections[5], 0xffff_ffff) {
        Some(fullmoves) => fullmoves,
        None => {
            return Err(FenError::BadFullmoves);
        },
    };
    if n > 6 {
        return Err(FenError::TooManySections);
    }
    state.halfmoves = halfmoves as u8;
    state.fullmoves = fullmoves;
    proof {
        let done = position(squares@, side, rights, push, halfmoves as u8, fullmoves);
        assert(state.masks =~= done.masks);
        assert(state == done);
        assert forall|i: int, j: int| 0 <= i < j < 12 implies disjoint(
            (#[trigger] state.masks[i]).0,
            (#[trigger] state.masks[j]).0,
        ) by {
            assert forall|b: int| !(bit_at(state.masks[i].0, b) && bit_at(state.masks[j].0, b)) by {
                lemma_squares_with(squares@, i, 64, b);
                lemma_squares_with(squares@, j, 64, b);
            }
            lemma_disjoint_bits(state.masks[i].0, state.masks[j].0);
        }
        lemma_counters_apart(draft, state);
    }
    Ok(state)
}

/// What stands where, whose turn it is and what the last move was decide
/// alone where a pawn may be taken en passant, and which squares are
/// occupied.
proof fn lemma_counters_apart(a: BoardState, b: BoardState)
    requires
        a.masks == b.masks,
        a.active_color == b.active_color,
        a.last_move == b.last_move,
    ensures
        a.en_passant_square() == b.en_passant_square(),
        a.occupancy() == b.occupancy(),
{
    if a.last_move is Some {
        lemma_same_holder(a, b, a.last_move->0.to.index(), 0);
    }
}

/// Positions with the same piece sets have the same piece on every square.
proof fn lemma_same_holder(a: BoardState, b: BoardState, sq: int, from: int)
    requires
        a.masks == b.masks,
    ensures
        a.holder(sq, from) == b.holder(sq, from),
    decreases 12 - from,
{
    if 0 <= from < 12 {
        lemma_same_holder(a, b, sq, from + 1);
    }
}

} // verus!
