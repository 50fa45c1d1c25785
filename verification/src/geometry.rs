//! The geometry of the board: which squares a piece reaches from a square.
//!
//! Everything here is stated over rank and file indices, so that no wrap
//! around an edge of the board can occur: a square off the board
//! contributes the empty set.
use vstd::prelude::*;
use crate::piece::Color;
use crate::bits::{bit_at, single, group_bits, lemma_or_laws};

verus! {

/// Rank `r` and file `f` name a square of the board.
pub open spec fn on_board(r: int, f: int) -> bool {
    0 <= r < 8 && 0 <= f < 8
}

/// The set that holds the square on rank `r` and file `f` alone, or nothing
/// when that square is off the board.
pub open spec fn square_bit(r: int, f: int) -> u64 {
    if on_board(r, f) {
        single(8 * r + f)
    } else {
        0
    }
}

/// The squares a knight's jump away from square `sq`.
pub open spec fn knight_mask(sq: int) -> u64 {
    let r = sq / 8;
    let f = sq % 8;
    square_bit(r + 2, f - 1) | square_bit(r + 2, f + 1) | square_bit(r + 1, f - 2) | square_bit(
        r + 1,
        f + 2,
    ) | square_bit(r - 1, f - 2) | square_bit(r - 1, f + 2) | square_bit(r - 2, f - 1)
        | square_bit(r - 2, f + 1)
}

/// The squares one step away from square `sq`, in any of the eight directions.
pub open spec fn king_mask(sq: int) -> u64 {
    let r = sq / 8;
    let f = sq % 8;
    square_bit(r + 1, f) | square_bit(r, f + 1) | square_bit(r - 1, f) | square_bit(r, f - 1)
        | square_bit(r + 1, f - 1) | square_bit(r + 1, f + 1) | square_bit(r - 1, f + 1)
        | square_bit(r - 1, f - 1)
}

/// Where a white pawn on square `sq` may be pushed on an empty board: one
/// rank up, and from the second rank also two. Empty for the first and the
/// last rank.
pub open spec fn white_pawn_pushes(sq: int) -> u64 {
    if 8 <= sq < 16 {
        single(sq + 8) | single(sq + 16)
    } else if 16 <= sq < 56 {
        single(sq + 8)
    } else {
        0
    }
}

/// Where a black pawn on square `sq` may be pushed on an empty board: one
/// rank down, and from the seventh rank also two. Empty for the first and
/// the last rank.
pub open spec fn black_pawn_pushes(sq: int) -> u64 {
    if 48 <= sq < 56 {
        single(sq - 8) | single(sq - 16)
    } else if 8 <= sq < 48 {
        single(sq - 8)
    } else {
        0
    }
}

/// The squares a white pawn on square `sq` attacks: diagonally one rank up.
/// Empty for the first and the last rank.
pub open spec fn white_pawn_captures(sq: int) -> u64 {
    if 8 <= sq < 56 {
        square_bit(sq / 8 + 1, sq % 8 + 1) | square_bit(sq / 8 + 1, sq % 8 - 1)
    } else {
        0
    }
}

/// The squares a black pawn on square `sq` attacks: diagonally one rank
/// down. Empty for the first and the last rank.
pub open spec fn black_pawn_captures(sq: int) -> u64 {
    if 8 <= sq < 56 {
        square_bit(sq / 8 - 1, sq % 8 - 1) | square_bit(sq / 8 - 1, sq % 8 + 1)
    } else {
        0
    }
}

/// Where a pawn of `color` on square `sq` may be pushed on an empty board.
pub open spec fn pawn_pushes(color: Color, sq: int) -> u64 {
    match color {
        Color::White => white_pawn_pushes(sq),
        Color::Black => black_pawn_pushes(sq),
    }
}

/// The squares a pawn of `color` on square `sq` attacks.
pub open spec fn pawn_captures(color: Color, sq: int) -> u64 {
    match color {
        Color::White => white_pawn_captures(sq),
        Color::Black => black_pawn_captures(sq),
    }
}

/// `(dr, df)` is one step in one of the eight directions.
pub open spec fn is_step(dr: int, df: int) -> bool {
    -1 <= dr <= 1 && -1 <= df <= 1 && !(dr == 0 && df == 0)
}

/// How many steps `(dr, df)` can be taken from `(r, f)` before the board ends,
/// counted along the coordinate that the step changes.
pub open spec fn room(r: int, f: int, dr: int, df: int) -> int {
    if dr == 1 {
        7 - r
    } else if dr == -1 {
        r
    } else if df == 1 {
        7 - f
    } else {
        f
    }
}

/// The squares reached from `(r, f)` by walking in steps of `(dr, df)`: every
/// square up to and including the first one in `blockers`, or up to the edge
/// of the board. The square `(r, f)` itself is not part of it.
pub open spec fn ray(r: int, f: int, dr: int, df: int, blockers: u64) -> u64
    decreases room(r, f, dr, df),
{
    if is_step(dr, df) && on_board(r, f) && on_board(r + dr, f + df) {
        let b = single(8 * (r + dr) + (f + df));
        if blockers & b != 0 {
            b
        } else {
            b | ray(r + dr, f + df, dr, df, blockers)
        }
    } else {
        0
    }
}

/// The squares a rook on square `sq` attacks when `blockers` are the
/// occupied squares.
pub open spec fn rook_attacks(sq: int, blockers: u64) -> u64 {
    let r = sq / 8;
    let f = sq % 8;
    ray(r, f, 1, 0, blockers) | ray(r, f, 0, 1, blockers) | ray(r, f, -1, 0, blockers) | ray(
        r,
        f,
        0,
        -1,
        blockers,
    )
}

/// The squares a bishop on square `sq` attacks when `blockers` are the
/// occupied squares.
pub open spec fn bishop_attacks(sq: int, blockers: u64) -> u64 {
    let r = sq / 8;
    let f = sq % 8;
    ray(r, f, 1, -1, blockers) | ray(r, f, 1, 1, blockers) | ray(r, f, -1, 1, blockers) | ray(
        r,
        f,
        -1,
        -1,
        blockers,
    )
}

/// The eighth rank.
pub const TOP_EDGE_MASK: u64 = 0xff00_0000_0000_0000;

/// The first rank.
pub const BOTTOM_EDGE_MASK: u64 = 0x0000_0000_0000_00ff;

/// The a-file.
pub const LEFT_EDGE_MASK: u64 = 0x0101_0101_0101_0101;

/// The h-file.
pub const RIGHT_EDGE_MASK: u64 = 0x8080_8080_8080_8080;

/// The edges of the board that square `sq` does not lie on.
pub open spec fn far_edges(sq: int) -> u64 {
    let r = sq / 8;
    let f = sq % 8;
    (if r != 0 {
        BOTTOM_EDGE_MASK
    } else {
        0
    }) | (if r != 7 {
        TOP_EDGE_MASK
    } else {
        0
    }) | (if f != 0 {
        LEFT_EDGE_MASK
    } else {
        0
    }) | (if f != 7 {
        RIGHT_EDGE_MASK
    } else {
        0
    })
}

/// The coordinate change of `k` steps of `d`, for `d` in `-1..=1`.
pub open spec fn times(d: int, k: int) -> int {
    if d == 1 {
        k
    } else if d == -1 {
        -k
    } else {
        0
    }
}

proof fn lemma_edge_bits(i: u64)
    by (bit_vector)
    requires
        i < 64,
    ensures
        (TOP_EDGE_MASK & (1u64 << i) != 0) == (i >= 56),
        (BOTTOM_EDGE_MASK & (1u64 << i) != 0) == (i < 8),
        (LEFT_EDGE_MASK & (1u64 << i) != 0) == (i % 8 == 0),
        (RIGHT_EDGE_MASK & (1u64 << i) != 0) == (i % 8 == 7),
{
}

/// A square belongs to `far_edges(sq)` exactly when it lies on an edge of
/// the board that `sq` does not lie on.
pub proof fn lemma_far_edges_bits(sq: int, i: int)
    requires
        0 <= sq < 64,
    ensures
        bit_at(far_edges(sq), i) <==> 0 <= i < 64 && ((sq / 8 != 0 && i / 8 == 0) || (sq / 8 != 7
            && i / 8 == 7) || (sq % 8 != 0 && i % 8 == 0) || (sq % 8 != 7 && i % 8 == 7)),
{
    broadcast use group_bits;

    if 0 <= i < 64 {
        lemma_edge_bits(i as u64);
    }
}

/// On an empty board a ray holds every square of the board that lies a
/// whole number of steps along it.
pub proof fn lemma_ray_empty_has(r: int, f: int, dr: int, df: int, k: int)
    requires
        is_step(dr, df),
        on_board(r, f),
        k >= 1,
        on_board(r + times(dr, k), f + times(df, k)),
    ensures
        bit_at(ray(r, f, dr, df, 0), 8 * (r + times(dr, k)) + (f + times(df, k))),
    decreases k,
{
    broadcast use group_bits;

    let b = single(8 * (r + dr) + (f + df));
    assert(on_board(r + dr, f + df));
    assert(0u64 & b == 0) by (bit_vector);
    if k > 1 {
        lemma_ray_empty_has(r + dr, f + df, dr, df, k - 1);
    }
}

/// A ray does not change when blockers are dropped from squares that end
/// it anyway: if `keep` holds every square of the ray from `(r0, f0)` that
/// has a further square of the board behind it, then masking the blockers
/// with `keep` leaves the ray from any square along it as it was.
pub proof fn lemma_ray_masked(
    r0: int,
    f0: int,
    dr: int,
    df: int,
    k: int,
    blockers: u64,
    keep: u64,
)
    requires
        is_step(dr, df),
        on_board(r0, f0),
        k >= 0,
        on_board(r0 + times(dr, k), f0 + times(df, k)),
        forall|j: int|
            j >= 1 && on_board(r0 + times(dr, j + 1), f0 + times(df, j + 1)) ==> bit_at(
                keep,
                #[trigger] (8 * (r0 + times(dr, j)) + (f0 + times(df, j))),
            ),
    ensures
        ray(r0 + times(dr, k), f0 + times(df, k), dr, df, blockers & keep) == ray(
            r0 + times(dr, k),
            f0 + times(df, k),
            dr,
            df,
            blockers,
        ),
    decreases room(r0 + times(dr, k), f0 + times(df, k), dr, df),
{
    broadcast use group_bits;

    let r = r0 + times(dr, k);
    let f = f0 + times(df, k);
    if on_board(r + dr, f + df) {
        let i = 8 * (r + dr) + (f + df);
        let b = single(i);
        assert(r + dr == r0 + times(dr, k + 1) && f + df == f0 + times(df, k + 1));
        assert(((blockers & keep) & b != 0) == bit_at(blockers & keep, i));
        assert((blockers & b != 0) == bit_at(blockers, i));
        lemma_or_laws(b, 0, 0);
        if on_board(r + dr + dr, f + df + df) {
            assert(r + dr + dr == r0 + times(dr, k + 2) && f + df + df == f0 + times(df, k + 2));
            assert(bit_at(keep, 8 * (r0 + times(dr, k + 1)) + (f0 + times(df, k + 1))));
            lemma_ray_masked(r0, f0, dr, df, k + 1, blockers, keep);
        } else {
            assert(ray(r + dr, f + df, dr, df, blockers) == 0);
            assert(ray(r + dr, f + df, dr, df, blockers & keep) == 0);
        }
    }
}

/// Every square of a ray on an empty board that has a further square of the
/// board behind it lies on no edge that the ray's origin does not lie on.
pub proof fn lemma_inner_ray_off_far_edges(r0: int, f0: int, dr: int, df: int, j: int)
    requires
        is_step(dr, df),
        on_board(r0, f0),
        j >= 1,
        on_board(r0 + times(dr, j + 1), f0 + times(df, j + 1)),
    ensures
        on_board(r0 + times(dr, j), f0 + times(df, j)),
        !bit_at(far_edges(8 * r0 + f0), 8 * (r0 + times(dr, j)) + (f0 + times(df, j))),
{
    lemma_far_edges_bits(8 * r0 + f0, 8 * (r0 + times(dr, j)) + (f0 + times(df, j)));
}

/// Blockers on the far edges of the board never change what a rook
/// attacks: its rays end there anyway.
pub proof fn lemma_rook_relevant(sq: int, blockers: u64)
    requires
        0 <= sq < 64,
    ensures
        rook_attacks(sq, blockers & (rook_attacks(sq, 0) & !far_edges(sq))) == rook_attacks(
            sq,
            blockers,
        ),
{
    broadcast use group_bits;

    let r = sq / 8;
    let f = sq % 8;
    let keep = rook_attacks(sq, 0) & !far_edges(sq);
    lemma_keep(sq, 1, 0, rook_attacks(sq, 0));
    lemma_keep(sq, 0, 1, rook_attacks(sq, 0));
    lemma_keep(sq, -1, 0, rook_attacks(sq, 0));
    lemma_keep(sq, 0, -1, rook_attacks(sq, 0));
    lemma_ray_masked(r, f, 1, 0, 0, blockers, keep);
    lemma_ray_masked(r, f, 0, 1, 0, blockers, keep);
    lemma_ray_masked(r, f, -1, 0, 0, blockers, keep);
    lemma_ray_masked(r, f, 0, -1, 0, blockers, keep);
}

/// Blockers on the far edges of the board never change what a bishop
/// attacks: its rays end there anyway.
pub proof fn lemma_bishop_relevant(sq: int, blockers: u64)
    requires
        0 <= sq < 64,
    ensures
        bishop_attacks(sq, blockers & (bishop_attacks(sq, 0) & !far_edges(sq))) == bishop_attacks(
            sq,
            blockers,
        ),
{
    broadcast use group_bits;

    let r = sq / 8;
    let f = sq % 8;
    let keep = bishop_attacks(sq, 0) & !far_edges(sq);
    lemma_keep(sq, 1, -1, bishop_attacks(sq, 0));
    lemma_keep(sq, 1, 1, bishop_attacks(sq, 0));
    lemma_keep(sq, -1, 1, bishop_attacks(sq, 0));
    lemma_keep(sq, -1, -1, bishop_attacks(sq, 0));
    lemma_ray_masked(r, f, 1, -1, 0, blockers, keep);
    lemma_ray_masked(r, f, 1, 1, 0, blockers, keep);
    lemma_ray_masked(r, f, -1, 1, 0, blockers, keep);
    lemma_ray_masked(r, f, -1, -1, 0, blockers, keep);
}

/// If `all` holds the ray from `sq` in direction `(dr, df)` on an empty
/// board, then `all` without the far edges still holds every square of that
/// ray that has a further square of the board behind it.
proof fn lemma_keep(sq: int, dr: int, df: int, all: u64)
    requires
        0 <= sq < 64,
        is_step(dr, df),
        forall|i: int| bit_at(ray(sq / 8, sq % 8, dr, df, 0), i) ==> bit_at(all, i),
    ensures
        forall|j: int|
            j >= 1 && on_board(sq / 8 + times(dr, j + 1), sq % 8 + times(df, j + 1)) ==> bit_at(
                all & !far_edges(sq),
                #[trigger] (8 * (sq / 8 + times(dr, j)) + (sq % 8 + times(df, j))),
            ),
{
    broadcast use group_bits;

    let r = sq / 8;
    let f = sq % 8;
    assert forall|j: int|
        j >= 1 && on_board(r + times(dr, j + 1), f + times(df, j + 1)) implies bit_at(
        all & !far_edges(sq),
        #[trigger] (8 * (r + times(dr, j)) + (f + times(df, j))),
    ) by {
        lemma_inner_ray_off_far_edges(r, f, dr, df, j);
        lemma_ray_empty_has(r, f, dr, df, j);
    }
}

/// A rook attacks at least one square, whatever the blockers.
pub proof fn lemma_rook_attacks_nonzero(sq: int, blockers: u64)
    requires
        0 <= sq < 64,
    ensures
        rook_attacks(sq, blockers) != 0,
{
    broadcast use group_bits;

    let r = sq / 8;
    let f = sq % 8;
    if r < 7 {
        assert(bit_at(ray(r, f, 1, 0, blockers), 8 * (r + 1) + f));
        assert(bit_at(rook_attacks(sq, blockers), 8 * (r + 1) + f));
    } else {
        assert(bit_at(ray(r, f, -1, 0, blockers), 8 * (r - 1) + f));
        assert(bit_at(rook_attacks(sq, blockers), 8 * (r - 1) + f));
    }
}

/// A bishop attacks at least one square, whatever the blockers.
pub proof fn lemma_bishop_attacks_nonzero(sq: int, blockers: u64)
    requires
        0 <= sq < 64,
    ensures
        bishop_attacks(sq, blockers) != 0,
{
    broadcast use group_bits;

    let r = sq / 8;
    let f = sq % 8;
    let dr: int = if r < 7 { 1 } else { -1 };
    let df: int = if f < 7 { 1 } else { -1 };
    assert(bit_at(ray(r, f, dr, df, blockers), 8 * (r + dr) + (f + df)));
    assert(bit_at(bishop_attacks(sq, blockers), 8 * (r + dr) + (f + df)));
}

/// The index of the square `k` steps of `(dr, df)` away from `(r, f)`.
pub open spec fn along(r: int, f: int, dr: int, df: int, k: int) -> int {
    8 * (r + times(dr, k)) + (f + times(df, k))
}

/// No blocker stands on any of the first `k - 1` squares of the walk from
/// `(r, f)` in steps of `(dr, df)`.
pub open spec fn clear_run(r: int, f: int, dr: int, df: int, k: int, blockers: u64) -> bool {
    forall|j: int| 1 <= j < k ==> !bit_at(blockers, #[trigger] along(r, f, dr, df, j))
}

/// The square `t` is the one `k` steps along the walk, it lies on the
/// board, and no blocker stands before it.
pub open spec fn reached_in(
    r: int,
    f: int,
    dr: int,
    df: int,
    blockers: u64,
    t: int,
    k: int,
) -> bool {
    &&& 1 <= k < 8
    &&& on_board(r + times(dr, k), f + times(df, k))
    &&& t == along(r, f, dr, df, k)
    &&& clear_run(r, f, dr, df, k, blockers)
}

/// What a ray holds: a square belongs to it exactly when it lies on the
/// board some steps along the walk and no blocker stands on a square
/// before it. So a ray never wraps around an edge, and it holds the first
/// blocker but nothing behind it.
pub proof fn lemma_ray_bits(r: int, f: int, dr: int, df: int, blockers: u64, t: int)
    requires
        is_step(dr, df),
        on_board(r, f),
    ensures
        bit_at(ray(r, f, dr, df, blockers), t) <==> exists|k: int|
            #[trigger] reached_in(r, f, dr, df, blockers, t, k),
    decreases room(r, f, dr, df),
{
    broadcast use group_bits;

    let r1 = r + dr;
    let f1 = f + df;
    if on_board(r1, f1) {
        let first = 8 * r1 + f1;
        assert(first == along(r, f, dr, df, 1));
        assert((blockers & single(first) != 0) == bit_at(blockers, first));
        lemma_ray_bits(r1, f1, dr, df, blockers, t);
        if bit_at(ray(r, f, dr, df, blockers), t) {
            if t == first {
                assert(reached_in(r, f, dr, df, blockers, t, 1));
            } else {
                let k = choose|k: int| #[trigger] reached_in(r1, f1, dr, df, blockers, t, k);
                assert forall|j: int| 1 <= j < k + 1 implies !bit_at(
                    blockers,
                    #[trigger] along(r, f, dr, df, j),
                ) by {
                    if j > 1 {
                        assert(along(r, f, dr, df, j) == along(r1, f1, dr, df, j - 1));
                    }
                }
                assert(along(r, f, dr, df, k + 1) == along(r1, f1, dr, df, k));
                assert(reached_in(r, f, dr, df, blockers, t, k + 1));
            }
        }
        if exists|k: int| #[trigger] reached_in(r, f, dr, df, blockers, t, k) {
            let k = choose|k: int| #[trigger] reached_in(r, f, dr, df, blockers, t, k);
            if k > 1 {
                assert(!bit_at(blockers, along(r, f, dr, df, 1)));
                assert forall|j: int| 1 <= j < k - 1 implies !bit_at(
                    blockers,
                    #[trigger] along(r1, f1, dr, df, j),
                ) by {
                    assert(along(r, f, dr, df, j + 1) == along(r1, f1, dr, df, j));
                }
                assert(along(r, f, dr, df, k) == along(r1, f1, dr, df, k - 1));
                assert(reached_in(r1, f1, dr, df, blockers, t, k - 1));
            }
        }
    } else {
        assert forall|k: int| !#[trigger] reached_in(r, f, dr, df, blockers, t, k) by {}
    }
}

/// The distance between two indices of ranks or files.
pub open spec fn gap(a: int, b: int) -> int {
    if a >= b {
        a - b
    } else {
        b - a
    }
}

/// A knight reaches exactly the squares that lie one rank and two files
/// away, or two ranks and one file.
pub proof fn lemma_knight_mask_bits(sq: int, t: int)
    requires
        0 <= sq < 64,
    ensures
        bit_at(knight_mask(sq), t) <==> 0 <= t < 64 && ((gap(t / 8, sq / 8) == 1 && gap(
            t % 8,
            sq % 8,
        ) == 2) || (gap(t / 8, sq / 8) == 2 && gap(t % 8, sq % 8) == 1)),
{
    broadcast use group_bits;

}

/// A king reaches exactly the other squares that lie at most one rank and
/// one file away.
pub proof fn lemma_king_mask_bits(sq: int, t: int)
    requires
        0 <= sq < 64,
    ensures
        bit_at(king_mask(sq), t) <==> 0 <= t < 64 && t != sq && gap(t / 8, sq / 8) <= 1 && gap(
            t % 8,
            sq % 8,
        ) <= 1,
{
    broadcast use group_bits;

}

/// A walk and the walk back pass over the same squares: if nothing blocks
/// the way from one square to another `k` steps away, nothing blocks the way
/// back.
pub proof fn lemma_walk_back(r: int, f: int, dr: int, df: int, blockers: u64, k: int)
    requires
        is_step(dr, df),
        on_board(r, f),
        1 <= k < 8,
        on_board(r + times(dr, k), f + times(df, k)),
        clear_run(r, f, dr, df, k, blockers),
    ensures
        clear_run(r + times(dr, k), f + times(df, k), -dr, -df, k, blockers),
        along(r + times(dr, k), f + times(df, k), -dr, -df, k) == 8 * r + f,
{
    let r2 = r + times(dr, k);
    let f2 = f + times(df, k);
    assert forall|j: int| 1 <= j < k implies !bit_at(
        blockers,
        #[trigger] along(r2, f2, -dr, -df, j),
    ) by {
        assert(along(r2, f2, -dr, -df, j) == along(r, f, dr, df, k - j));
    }
}

/// If a ray from `a` holds `b`, the ray from `b` in the opposite direction
/// holds `a`.
pub proof fn lemma_ray_back(a: int, b: int, dr: int, df: int, blockers: u64)
    requires
        is_step(dr, df),
        0 <= a < 64,
        bit_at(ray(a / 8, a % 8, dr, df, blockers), b),
    ensures
        0 <= b < 64,
        bit_at(ray(b / 8, b % 8, -dr, -df, blockers), a),
{
    let r = a / 8;
    let f = a % 8;
    lemma_ray_bits(r, f, dr, df, blockers, b);
    let k = choose|k: int| #[trigger] reached_in(r, f, dr, df, blockers, b, k);
    let r2 = r + times(dr, k);
    let f2 = f + times(df, k);
    assert(b / 8 == r2 && b % 8 == f2);
    lemma_walk_back(r, f, dr, df, blockers, k);
    assert(reached_in(r2, f2, -dr, -df, blockers, a, k));
    lemma_ray_bits(r2, f2, -dr, -df, blockers, a);
}

/// A rook on `a` attacks `b` exactly when a rook on `b` would attack `a`.
pub proof fn lemma_rook_attacks_symmetric(a: int, b: int, blockers: u64)
    requires
        0 <= a < 64,
        0 <= b < 64,
    ensures
        bit_at(rook_attacks(a, blockers), b) == bit_at(rook_attacks(b, blockers), a),
{
    broadcast use group_bits;

    lemma_rook_attacks_back(a, b, blockers);
    lemma_rook_attacks_back(b, a, blockers);
}

proof fn lemma_rook_attacks_back(a: int, b: int, blockers: u64)
    requires
        0 <= a < 64,
        0 <= b < 64,
    ensures
        bit_at(rook_attacks(a, blockers), b) ==> bit_at(rook_attacks(b, blockers), a),
{
    broadcast use group_bits;

    let r = a / 8;
    let f = a % 8;
    if bit_at(ray(r, f, 1, 0, blockers), b) {
        lemma_ray_back(a, b, 1, 0, blockers);
    }
    if bit_at(ray(r, f, 0, 1, blockers), b) {
        lemma_ray_back(a, b, 0, 1, blockers);
    }
    if bit_at(ray(r, f, -1, 0, blockers), b) {
        lemma_ray_back(a, b, -1, 0, blockers);
    }
    if bit_at(ray(r, f, 0, -1, blockers), b) {
        lemma_ray_back(a, b, 0, -1, blockers);
    }
}

/// A bishop on `a` attacks `b` exactly when a bishop on `b` would attack
/// `a`.
pub proof fn lemma_bishop_attacks_symmetric(a: int, b: int, blockers: u64)
    requires
        0 <= a < 64,
        0 <= b < 64,
    ensures
        bit_at(bishop_attacks(a, blockers), b) == bit_at(bishop_attacks(b, blockers), a),
{
    broadcast use group_bits;

    lemma_bishop_attacks_back(a, b, blockers);
    lemma_bishop_attacks_back(b, a, blockers);
}

proof fn lemma_bishop_attacks_back(a: int, b: int, blockers: u64)
    requires
        0 <= a < 64,
        0 <= b < 64,
    ensures
        bit_at(bishop_attacks(a, blockers), b) ==> bit_at(bishop_attacks(b, blockers), a),
{
    broadcast use group_bits;

    let r = a / 8;
    let f = a % 8;
    if bit_at(ray(r, f, 1, -1, blockers), b) {
        lemma_ray_back(a, b, 1, -1, blockers);
    }
    if bit_at(ray(r, f, 1, 1, blockers), b) {
        lemma_ray_back(a, b, 1, 1, blockers);
    }
    if bit_at(ray(r, f, -1, 1, blockers), b) {
        lemma_ray_back(a, b, -1, 1, blockers);
    }
    if bit_at(ray(r, f, -1, -1, blockers), b) {
        lemma_ray_back(a, b, -1, -1, blockers);
    }
}

} // verus!
