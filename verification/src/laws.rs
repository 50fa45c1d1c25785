//! What holds of every position and every game.
use vstd::prelude::*;
use crate::bits::{
    bit_at, single, disjoint, submask, group_bits, lemma_disjoint_bits, lemma_nonzero_bit,
};
use crate::board::{
    BoardState, CastleDirection, SpecialMove, castle_target, king_home, made, rook_home,
    rook_transit, unmade,
};
use crate::geometry::{
    bishop_attacks, king_mask, knight_mask, lemma_bishop_attacks_symmetric, lemma_king_mask_bits,
    lemma_knight_mask_bits, lemma_rook_attacks_symmetric, pawn_captures, pawn_pushes,
    rook_attacks,
};
use crate::mask::Mask;
use crate::move_gen::{Direction, MagicEntry, collides, table_sound, lemma_table_lookup};
use crate::moves::Move;
use crate::piece::{Color, Piece};

verus! {

/// The piece that `holder` finds from set `from` on stands in the first set,
/// counting from there, that holds the square; it finds none only if none of
/// those sets holds the square.
pub proof fn lemma_holder(s: BoardState, sq: int, from: int)
    requires
        0 <= from <= 12,
    ensures
        match s.holder(sq, from) {
            Some(p) => from <= p.slot() < 12 && bit_at(s.masks[p.slot()].0, sq) && forall|j: int|
                from <= j < p.slot() ==> !bit_at(#[trigger] s.masks[j].0, sq),
            None => forall|j: int| from <= j < 12 ==> !bit_at(#[trigger] s.masks[j].0, sq),
        },
    decreases 12 - from,
{
    if from < 12 {
        Piece::lemma_of_slot(from);
        lemma_holder(s, sq, from + 1);
    }
}

/// Where no square holds two pieces, a piece stands on a square exactly when
/// its set holds the square.
pub proof fn lemma_piece_on(s: BoardState, sq: int)
    requires
        s.single_occupancy(),
    ensures
        forall|k: int|
            0 <= k < 12 ==> (bit_at(#[trigger] s.masks[k].0, sq) <==> s.piece_on(sq) == Piece::of_slot(
                k,
            )),
        s.piece_on(sq) is Some ==> 0 <= s.piece_on(sq)->0.slot() < 12,
{
    lemma_holder(s, sq, 0);
    assert forall|k: int| 0 <= k < 12 implies (bit_at(#[trigger] s.masks[k].0, sq) <==> s.piece_on(
        sq,
    ) == Piece::of_slot(k)) by {
        Piece::lemma_of_slot(k);
        match s.piece_on(sq) {
            Some(p) => {
                p.lemma_slot();
                if bit_at(s.masks[k].0, sq) && k != p.slot() {
                    if k < p.slot() {
                        assert(disjoint(s.masks[k].0, s.masks[p.slot()].0));
                    } else {
                        assert(disjoint(s.masks[p.slot()].0, s.masks[k].0));
                    }
                    lemma_disjoint_bits(s.masks[k].0, s.masks[p.slot()].0);
                    lemma_disjoint_bits(s.masks[p.slot()].0, s.masks[k].0);
                }
            },
            None => {},
        }
    }
}

/// A square is occupied exactly when one of the twelve sets holds it, and
/// occupied by a side exactly when one of that side's six sets holds it.
pub proof fn lemma_occupancy(s: BoardState, sq: int)
    ensures
        bit_at(s.occupancy(), sq) <==> exists|k: int|
            0 <= k < 12 && bit_at(#[trigger] s.masks[k].0, sq),
        bit_at(s.white_occupancy(), sq) <==> exists|k: int|
            0 <= k < 6 && bit_at(#[trigger] s.masks[k].0, sq),
        bit_at(s.black_occupancy(), sq) <==> exists|k: int|
            6 <= k < 12 && bit_at(#[trigger] s.masks[k].0, sq),
{
    broadcast use group_bits;

    if bit_at(s.white_occupancy(), sq) {
        assert(bit_at(s.masks[0].0, sq) || bit_at(s.masks[1].0, sq) || bit_at(s.masks[2].0, sq)
            || bit_at(s.masks[3].0, sq) || bit_at(s.masks[4].0, sq) || bit_at(s.masks[5].0, sq));
    }
    if bit_at(s.black_occupancy(), sq) {
        assert(bit_at(s.masks[6].0, sq) || bit_at(s.masks[7].0, sq) || bit_at(s.masks[8].0, sq)
            || bit_at(s.masks[9].0, sq) || bit_at(s.masks[10].0, sq) || bit_at(s.masks[11].0, sq));
    }
}

/// What a pseudolegal move is made of: a piece of the side to move
/// stands on the square it leaves, the square it reaches is one that the
/// piece reaches, and no piece of that side stands there.
pub proof fn lemma_pseudolegal(s: BoardState, mv: Move)
    requires
        s.single_occupancy(),
        s.pseudolegal(mv),
    ensures
        s.piece_on(mv.from.index()) is Some,
        s.piece_on(mv.from.index())->0.side() == s.active_color,
        bit_at(s.reach(mv.from.index(), s.piece_on(mv.from.index())->0), mv.to.index()),
        forall|k: int|
            s.active_color.base() <= k < s.active_color.base() + 6 ==> !bit_at(
                #[trigger] s.masks[k].0,
                mv.to.index(),
            ),
        mv.from.index() != mv.to.index(),
        bit_at(s.masks[s.piece_on(mv.from.index())->0.slot()].0, mv.from.index()),
{
    broadcast use group_bits;

    let from = mv.from.index();
    let to = mv.to.index();
    mv.from.lemma_index();
    mv.to.lemma_index();
    lemma_occupancy(s, to);
    lemma_piece_on(s, from);
    let mover = s.piece_on(from)->0;
    mover.lemma_slot();
}

/// A pseudolegal move that is not special leaves no square with two
/// pieces.
proof fn lemma_step_keeps(s: BoardState, mv: Move)
    requires
        s.wf(),
        s.pseudolegal(mv),
        s.special_move(mv) is None,
    ensures
        s.after(mv).single_occupancy(),
{
    let a = s.after(mv);
    let from = mv.from.index();
    let to = mv.to.index();
    mv.from.lemma_index();
    mv.to.lemma_index();
    lemma_pseudolegal(s, mv);
    let mover = s.piece_on(from)->0;
    mover.lemma_slot();
    assert forall|i: int, j: int| 0 <= i < j < 12 implies disjoint(
        (#[trigger] a.masks[i]).0,
        (#[trigger] a.masks[j]).0,
    ) by {
        assert forall|sq: int| !(bit_at(a.masks[i].0, sq) && bit_at(a.masks[j].0, sq)) by {
            broadcast use group_bits;

            lemma_piece_on(s, sq);
            lemma_piece_on(s, to);
            assert(disjoint(s.masks[i].0, s.masks[j].0));
            lemma_disjoint_bits(s.masks[i].0, s.masks[j].0);
        }
        lemma_disjoint_bits(a.masks[i].0, a.masks[j].0);
    }
}

/// A pseudolegal promotion leaves no square with two pieces.
proof fn lemma_promotion_keeps(s: BoardState, mv: Move)
    requires
        s.wf(),
        s.pseudolegal(mv),
        s.special_move(mv) == Some(SpecialMove::Promotion),
    ensures
        s.after(mv).single_occupancy(),
{
    let a = s.after(mv);
    let from = mv.from.index();
    let to = mv.to.index();
    mv.from.lemma_index();
    mv.to.lemma_index();
    lemma_pseudolegal(s, mv);
    let mover = s.piece_on(from)->0;
    mover.lemma_slot();
    assert forall|i: int, j: int| 0 <= i < j < 12 implies disjoint(
        (#[trigger] a.masks[i]).0,
        (#[trigger] a.masks[j]).0,
    ) by {
        assert forall|sq: int| !(bit_at(a.masks[i].0, sq) && bit_at(a.masks[j].0, sq)) by {
            broadcast use group_bits;

            lemma_piece_on(s, sq);
            lemma_piece_on(s, to);
            assert(disjoint(s.masks[i].0, s.masks[j].0));
            lemma_disjoint_bits(s.masks[i].0, s.masks[j].0);
        }
        lemma_disjoint_bits(a.masks[i].0, a.masks[j].0);
    }
}

/// A pseudolegal capture en passant leaves no square with two pieces.
proof fn lemma_en_passant_keeps(s: BoardState, mv: Move)
    requires
        s.wf(),
        s.pseudolegal(mv),
        s.special_move(mv) == Some(SpecialMove::EnPassant),
    ensures
        s.after(mv).single_occupancy(),
{
    let a = s.after(mv);
    let from = mv.from.index();
    let to = mv.to.index();
    mv.from.lemma_index();
    mv.to.lemma_index();
    lemma_pseudolegal(s, mv);
    lemma_occupancy(s, to);
    let mover = s.piece_on(from)->0;
    mover.lemma_slot();
    assert forall|i: int, j: int| 0 <= i < j < 12 implies disjoint(
        (#[trigger] a.masks[i]).0,
        (#[trigger] a.masks[j]).0,
    ) by {
        assert forall|sq: int| !(bit_at(a.masks[i].0, sq) && bit_at(a.masks[j].0, sq)) by {
            broadcast use group_bits;

            lemma_piece_on(s, sq);
            assert(disjoint(s.masks[i].0, s.masks[j].0));
            lemma_disjoint_bits(s.masks[i].0, s.masks[j].0);
        }
        lemma_disjoint_bits(a.masks[i].0, a.masks[j].0);
    }
}

/// A pseudolegal move of a king by two files is a castling move: the king
/// leaves its home square for the castling square of the side it moves
/// towards, and the way is free.
proof fn lemma_castle_is_offered(s: BoardState, mv: Move, direction: CastleDirection)
    requires
        s.wf(),
        s.pseudolegal(mv),
        s.special_move(mv) == Some(SpecialMove::Castle(direction)),
    ensures
        s.piece_on(mv.from.index()) == Some(Piece::King(s.active_color)),
        mv.from.index() == king_home(s.active_color),
        mv.to.index() == castle_target(s.active_color, direction),
        s.may_castle(s.active_color, direction),
{
    broadcast use group_bits;

    let from = mv.from.index();
    let to = mv.to.index();
    mv.from.lemma_index();
    mv.to.lemma_index();
    lemma_pseudolegal(s, mv);
    let color = s.active_color;
    lemma_king_mask_bits(from, to);
}

/// A pseudolegal castling move leaves no square with two pieces.
proof fn lemma_castle_keeps(s: BoardState, mv: Move, direction: CastleDirection)
    requires
        s.wf(),
        s.pseudolegal(mv),
        s.special_move(mv) == Some(SpecialMove::Castle(direction)),
    ensures
        s.after(mv).single_occupancy(),
{
    let a = s.after(mv);
    let from = mv.from.index();
    let to = mv.to.index();
    let color = s.active_color;
    mv.from.lemma_index();
    mv.to.lemma_index();
    lemma_pseudolegal(s, mv);
    lemma_castle_is_offered(s, mv, direction);
    lemma_occupancy(s, to);
    lemma_occupancy(s, rook_transit(color, direction));
    assert forall|i: int, j: int| 0 <= i < j < 12 implies disjoint(
        (#[trigger] a.masks[i]).0,
        (#[trigger] a.masks[j]).0,
    ) by {
        assert forall|sq: int| !(bit_at(a.masks[i].0, sq) && bit_at(a.masks[j].0, sq)) by {
            broadcast use group_bits;

            lemma_piece_on(s, sq);
            assert(disjoint(s.masks[i].0, s.masks[j].0));
            lemma_disjoint_bits(s.masks[i].0, s.masks[j].0);
        }
        lemma_disjoint_bits(a.masks[i].0, a.masks[j].0);
    }
}

/// No pseudolegal move puts two pieces on one square.
pub proof fn lemma_pseudolegal_keeps_single_occupancy(s: BoardState, mv: Move)
    requires
        s.wf(),
        s.pseudolegal(mv),
    ensures
        s.after(mv).single_occupancy(),
{
    match s.special_move(mv) {
        Some(SpecialMove::EnPassant) => lemma_en_passant_keeps(s, mv),
        Some(SpecialMove::Castle(direction)) => lemma_castle_keeps(s, mv, direction),
        Some(SpecialMove::Promotion) => lemma_promotion_keeps(s, mv),
        None => lemma_step_keeps(s, mv),
    }
}

/// A pawn is pushed straight ahead, by one rank, or by two from its
/// starting rank.
pub proof fn lemma_pawn_pushes(color: Color, sq: int, t: int)
    requires
        0 <= sq < 64,
        bit_at(pawn_pushes(color, sq), t),
    ensures
        0 <= t < 64,
        color == Color::White ==> t == sq + 8 || (sq / 8 == 1 && t == sq + 16),
        color == Color::Black ==> t == sq - 8 || (sq / 8 == 6 && t == sq - 16),
{
    broadcast use group_bits;

}

/// A pawn attacks one rank ahead and one file to the side.
pub proof fn lemma_pawn_captures(color: Color, sq: int, t: int)
    requires
        0 <= sq < 64,
        bit_at(pawn_captures(color, sq), t),
    ensures
        0 <= t < 64,
        t % 8 == sq % 8 + 1 || t % 8 == sq % 8 - 1,
        color == Color::White ==> t / 8 == sq / 8 + 1,
        color == Color::Black ==> t / 8 == sq / 8 - 1,
{
    broadcast use group_bits;

}

/// After a pseudolegal move, where a pawn may be taken en passant, the
/// square to take it on is empty: the pawn has just passed over it.
pub proof fn lemma_pseudolegal_keeps_en_passant_free(s: BoardState, mv: Move)
    requires
        s.wf(),
        s.pseudolegal(mv),
    ensures
        s.after(mv).en_passant_square() is Some ==> !bit_at(
            s.after(mv).occupancy(),
            s.after(mv).en_passant_square()->0,
        ),
{
    let a = s.after(mv);
    let from = mv.from.index();
    let to = mv.to.index();
    mv.from.lemma_index();
    mv.to.lemma_index();
    lemma_pseudolegal(s, mv);
    lemma_pseudolegal_keeps_single_occupancy(s, mv);
    let mover = s.piece_on(from)->0;
    let color = s.active_color;
    mover.lemma_slot();
    if a.en_passant_square() is Some {
        let target = a.en_passant_square()->0;
        lemma_piece_on(a, to);
        lemma_piece_on(s, to);
        lemma_occupancy(s, to);
        assert(bit_at(a.masks[a.piece_on(to)->0.slot()].0, to)) by {
            lemma_holder(a, to, 0);
        }
        match s.special_move(mv) {
            Some(SpecialMove::Promotion) => {
                assert(bit_at(s.mask_after(mv, Piece::Queen(color).slot()), to)) by {
                    broadcast use group_bits;

                }
                lemma_lands(s, mv, Piece::Queen(color).slot());
                assert(a.piece_on(to) == Some(Piece::Queen(color)));
            },
            Some(SpecialMove::Castle(direction)) => {
                lemma_castle_is_offered(s, mv, direction);
                assert(bit_at(s.mask_after(mv, mover.slot()), to)) by {
                    broadcast use group_bits;

                }
                lemma_lands(s, mv, mover.slot());
                assert(a.piece_on(to) == Some(Piece::King(color)));
            },
            Some(SpecialMove::EnPassant) => {
                lemma_pawn_step(s, mv);
                assert(mv.rank_distance() == 1);
            },
            None => {
                assert(bit_at(s.mask_after(mv, mover.slot()), to)) by {
                    broadcast use group_bits;

                }
                lemma_lands(s, mv, mover.slot());
                assert(a.piece_on(to) == Some(mover));
                lemma_pawn_step(s, mv);
                lemma_occupancy(s, target);
                lemma_occupancy(a, target);
                assert forall|k: int| 0 <= k < 12 implies !bit_at(
                    #[trigger] a.masks[k].0,
                    target,
                ) by {
                    broadcast use group_bits;

                }
            },
        }
    }
}

/// After a pseudolegal move, the piece of set `slot` stands on the square
/// reached if that set holds the square.
proof fn lemma_lands(s: BoardState, mv: Move, slot: int)
    requires
        s.wf(),
        s.pseudolegal(mv),
        0 <= slot < 12,
        bit_at(s.mask_after(mv, slot), mv.to.index()),
    ensures
        s.after(mv).piece_on(mv.to.index()) == Piece::of_slot(slot),
{
    lemma_pseudolegal_keeps_single_occupancy(s, mv);
    lemma_piece_on(s.after(mv), mv.to.index());
}

/// A pseudolegal pawn move by two ranks on one file is a double push from
/// the starting rank over an empty square to an empty square, and is not a
/// capture en passant; any other pseudolegal pawn move advances one rank.
proof fn lemma_pawn_step(s: BoardState, mv: Move)
    requires
        s.wf(),
        s.pseudolegal(mv),
        s.piece_on(mv.from.index())->0.kind() == 0,
    ensures
        mv.rank_distance() == 1 || mv.rank_distance() == 2,
        mv.rank_distance() == 2 ==> {
            &&& mv.file_distance() == 0
            &&& s.special_move(mv) is None
            &&& s.active_color == Color::White ==> mv.from.rank_index() == 1 && mv.to.index()
                == mv.from.index() + 16 && !bit_at(s.occupancy(), mv.from.index() + 8)
            &&& s.active_color == Color::Black ==> mv.from.rank_index() == 6 && mv.to.index()
                == mv.from.index() - 16 && !bit_at(s.occupancy(), mv.from.index() - 8)
        },
{
    broadcast use group_bits;

    let from = mv.from.index();
    let to = mv.to.index();
    let color = s.active_color;
    mv.from.lemma_index();
    mv.to.lemma_index();
    lemma_pseudolegal(s, mv);
    if bit_at(pawn_pushes(color, from), to) {
        lemma_pawn_pushes(color, from, to);
    }
    if bit_at(pawn_captures(color, from), to) {
        lemma_pawn_captures(color, from, to);
    }
    if s.en_passant_square() is Some {
        s.last_move->0.to.lemma_index();
    }
}

/// A pseudolegal move makes a sound position of a sound position: no
/// square holds two pieces afterwards, and the en-passant square, if there
/// is one, is empty.
pub proof fn lemma_pseudolegal_keeps_wf(s: BoardState, mv: Move)
    requires
        s.wf(),
        s.pseudolegal(mv),
    ensures
        s.piece_on(mv.from.index()) is Some,
        s.after(mv).wf(),
{
    lemma_pseudolegal(s, mv);
    lemma_pseudolegal_keeps_single_occupancy(s, mv);
    lemma_pseudolegal_keeps_en_passant_free(s, mv);
}

/// The position after `moves` are made one after the other, from `s` on. A
/// move that cannot be made, because no piece stands on the square it
/// leaves, changes nothing.
pub open spec fn play(s: BoardState, moves: Seq<Move>) -> BoardState
    decreases moves.len(),
{
    if moves.len() == 0 {
        s
    } else {
        let before = play(s, moves.drop_last());
        if before.piece_on(moves.last().from.index()) is Some {
            before.after(moves.last())
        } else {
            before
        }
    }
}

/// Every move of `moves` is pseudolegal in the position in which it is
/// made, when they are made one after the other from `s` on.
pub open spec fn pseudolegal_line(s: BoardState, moves: Seq<Move>) -> bool
    decreases moves.len(),
{
    if moves.len() == 0 {
        true
    } else {
        pseudolegal_line(s, moves.drop_last()) && play(s, moves.drop_last()).pseudolegal(
            moves.last(),
        )
    }
}

/// In every position reached from a sound position by pseudolegal moves,
/// and so by legal ones, no square holds two pieces.
pub proof fn lemma_reachable_positions_are_sound(s: BoardState, moves: Seq<Move>)
    requires
        s.wf(),
        pseudolegal_line(s, moves),
    ensures
        play(s, moves).wf(),
        play(s, moves).single_occupancy(),
    decreases moves.len(),
{
    if moves.len() > 0 {
        lemma_reachable_positions_are_sound(s, moves.drop_last());
        lemma_pseudolegal_keeps_wf(play(s, moves.drop_last()), moves.last());
    }
}

/// A castling right that is gone is not there after the next move either.
pub proof fn lemma_castle_right_never_returns(
    s: BoardState,
    mv: Move,
    color: Color,
    direction: CastleDirection,
)
    requires
        !s.castle_right(color, direction),
    ensures
        !s.after(mv).castle_right(color, direction),
{
}

/// A castling right that is gone stays gone, whatever moves follow.
pub proof fn lemma_castle_rights_never_return(
    s: BoardState,
    moves: Seq<Move>,
    color: Color,
    direction: CastleDirection,
)
    requires
        !s.castle_right(color, direction),
    ensures
        !play(s, moves).castle_right(color, direction),
    decreases moves.len(),
{
    if moves.len() > 0 {
        lemma_castle_rights_never_return(s, moves.drop_last(), color, direction);
        lemma_castle_right_never_returns(
            play(s, moves.drop_last()),
            moves.last(),
            color,
            direction,
        );
    }
}

/// A rook that leaves its corner, or is taken there by a move that takes
/// what stands on the square it reaches, ends the castling right of that
/// corner.
pub proof fn lemma_corner_rook_ends_right(
    s: BoardState,
    mv: Move,
    color: Color,
    direction: CastleDirection,
)
    requires
        s.spoils_corner(mv, rook_home(color, direction)),
    ensures
        !s.after(mv).castle_right(color, direction),
{
}

/// No legal move leaves the mover's king attacked: after it, the side that
/// moved has one king, and the side to move does not attack its square.
pub proof fn lemma_legal_move_keeps_king_safe(s: BoardState, mv: Move, k: int)
    requires
        s.legal(mv),
        0 <= k < 64,
        bit_at(s.after(mv).set_of(s.active_color, 5), k),
    ensures
        !s.after(mv).attacked(k, s.active_color.other()),
{
    broadcast use group_bits;

    let next = s.after(mv);
    let king = next.set_of(s.active_color, 5);
    let j = choose|j: int|
        0 <= j < 64 && king == #[trigger] single(j) && !next.attacked(j, next.active_color);
    assert(bit_at(single(j), k));
}

/// A sound lookup table answers every set of blockers within its entry's
/// mask with exactly the attack set that ray casting finds for them, so no
/// two sets of blockers with different attack sets share a slot of it.
pub proof fn lemma_sound_table(
    direction: Direction,
    entry: MagicEntry,
    sq: int,
    table: Seq<Mask>,
    blockers: u64,
)
    requires
        entry.wf(),
        0 <= sq < 64,
        table_sound(direction, entry, sq, table),
        entry.mask.0 == direction.relevant(sq),
    ensures
        !collides(direction, entry, sq),
        0 <= entry.slot(blockers) < table.len(),
        table[entry.slot(blockers)].0 == direction.attacks(sq, blockers),
{
    lemma_table_lookup(direction, entry, sq, table, blockers);
    direction.lemma_relevant(sq, blockers);
    if collides(direction, entry, sq) {
        let (a, b) = choose|a: u64, b: u64|
            submask(a, entry.mask.0) && submask(b, entry.mask.0)
                && #[trigger] entry.slot(a) == #[trigger] entry.slot(b) && direction.attacks(sq, a)
                != direction.attacks(sq, b);
        assert(table[entry.slot(a)].0 == direction.attacks(sq, a));
        assert(table[entry.slot(b)].0 == direction.attacks(sq, b));
    }
}

/// The squares that a piece of `color` and of kind `kind` (0 for a pawn to 5
/// for a king) attacks from square `p` when `occupied` are the occupied
/// squares.
pub open spec fn attack_set(color: Color, kind: int, p: int, occupied: u64) -> u64 {
    if kind == 0 {
        pawn_captures(color, p)
    } else if kind == 1 {
        knight_mask(p)
    } else if kind == 2 {
        bishop_attacks(p, occupied)
    } else if kind == 3 {
        rook_attacks(p, occupied)
    } else if kind == 4 {
        rook_attacks(p, occupied) | bishop_attacks(p, occupied)
    } else {
        king_mask(p)
    }
}

/// A piece of `color` and of kind `kind` stands on square `p` and attacks
/// square `sq` from there.
pub open spec fn attacks_from(s: BoardState, color: Color, kind: int, p: int, sq: int) -> bool {
    &&& 0 <= kind < 6
    &&& 0 <= p < 64
    &&& bit_at(s.set_of(color, kind), p)
    &&& bit_at(attack_set(color, kind, p, s.occupancy()), sq)
}

/// A square is attacked by a side exactly when some piece of that side
/// attacks it from the square it stands on.
pub proof fn lemma_attacked_by_a_piece(s: BoardState, sq: int, color: Color)
    requires
        0 <= sq < 64,
    ensures
        s.attacked(sq, color) <==> exists|kind: int, p: int|
            #[trigger] attacks_from(s, color, kind, p, sq),
{
    broadcast use group_bits;

    let occupied = s.occupancy();
    if s.attacked(sq, color) {
        if s.pawn_attacks(sq, color) {
            let p = choose|p: int|
                0 <= p < 64 && bit_at(s.set_of(color, 0), p) && bit_at(
                    #[trigger] pawn_captures(color, p),
                    sq,
                );
            assert(attacks_from(s, color, 0, p, sq));
        } else if s.set_of(color, 1) & knight_mask(sq) != 0 {
            let p = lemma_nonzero_bit(s.set_of(color, 1) & knight_mask(sq));
            lemma_knight_mask_bits(sq, p);
            lemma_knight_mask_bits(p, sq);
            assert(attacks_from(s, color, 1, p, sq));
        } else if s.set_of(color, 5) & king_mask(sq) != 0 {
            let p = lemma_nonzero_bit(s.set_of(color, 5) & king_mask(sq));
            lemma_king_mask_bits(sq, p);
            lemma_king_mask_bits(p, sq);
            assert(attacks_from(s, color, 5, p, sq));
        } else if rook_attacks(sq, occupied) & (s.set_of(color, 3) | s.set_of(color, 4)) != 0 {
            let p = lemma_nonzero_bit(
                rook_attacks(sq, occupied) & (s.set_of(color, 3) | s.set_of(color, 4)),
            );
            lemma_rook_attacks_symmetric(sq, p, occupied);
            if bit_at(s.set_of(color, 3), p) {
                assert(attacks_from(s, color, 3, p, sq));
            } else {
                assert(attacks_from(s, color, 4, p, sq));
            }
        } else {
            let p = lemma_nonzero_bit(
                bishop_attacks(sq, occupied) & (s.set_of(color, 2) | s.set_of(color, 4)),
            );
            lemma_bishop_attacks_symmetric(sq, p, occupied);
            if bit_at(s.set_of(color, 2), p) {
                assert(attacks_from(s, color, 2, p, sq));
            } else {
                assert(attacks_from(s, color, 4, p, sq));
            }
        }
    }
    if exists|kind: int, p: int| #[trigger] attacks_from(s, color, kind, p, sq) {
        let (kind, p) = choose|kind: int, p: int| #[trigger] attacks_from(s, color, kind, p, sq);
        lemma_knight_mask_bits(sq, p);
        lemma_knight_mask_bits(p, sq);
        lemma_king_mask_bits(sq, p);
        lemma_king_mask_bits(p, sq);
        lemma_rook_attacks_symmetric(sq, p, occupied);
        lemma_bishop_attacks_symmetric(sq, p, occupied);
        if kind == 0 {
            assert(s.pawn_attacks(sq, color));
        } else if kind == 1 {
            assert(bit_at(s.set_of(color, 1) & knight_mask(sq), p));
        } else if kind == 5 {
            assert(bit_at(s.set_of(color, 5) & king_mask(sq), p));
        } else if kind == 3 {
            assert(bit_at(
                rook_attacks(sq, occupied) & (s.set_of(color, 3) | s.set_of(color, 4)),
                p,
            ));
        } else if kind == 2 {
            assert(bit_at(
                bishop_attacks(sq, occupied) & (s.set_of(color, 2) | s.set_of(color, 4)),
                p,
            ));
        } else {
            if bit_at(rook_attacks(p, occupied), sq) {
                assert(bit_at(
                    rook_attacks(sq, occupied) & (s.set_of(color, 3) | s.set_of(color, 4)),
                    p,
                ));
            } else {
                assert(bit_at(
                    bishop_attacks(sq, occupied) & (s.set_of(color, 2) | s.set_of(color, 4)),
                    p,
                ));
            }
        }
    }
}

/// Taking back a move that was made gives the game as it was before.
pub proof fn lemma_unmake_undoes_make(history: Seq<BoardState>, mv: Move)
    ensures
        unmade(made(history, mv)) == history,
{
    assert(history.push(history.last().after(mv)).drop_last() =~= history);
}

} // verus!
