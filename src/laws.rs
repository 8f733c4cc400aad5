//! Properties of the rules that relate several operations, proved over the
//! spec functions that the executable methods are proved equal to.
use vstd::prelude::*;

use crate::board::{initial_view, BoardView, CastlingRights};
use crate::fen::king_count;
use crate::rules::{
    apply_spec, attacked, cell, cell_attacks, forward, pawn_start_row, home_row, in_check, is_enemy_pawn,
    king_attacked_at, legal, moved_piece, moved_rook, mover_black, on_board, piece_attacks,
    pos_on_board, pseudo_legal,
};
use crate::{CastleSide, Move, MoveKind, PieceKinds, Square};

verus! {

/// A legal move never leaves the mover's own king in check.
pub proof fn lemma_legal_move_keeps_king_safe(v: BoardView, m: Move)
    requires
        legal(v, m),
    ensures
        !in_check(apply_spec(v, m), mover_black(v)),
{
}

/// Both cells of a legal move are on the board.
pub proof fn lemma_legal_move_on_board(v: BoardView, m: Move)
    requires
        legal(v, m),
    ensures
        pos_on_board(m.from),
        pos_on_board(m.to),
{
}

/// The cells a castling king stands on, crosses or lands on.
pub open spec fn castle_path_col(side: CastleSide, c: int) -> bool {
    match side {
        CastleSide::KINGSIDE => c == 4 || c == 5 || c == 6,
        CastleSide::QUEENSIDE => c == 4 || c == 3 || c == 2,
    }
}

/// Castling is not legal when the opponent attacks any cell of the king's
/// path, whether or not the destination itself is safe.
pub proof fn lemma_castle_through_attack_rejected(v: BoardView, m: Move, side: CastleSide, c: int)
    requires
        m.kind == MoveKind::Castle(side),
        castle_path_col(side, c),
        attacked(v, home_row(mover_black(v)), c, !mover_black(v)),
    ensures
        !legal(v, m),
{
}

/// A castling right that is lost stays lost.
pub open spec fn rights_within(a: CastlingRights, b: CastlingRights) -> bool {
    (a.white_kingside ==> b.white_kingside) && (a.white_queenside ==> b.white_queenside) && (
    a.black_kingside ==> b.black_kingside) && (a.black_queenside ==> b.black_queenside)
}

/// No move grants a castling right.
pub proof fn lemma_castling_rights_never_return(v: BoardView, m: Move)
    ensures
        rights_within(apply_spec(v, m).castling, v.castling),
{
}

/// The en-passant target is set exactly by a double pawn step, so the ply
/// after one that set it clears it unless that ply is itself a double step.
pub proof fn lemma_en_passant_lasts_one_ply(v: BoardView, m1: Move, m2: Move)
    requires
        legal(v, m1),
        legal(apply_spec(v, m1), m2),
        m2.kind != MoveKind::DoublePawnStep,
    ensures
        apply_spec(v, m1).en_passant is Some <==> m1.kind == MoveKind::DoublePawnStep,
        apply_spec(apply_spec(v, m1), m2).en_passant is None,
{
}

/// An en-passant capture empties the cell beside the capturing pawn, where
/// the captured pawn stood, and not only the destination.
pub proof fn lemma_en_passant_removes_adjacent_pawn(v: BoardView, m: Move)
    requires
        v.grid.len() == 64,
        legal(v, m),
        m.kind == MoveKind::EnPassantCapture,
    ensures
        m.from.row == (m.to.row - forward(mover_black(v))),
        m.to.col != m.from.col,
        is_enemy_pawn(cell(v, m.from.row as int, m.to.col as int), mover_black(v)),
        cell(apply_spec(v, m), m.from.row as int, m.to.col as int).is_none(),
        cell(v, m.to.row as int, m.to.col as int).is_none(),
        cell(apply_spec(v, m), m.to.row as int, m.to.col as int) matches Some(p) && p.kind
            == PieceKinds::PAWN && p.is_black == mover_black(v),
{
}

pub open spec fn is_pawn(s: Square) -> bool {
    match s {
        Some(p) => p.kind == PieceKinds::PAWN,
        None => false,
    }
}

pub open spec fn king_of(s: Square, black: bool) -> nat {
    match s {
        Some(p) => if p.kind == PieceKinds::KING && p.is_black == black { 1nat } else { 0nat },
        None => 0nat,
    }
}

/// No pawn stands on the first or the last rank.
pub open spec fn no_pawn_on_end_rows(v: BoardView) -> bool {
    forall|c: int| 0 <= c < 8 ==> !is_pawn(#[trigger] cell(v, 0, c)) && !is_pawn(cell(v, 7, c))
}

/// An en-passant target is an empty cell just behind a pawn of the side
/// that moved last.
pub open spec fn en_passant_sound(v: BoardView) -> bool {
    match v.en_passant {
        Some(e) => {
            let black = !mover_black(v);
            &&& e.row == pawn_start_row(black) + forward(black)
            &&& on_board(e.row + forward(black), e.col as int)
            &&& cell(v, e.row as int, e.col as int).is_none()
            &&& cell(v, e.row + forward(black), e.col as int) matches Some(q) && q.kind
                == PieceKinds::PAWN && q.is_black == black
        },
        None => true,
    }
}

/// The invariants of a position reached by play: a full grid, one king of
/// each colour, the side that just moved not in check, no pawn on an end
/// rank, and a sound en-passant target.
pub open spec fn reachable_shape(v: BoardView) -> bool {
    &&& v.grid.len() == 64
    &&& king_count(v.grid, false) == 1
    &&& king_count(v.grid, true) == 1
    &&& !in_check(v, !mover_black(v))
    &&& no_pawn_on_end_rows(v)
    &&& en_passant_sound(v)
}

proof fn lemma_king_count_update(g: Seq<Square>, i: int, x: Square, black: bool)
    requires
        0 <= i < g.len(),
    ensures
        king_count(g.update(i, x), black) + king_of(g[i], black) == king_count(g, black) + king_of(
            x,
            black,
        ),
    decreases g.len(),
{
    let h = g.update(i, x);
    if i == g.len() - 1 {
        assert(h.drop_last() =~= g.drop_last());
    } else {
        assert(h.drop_last() =~= g.drop_last().update(i, x));
        lemma_king_count_update(g.drop_last(), i, x, black);
    }
}

proof fn lemma_index_parts(r: int, c: int)
    requires
        on_board(r, c),
    ensures
        (r * 8 + c) / 8 == r,
        (r * 8 + c) % 8 == c,
{
}

/// A pseudo-legal capture from a position where the side not to move is not
/// in check never lands on a king.
proof fn lemma_no_king_capture(v: BoardView, m: Move)
    requires
        v.grid.len() == 64,
        pseudo_legal(v, m),
        !in_check(v, !mover_black(v)),
    ensures
        king_of(cell(v, m.to.row as int, m.to.col as int), !mover_black(v)) == 0,
{
    let fr = m.from.row as int;
    let fc = m.from.col as int;
    let tr = m.to.row as int;
    let tc = m.to.col as int;
    let black = mover_black(v);
    if king_of(cell(v, tr, tc), !black) == 1 {
        let p = cell(v, fr, fc)->Some_0;
        lemma_index_parts(fr, fc);
        lemma_index_parts(tr, tc);
        assert(piece_attacks(v, p, fr, fc, tr, tc));
        assert(cell_attacks(v, fr * 8 + fc, tr, tc, black));
        assert(attacked(v, tr, tc, black));
        assert(king_attacked_at(v, tr * 8 + tc, !black));
    }
}

/// Every legal move keeps the invariants of a reachable position.
pub proof fn lemma_legal_move_keeps_invariants(v: BoardView, m: Move)
    requires
        reachable_shape(v),
        legal(v, m),
    ensures
        reachable_shape(apply_spec(v, m)),
        pos_on_board(m.to),
        rights_within(apply_spec(v, m).castling, v.castling),
{
    let w = apply_spec(v, m);
    let fr = m.from.row as int;
    let fc = m.from.col as int;
    let tr = m.to.row as int;
    let tc = m.to.col as int;
    let black = mover_black(v);
    let p = cell(v, fr, fc)->Some_0;
    let target = cell(v, tr, tc);
    lemma_no_king_capture(v, m);
    let g0 = v.grid;
    let g1 = g0.update(fr * 8 + fc, None);
    let g2 = g1.update(tr * 8 + tc, Some(moved_piece(p, m.kind)));
    assert(g1[tr * 8 + tc] == target);
    assert forall|b: bool| king_count(g2, b) == king_count(g0, b) by {
        lemma_king_count_update(g0, fr * 8 + fc, None, b);
        lemma_king_count_update(g1, tr * 8 + tc, Some(moved_piece(p, m.kind)), b);
        if b == black {
            assert(king_of(target, b) == 0);
        }
    }
    match m.kind {
        MoveKind::EnPassantCapture => {
            assert forall|b: bool| king_count(w.grid, b) == king_count(g0, b) by {
                lemma_king_count_update(g2, fr * 8 + tc, None, b);
            }
        },
        MoveKind::Castle(side) => {
            let (rc, nc) = match side {
                CastleSide::KINGSIDE => (7int, 5int),
                CastleSide::QUEENSIDE => (0int, 3int),
            };
            let g3 = g2.update(fr * 8 + rc, None);
            assert forall|b: bool| king_count(w.grid, b) == king_count(g0, b) by {
                lemma_king_count_update(g2, fr * 8 + rc, None, b);
                lemma_king_count_update(g3, fr * 8 + nc, Some(moved_rook(black)), b);
            }
        },
        _ => {},
    }
    if p.kind == PieceKinds::PAWN {
        assert(!is_pawn(cell(v, 0, fc)) && !is_pawn(cell(v, 7, fc)));
        assert(0 < fr < 7);
    }
    assert(!is_pawn(Some(moved_piece(p, m.kind))) || (0 < tr < 7));
    assert(no_pawn_on_end_rows(w)) by {
        assert forall|c: int| 0 <= c < 8 implies !is_pawn(#[trigger] cell(w, 0, c)) && !is_pawn(
            cell(w, 7, c),
        ) by {
            assert(!is_pawn(cell(v, 0, c)) && !is_pawn(cell(v, 7, c)));
            assert(!is_pawn(cell(v, 0, fc)) && !is_pawn(cell(v, 7, fc)));
        }
    }
    assert(!in_check(w, !mover_black(w)));
}

proof fn lemma_single_king(g: Seq<Square>, k: int, black: bool)
    requires
        0 <= k < g.len(),
        king_of(g[k], black) == 1,
        forall|i: int| 0 <= i < g.len() && i != k ==> king_of(#[trigger] g[i], black) == 0,
    ensures
        king_count(g, black) == 1,
    decreases g.len(),
{
    if k < g.len() - 1 {
        lemma_single_king(g.drop_last(), k, black);
    } else {
        lemma_no_king(g.drop_last(), black);
    }
}

proof fn lemma_no_king(g: Seq<Square>, black: bool)
    requires
        forall|i: int| 0 <= i < g.len() ==> king_of(#[trigger] g[i], black) == 0,
    ensures
        king_count(g, black) == 0,
    decreases g.len(),
{
    if g.len() > 0 {
        lemma_no_king(g.drop_last(), black);
    }
}

/// The standard initial position has the invariants of a reachable position.
pub proof fn lemma_initial_position_shape()
    ensures
        reachable_shape(initial_view()),
{
    let v = initial_view();
    lemma_single_king(v.grid, 60, false);
    lemma_single_king(v.grid, 4, true);
    assert forall|s: int| 0 <= s < 64 implies !#[trigger] king_attacked_at(v, s, true) by {
        if s == 4 {
            assert forall|t: int| 0 <= t < 64 implies !#[trigger] cell_attacks(v, t, 0, 4, false) by {
                lemma_index_parts(t / 8, t % 8);
            }
        }
    }
}

} // verus!
