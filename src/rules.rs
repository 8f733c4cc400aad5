//! Movement geometry, attack detection, pseudo-legal moves, move application
//! and the legal-move filter, each stated as a spec function over `BoardView`
//! and implemented by an executable method proved equal to it.
use vstd::prelude::*;

use crate::board::{Board, BoardView, CastlingRights, PlaySide};
use crate::{CastleSide, ChessError, GameStatus, Move, MoveKind, Piece, PieceKinds, Position, Square};

verus! {

// ---------------------------------------------------------------- geometry

pub open spec fn on_board(r: int, c: int) -> bool {
    0 <= r < 8 && 0 <= c < 8
}

pub open spec fn pos_on_board(p: Position) -> bool {
    p.row < 8 && p.col < 8
}

/// Content of cell `(r, c)`.
pub open spec fn cell(v: BoardView, r: int, c: int) -> Square {
    v.grid[r * 8 + c]
}

pub open spec fn abs(x: int) -> int {
    if x < 0 { -x } else { x }
}

pub open spec fn sgn(x: int) -> int {
    if x > 0 { 1 } else if x < 0 { -1 } else { 0 }
}

/// Row direction in which pawns of a colour advance (Black moves down the rows).
pub open spec fn forward(black: bool) -> int {
    if black { 1 } else { -1 }
}

/// The row on which pawns of a colour promote.
pub open spec fn last_row(black: bool) -> int {
    if black { 7 } else { 0 }
}

/// The row on which pawns of a colour start.
pub open spec fn pawn_start_row(black: bool) -> int {
    if black { 1 } else { 6 }
}

/// The row on which king and rooks of a colour start.
pub open spec fn home_row(black: bool) -> int {
    if black { 0 } else { 7 }
}

/// Every cell strictly between `(r, c)` and the cell `n` steps of `(sr, sc)`
/// away is on the board and empty.
pub open spec fn path_clear(v: BoardView, r: int, c: int, sr: int, sc: int, n: int) -> bool
    decreases n,
{
    if n <= 1 {
        true
    } else {
        on_board(r + sr, c + sc) && cell(v, r + sr, c + sc).is_none() && path_clear(
            v,
            r + sr,
            c + sc,
            sr,
            sc,
            n - 1,
        )
    }
}

/// Piece `p` standing on `(fr, fc)` attacks `(tr, tc)`: its movement pattern
/// reaches the cell and, for sliding pieces, nothing stands in between.
/// A pawn attacks the two cells diagonally ahead, occupied or not.
pub open spec fn piece_attacks(v: BoardView, p: Piece, fr: int, fc: int, tr: int, tc: int) -> bool {
    let dr = tr - fr;
    let dc = tc - fc;
    let straight = (dr == 0) != (dc == 0);
    let diagonal = dr != 0 && abs(dr) == abs(dc);
    let dist = if abs(dr) > abs(dc) { abs(dr) } else { abs(dc) };
    match p.kind {
        PieceKinds::KNIGHT => (abs(dr) == 1 && abs(dc) == 2) || (abs(dr) == 2 && abs(dc) == 1),
        PieceKinds::KING => abs(dr) <= 1 && abs(dc) <= 1 && (dr != 0 || dc != 0),
        PieceKinds::PAWN => dr == forward(p.is_black) && abs(dc) == 1,
        PieceKinds::ROOK => straight && path_clear(v, fr, fc, sgn(dr), sgn(dc), dist),
        PieceKinds::BISHOP => diagonal && path_clear(v, fr, fc, sgn(dr), sgn(dc), dist),
        PieceKinds::QUEEN => (straight || diagonal) && path_clear(v, fr, fc, sgn(dr), sgn(dc), dist),
    }
}

// ---------------------------------------------------------------- attacks and check

/// The piece on cell index `s` belongs to the side `by_black` and attacks `(tr, tc)`.
pub open spec fn cell_attacks(v: BoardView, s: int, tr: int, tc: int, by_black: bool) -> bool {
    match v.grid[s] {
        Some(p) => p.is_black == by_black && piece_attacks(v, p, s / 8, s % 8, tr, tc),
        None => false,
    }
}

/// Cell `(tr, tc)` is attacked by the side `by_black`.
pub open spec fn attacked(v: BoardView, tr: int, tc: int, by_black: bool) -> bool {
    exists|s: int| 0 <= s < 64 && #[trigger] cell_attacks(v, s, tr, tc, by_black)
}

/// Cell index `s` holds a king of the side `black` that the other side attacks.
pub open spec fn king_attacked_at(v: BoardView, s: int, black: bool) -> bool {
    match v.grid[s] {
        Some(p) => p.kind == PieceKinds::KING && p.is_black == black && attacked(
            v,
            s / 8,
            s % 8,
            !black,
        ),
        None => false,
    }
}

/// The king of the side `black` is in check.
pub open spec fn in_check(v: BoardView, black: bool) -> bool {
    exists|s: int| 0 <= s < 64 && #[trigger] king_attacked_at(v, s, black)
}

// ---------------------------------------------------------------- pseudo-legal moves

pub open spec fn mover_black(v: BoardView) -> bool {
    v.turn == PlaySide::BLACK
}

pub open spec fn is_enemy(s: Square, black: bool) -> bool {
    match s {
        Some(q) => q.is_black != black,
        None => false,
    }
}

pub open spec fn is_enemy_pawn(s: Square, black: bool) -> bool {
    match s {
        Some(q) => q.is_black != black && q.kind == PieceKinds::PAWN,
        None => false,
    }
}

pub open spec fn is_own_rook(s: Square, black: bool) -> bool {
    match s {
        Some(q) => q.is_black == black && q.kind == PieceKinds::ROOK,
        None => false,
    }
}

/// The kinds a pawn may promote to.
pub open spec fn is_promotion_kind(k: PieceKinds) -> bool {
    k == PieceKinds::QUEEN || k == PieceKinds::ROOK || k == PieceKinds::BISHOP || k
        == PieceKinds::KNIGHT
}

pub open spec fn castle_right(c: CastlingRights, black: bool, side: CastleSide) -> bool {
    match (black, side) {
        (false, CastleSide::KINGSIDE) => c.white_kingside,
        (false, CastleSide::QUEENSIDE) => c.white_queenside,
        (true, CastleSide::KINGSIDE) => c.black_kingside,
        (true, CastleSide::QUEENSIDE) => c.black_queenside,
    }
}

/// Castling of the side `black` on `side`, king from `(fr, fc)` to `(tr, tc)`:
/// the right is held, the rook is in its corner, the cells between king and
/// rook are empty, and neither the king's cell nor any cell it crosses or
/// lands on is attacked.
pub open spec fn castle_ok(
    v: BoardView,
    black: bool,
    side: CastleSide,
    fr: int,
    fc: int,
    tr: int,
    tc: int,
) -> bool {
    let row = home_row(black);
    fr == row && fc == 4 && tr == row && castle_right(v.castling, black, side) && match side {
        CastleSide::KINGSIDE => tc == 6 && is_own_rook(cell(v, row, 7), black) && cell(
            v,
            row,
            5,
        ).is_none() && cell(v, row, 6).is_none() && !attacked(v, row, 4, !black) && !attacked(
            v,
            row,
            5,
            !black,
        ) && !attacked(v, row, 6, !black),
        CastleSide::QUEENSIDE => tc == 2 && is_own_rook(cell(v, row, 0), black) && cell(
            v,
            row,
            1,
        ).is_none() && cell(v, row, 2).is_none() && cell(v, row, 3).is_none() && !attacked(
            v,
            row,
            4,
            !black,
        ) && !attacked(v, row, 3, !black) && !attacked(v, row, 2, !black),
    }
}

/// Move `m` of piece `p` obeys movement, occupancy and special-move rules.
pub open spec fn move_ok(v: BoardView, p: Piece, m: Move) -> bool {
    let fr = m.from.row as int;
    let fc = m.from.col as int;
    let tr = m.to.row as int;
    let tc = m.to.col as int;
    let target = cell(v, tr, tc);
    let fwd = forward(p.is_black);
    let promo = tr == last_row(p.is_black);
    let pawn_push = tc == fc && tr == fr + fwd && target.is_none();
    let pawn_take = abs(tc - fc) == 1 && tr == fr + fwd && is_enemy(target, p.is_black);
    match m.kind {
        MoveKind::Normal => target.is_none() && if p.kind == PieceKinds::PAWN {
            pawn_push && !promo
        } else {
            piece_attacks(v, p, fr, fc, tr, tc)
        },
        MoveKind::Capture => is_enemy(target, p.is_black) && if p.kind == PieceKinds::PAWN {
            pawn_take && !promo
        } else {
            piece_attacks(v, p, fr, fc, tr, tc)
        },
        MoveKind::DoublePawnStep => p.kind == PieceKinds::PAWN && tc == fc && fr
            == pawn_start_row(p.is_black) && tr == fr + 2 * fwd && cell(v, fr + fwd, fc).is_none()
            && target.is_none(),
        MoveKind::EnPassantCapture => p.kind == PieceKinds::PAWN && v.en_passant == Some(m.to)
            && abs(tc - fc) == 1 && tr == fr + fwd && target.is_none() && is_enemy_pawn(
            cell(v, fr, tc),
            p.is_black,
        ),
        MoveKind::Castle(side) => p.kind == PieceKinds::KING && castle_ok(
            v,
            p.is_black,
            side,
            fr,
            fc,
            tr,
            tc,
        ),
        MoveKind::Promotion(k) => p.kind == PieceKinds::PAWN && promo && is_promotion_kind(k) && (
        pawn_push || pawn_take),
    }
}

/// `m` is a move of the side to move that obeys every rule but the one on
/// leaving one's own king in check.
pub open spec fn pseudo_legal(v: BoardView, m: Move) -> bool {
    pos_on_board(m.from) && pos_on_board(m.to) && match cell(
        v,
        m.from.row as int,
        m.from.col as int,
    ) {
        Some(p) => p.is_black == mover_black(v) && move_ok(v, p, m),
        None => false,
    }
}

// ---------------------------------------------------------------- applying a move

pub open spec fn moved_piece(p: Piece, kind: MoveKind) -> Piece {
    Piece {
        kind: match kind {
            MoveKind::Promotion(k) => k,
            _ => p.kind,
        },
        is_black: p.is_black,
        has_moved_before: true,
    }
}

pub open spec fn moved_rook(black: bool) -> Piece {
    Piece { kind: PieceKinds::ROOK, is_black: black, has_moved_before: true }
}

/// The grid after `m`, moved piece `p`.
pub open spec fn apply_grid(v: BoardView, p: Piece, m: Move) -> Seq<Square> {
    let fr = m.from.row as int;
    let fc = m.from.col as int;
    let tr = m.to.row as int;
    let tc = m.to.col as int;
    let g = v.grid.update(fr * 8 + fc, None).update(tr * 8 + tc, Some(moved_piece(p, m.kind)));
    match m.kind {
        MoveKind::EnPassantCapture => g.update(fr * 8 + tc, None),
        MoveKind::Castle(CastleSide::KINGSIDE) => g.update(fr * 8 + 7, None).update(
            fr * 8 + 5,
            Some(moved_rook(p.is_black)),
        ),
        MoveKind::Castle(CastleSide::QUEENSIDE) => g.update(fr * 8, None).update(
            fr * 8 + 3,
            Some(moved_rook(p.is_black)),
        ),
        _ => g,
    }
}

/// `m` starts or ends on `(r, c)`.
pub open spec fn touches(m: Move, r: int, c: int) -> bool {
    (m.from.row == r && m.from.col == c) || (m.to.row == r && m.to.col == c)
}

/// Castling rights after `m`: a right is lost once its king or rook square is
/// left or entered.
pub open spec fn apply_castling(c: CastlingRights, m: Move) -> CastlingRights {
    CastlingRights {
        white_kingside: c.white_kingside && !touches(m, 7, 4) && !touches(m, 7, 7),
        white_queenside: c.white_queenside && !touches(m, 7, 4) && !touches(m, 7, 0),
        black_kingside: c.black_kingside && !touches(m, 0, 4) && !touches(m, 0, 7),
        black_queenside: c.black_queenside && !touches(m, 0, 4) && !touches(m, 0, 0),
    }
}

pub open spec fn apply_en_passant(p: Piece, m: Move) -> Option<Position> {
    match m.kind {
        MoveKind::DoublePawnStep => Some(
            Position { row: (m.from.row + forward(p.is_black)) as u8, col: m.from.col },
        ),
        _ => None,
    }
}

pub open spec fn bump(x: u32) -> u32 {
    if x < 0xffff_ffff { (x + 1) as u32 } else { x }
}

/// The position after `m` (a pseudo-legal move of `v`).
pub open spec fn apply_spec(v: BoardView, m: Move) -> BoardView {
    let p = cell(v, m.from.row as int, m.from.col as int)->Some_0;
    let capture = cell(v, m.to.row as int, m.to.col as int).is_some();
    BoardView {
        grid: apply_grid(v, p, m),
        turn: if p.is_black { PlaySide::WHITE } else { PlaySide::BLACK },
        castling: apply_castling(v.castling, m),
        en_passant: apply_en_passant(p, m),
        halfmove_clock: if p.kind == PieceKinds::PAWN || capture { 0 } else { bump(v.halfmove_clock) },
        fullmove_number: if p.is_black { bump(v.fullmove_number) } else { v.fullmove_number },
    }
}

/// `m` is legal in `v`: pseudo-legal, and the mover's king is not in check after it.
pub open spec fn legal(v: BoardView, m: Move) -> bool {
    pseudo_legal(v, m) && !in_check(apply_spec(v, m), mover_black(v))
}

// ---------------------------------------------------------------- executable rules

impl Board {
    fn get(&self, r: i32, c: i32) -> (s: Square)
        requires
            self.wf(),
            on_board(r as int, c as int),
        ensures
            s == cell(self@, r as int, c as int),
    {
        self.state[(r * 8 + c) as usize]
    }

    fn clear_path(&self, r: i32, c: i32, sr: i32, sc: i32, n: i32) -> (b: bool)
        requires
            self.wf(),
            on_board(r as int, c as int),
            -1 <= sr <= 1,
            -1 <= sc <= 1,
            0 <= n <= 8,
        ensures
            b == path_clear(self@, r as int, c as int, sr as int, sc as int, n as int),
    {
        let mut cr = r;
        let mut cc = c;
        let mut k = n;
        while k > 1
            invariant
                self.wf(),
                on_board(cr as int, cc as int),
                -1 <= sr <= 1,
                -1 <= sc <= 1,
                0 <= k <= 8,
                path_clear(self@, r as int, c as int, sr as int, sc as int, n as int)
                    == path_clear(self@, cr as int, cc as int, sr as int, sc as int, k as int),
            decreases k,
        {
            let nr = cr + sr;
            let nc = cc + sc;
            if nr < 0 || nr >= 8 || nc < 0 || nc >= 8 {
                return false;
            }
            if self.get(nr, nc).is_some() {
                return false;
            }
            cr = nr;
            cc = nc;
            k = k - 1;
        }
        true
    }

    fn attacks(&self, p: Piece, fr: i32, fc: i32, tr: i32, tc: i32) -> (b: bool)
        requires
            self.wf(),
            on_board(fr as int, fc as int),
            on_board(tr as int, tc as int),
        ensures
            b == piece_attacks(self@, p, fr as int, fc as int, tr as int, tc as int),
    {
        let dr = tr - fr;
        let dc = tc - fc;
        let adr = if dr < 0 { -dr } else { dr };
        let adc = if dc < 0 { -dc } else { dc };
        let straight = (dr == 0) != (dc == 0);
        let diagonal = dr != 0 && adr == adc;
        let dist = if adr > adc { adr } else { adc };
        let sr: i32 = if dr > 0 { 1 } else if dr < 0 { -1 } else { 0 };
        let sc: i32 = if dc > 0 { 1 } else if dc < 0 { -1 } else { 0 };
        match p.kind {
            PieceKinds::KNIGHT => (adr == 1 && adc == 2) || (adr == 2 && adc == 1),
            PieceKinds::KING => adr <= 1 && adc <= 1 && (dr != 0 || dc != 0),
            PieceKinds::PAWN => dr == (if p.is_black { 1 } else { -1 }) && adc == 1,
            PieceKinds::ROOK => straight && self.clear_path(fr, fc, sr, sc, dist),
            PieceKinds::BISHOP => diagonal && self.clear_path(fr, fc, sr, sc, dist),
            PieceKinds::QUEEN => (straight || diagonal) && self.clear_path(fr, fc, sr, sc, dist),
        }
    }

    /// Whether cell `(r, c)` is attacked by the side `by_black`.
    pub fn is_square_attacked(&self, r: u8, c: u8, by_black: bool) -> (b: bool)
        requires
            self.wf(),
            r < 8,
            c < 8,
        ensures
            b == attacked(self@, r as int, c as int, by_black),
    {
        let mut s: usize = 0;
        while s < 64
            invariant
                self.wf(),
                r < 8,
                c < 8,
                forall|j: int| 0 <= j < s ==> !#[trigger] cell_attacks(self@, j, r as int, c as int, by_black),
            decreases 64 - s,
        {
            match self.state[s] {
                Some(p) => {
                    if p.is_black == by_black && self.attacks(p, (s / 8) as i32, (s % 8) as i32, r as i32, c as i32) {
                        assert(cell_attacks(self@, s as int, r as int, c as int, by_black));
                        return true;
                    }
                },
                None => {},
            }
            s = s + 1;
        }
        false
    }

    /// Whether the king of the side `black` is attacked.
    pub fn is_in_check(&self, black: bool) -> (b: bool)
        requires
            self.wf(),
        ensures
            b == in_check(self@, black),
    {
        let mut s: usize = 0;
        while s < 64
            invariant
                self.wf(),
                forall|j: int| 0 <= j < s ==> !#[trigger] king_attacked_at(self@, j, black),
            decreases 64 - s,
        {
            match self.state[s] {
                Some(p) => {
                    if p.kind == PieceKinds::KING && p.is_black == black && self.is_square_attacked((s / 8) as u8, (s % 8) as u8, !black) {
                        assert(king_attacked_at(self@, s as int, black));
                        return true;
                    }
                },
                None => {},
            }
            s = s + 1;
        }
        false
    }
}

impl Board {
    fn castle_allowed(&self, black: bool, side: CastleSide, fr: i32, fc: i32, tr: i32, tc: i32) -> (b: bool)
        requires
            self.wf(),
            on_board(fr as int, fc as int),
            on_board(tr as int, tc as int),
        ensures
            b == castle_ok(self@, black, side, fr as int, fc as int, tr as int, tc as int),
    {
        let row: i32 = if black { 0 } else { 7 };
        let right = match (black, side) {
            (false, CastleSide::KINGSIDE) => self.castling.white_kingside,
            (false, CastleSide::QUEENSIDE) => self.castling.white_queenside,
            (true, CastleSide::KINGSIDE) => self.castling.black_kingside,
            (true, CastleSide::QUEENSIDE) => self.castling.black_queenside,
        };
        if !(fr == row && fc == 4 && tr == row && right) {
            return false;
        }
        let (rook_col, target_col): (i32, i32) = match side {
            CastleSide::KINGSIDE => (7, 6),
            CastleSide::QUEENSIDE => (0, 2),
        };
        if tc != target_col {
            return false;
        }
        let rook_ok = match self.get(row, rook_col) {
            Some(q) => q.is_black == black && q.kind == PieceKinds::ROOK,
            None => false,
        };
        if !rook_ok {
            return false;
        }
        let r8 = row as u8;
        match side {
            CastleSide::KINGSIDE => {
                self.get(row, 5).is_none() && self.get(row, 6).is_none()
                    && !self.is_square_attacked(r8, 4, !black)
                    && !self.is_square_attacked(r8, 5, !black)
                    && !self.is_square_attacked(r8, 6, !black)
            },
            CastleSide::QUEENSIDE => {
                self.get(row, 1).is_none() && self.get(row, 2).is_none() && self.get(row, 3).is_none()
                    && !self.is_square_attacked(r8, 4, !black)
                    && !self.is_square_attacked(r8, 3, !black)
                    && !self.is_square_attacked(r8, 2, !black)
            },
        }
    }

    fn move_allowed(&self, p: Piece, m: Move) -> (b: bool)
        requires
            self.wf(),
            pos_on_board(m.from),
            pos_on_board(m.to),
        ensures
            b == move_ok(self@, p, m),
    {
        let fr = m.from.row as i32;
        let fc = m.from.col as i32;
        let tr = m.to.row as i32;
        let tc = m.to.col as i32;
        let target = self.get(tr, tc);
        let fwd: i32 = if p.is_black { 1 } else { -1 };
        let promo = tr == (if p.is_black { 7 } else { 0 });
        let adc = if tc < fc { fc - tc } else { tc - fc };
        let enemy = match target {
            Some(q) => q.is_black != p.is_black,
            None => false,
        };
        let pawn_push = tc == fc && tr == fr + fwd && target.is_none();
        let pawn_take = adc == 1 && tr == fr + fwd && enemy;
        let is_pawn = p.kind == PieceKinds::PAWN;
        match m.kind {
            MoveKind::Normal => target.is_none() && if is_pawn {
                pawn_push && !promo
            } else {
                self.attacks(p, fr, fc, tr, tc)
            },
            MoveKind::Capture => enemy && if is_pawn {
                pawn_take && !promo
            } else {
                self.attacks(p, fr, fc, tr, tc)
            },
            MoveKind::DoublePawnStep => {
                is_pawn && tc == fc && fr == (if p.is_black { 1 } else { 6 }) && tr == fr + 2 * fwd
                    && self.get(fr + fwd, fc).is_none() && target.is_none()
            },
            MoveKind::EnPassantCapture => {
                let ep_here = match self.en_passant {
                    Some(e) => e == m.to,
                    None => false,
                };
                is_pawn && ep_here && adc == 1 && tr == fr + fwd && target.is_none()
                    && match self.get(fr, tc) {
                    Some(q) => q.is_black != p.is_black && q.kind == PieceKinds::PAWN,
                    None => false,
                }
            },
            MoveKind::Castle(side) => {
                p.kind == PieceKinds::KING && self.castle_allowed(p.is_black, side, fr, fc, tr, tc)
            },
            MoveKind::Promotion(k) => {
                let promotable = k == PieceKinds::QUEEN || k == PieceKinds::ROOK || k
                    == PieceKinds::BISHOP || k == PieceKinds::KNIGHT;
                is_pawn && promo && promotable && (pawn_push || pawn_take)
            },
        }
    }

    /// Whether `m` obeys every rule but the one on leaving one's own king in check.
    pub fn is_pseudo_legal(&self, m: Move) -> (b: bool)
        requires
            self.wf(),
        ensures
            b == pseudo_legal(self@, m),
    {
        if m.from.row >= 8 || m.from.col >= 8 || m.to.row >= 8 || m.to.col >= 8 {
            return false;
        }
        match self.get(m.from.row as i32, m.from.col as i32) {
            Some(p) => {
                let black = match self.turn {
                    PlaySide::BLACK => true,
                    PlaySide::WHITE => false,
                };
                p.is_black == black && self.move_allowed(p, m)
            },
            None => false,
        }
    }
}

impl Board {
    /// The position after `m`, which must be pseudo-legal here.
    fn apply_unchecked(&self, m: Move) -> (r: Board)
        requires
            self.wf(),
            pseudo_legal(self@, m),
        ensures
            r.wf(),
            r@ == apply_spec(self@, m),
    {
        let mut state: Vec<Square> = Vec::new();
        let mut i: usize = 0;
        while i < 64
            invariant
                self.wf(),
                i <= 64,
                state@ == self@.grid.subrange(0, i as int),
            decreases 64 - i,
        {
            state.push(self.state[i]);
            i = i + 1;
        }
        assert(state@ =~= self@.grid);
        let fr = m.from.row as usize;
        let fc = m.from.col as usize;
        let tr = m.to.row as usize;
        let tc = m.to.col as usize;
        let p = self.state[fr * 8 + fc].unwrap();
        let capture = self.state[tr * 8 + tc].is_some();
        let new_kind = match m.kind {
            MoveKind::Promotion(k) => k,
            _ => p.kind,
        };
        state.set(fr * 8 + fc, None);
        state.set(tr * 8 + tc, Some(Piece { kind: new_kind, is_black: p.is_black, has_moved_before: true }));
        let rook = Piece { kind: PieceKinds::ROOK, is_black: p.is_black, has_moved_before: true };
        match m.kind {
            MoveKind::EnPassantCapture => {
                state.set(fr * 8 + tc, None);
            },
            MoveKind::Castle(CastleSide::KINGSIDE) => {
                state.set(fr * 8 + 7, None);
                state.set(fr * 8 + 5, Some(rook));
            },
            MoveKind::Castle(CastleSide::QUEENSIDE) => {
                state.set(fr * 8, None);
                state.set(fr * 8 + 3, Some(rook));
            },
            _ => {},
        }
        let c = self.castling;
        let t74 = (fr == 7 && fc == 4) || (tr == 7 && tc == 4);
        let t77 = (fr == 7 && fc == 7) || (tr == 7 && tc == 7);
        let t70 = (fr == 7 && fc == 0) || (tr == 7 && tc == 0);
        let t04 = (fr == 0 && fc == 4) || (tr == 0 && tc == 4);
        let t07 = (fr == 0 && fc == 7) || (tr == 0 && tc == 7);
        let t00 = (fr == 0 && fc == 0) || (tr == 0 && tc == 0);
        let castling = CastlingRights {
            white_kingside: c.white_kingside && !t74 && !t77,
            white_queenside: c.white_queenside && !t74 && !t70,
            black_kingside: c.black_kingside && !t04 && !t07,
            black_queenside: c.black_queenside && !t04 && !t00,
        };
        let en_passant = match m.kind {
            MoveKind::DoublePawnStep => Some(
                Position { row: if p.is_black { m.from.row + 1 } else { m.from.row - 1 }, col: m.from.col },
            ),
            _ => None,
        };
        let halfmove_clock = if p.kind == PieceKinds::PAWN || capture {
            0
        } else if self.halfmove_clock < 0xffff_ffff {
            self.halfmove_clock + 1
        } else {
            self.halfmove_clock
        };
        let fullmove_number = if p.is_black && self.fullmove_number < 0xffff_ffff {
            self.fullmove_number + 1
        } else {
            self.fullmove_number
        };
        let r = Board {
            state,
            turn: if p.is_black { PlaySide::WHITE } else { PlaySide::BLACK },
            castling,
            en_passant,
            halfmove_clock,
            fullmove_number,
        };
        assert(r@.grid =~= apply_spec(self@, m).grid);
        r
    }

    /// Whether `m` is a legal move here.
    pub fn is_legal(&self, m: Move) -> (b: bool)
        requires
            self.wf(),
        ensures
            b == legal(self@, m),
    {
        if !self.is_pseudo_legal(m) {
            return false;
        }
        let next = self.apply_unchecked(m);
        let black = match self.turn {
            PlaySide::BLACK => true,
            PlaySide::WHITE => false,
        };
        !next.is_in_check(black)
    }
}

proof fn lemma_push_contains(s: Seq<Move>, m: Move, x: Move)
    ensures
        s.push(m).contains(x) <==> (s.contains(x) || x == m),
{
    if s.contains(x) {
        let i = choose|i: int| 0 <= i < s.len() && s[i] == x;
        assert(s.push(m)[i] == x);
    }
    if x == m {
        assert(s.push(m)[s.len() as int] == m);
    }
    if s.push(m).contains(x) {
        let i = choose|i: int| 0 <= i < s.len() + 1 && s.push(m)[i] == x;
        if i < s.len() {
            assert(s[i] == x);
        }
    }
}

/// `x` goes from `from` to a cell before `(tr, tc)` in row-major order.
pub open spec fn to_before(x: Move, from: Position, tr: int, tc: int) -> bool {
    x.from == from && (x.to.row < tr || (x.to.row == tr && x.to.col < tc))
}

/// `x` starts on a cell before `(fr, fc)` in row-major order.
pub open spec fn from_before(x: Move, fr: int, fc: int) -> bool {
    x.from.row < fr || (x.from.row == fr && x.from.col < fc)
}

impl Board {
    fn push_if_legal(&self, m: Move, out: &mut Vec<Move>)
        requires
            self.wf(),
            old(out)@.no_duplicates(),
            !old(out)@.contains(m),
        ensures
            final(out)@.no_duplicates(),
            forall|x: Move|
                #[trigger] final(out)@.contains(x) <==> (old(out)@.contains(x) || (x == m && legal(
                    self@,
                    m,
                ))),
    {
        if self.is_legal(m) {
            out.push(m);
            proof {
                assert forall|x: Move| #[trigger] out@.contains(x) <==> (old(out)@.contains(x) || x == m) by {
                    lemma_push_contains(old(out)@, m, x);
                }
                assert forall|i: int, j: int| 0 <= i < out@.len() && 0 <= j < out@.len() && i != j implies out@[i] != out@[j] by {
                    if j == old(out)@.len() {
                        assert(old(out)@[i] != m);
                    } else if i == old(out)@.len() {
                        assert(old(out)@[j] != m);
                    } else {
                        assert(old(out)@[i] != old(out)@[j]);
                    }
                }
            }
        }
    }

    fn legal_moves_between(&self, from: Position, to: Position, out: &mut Vec<Move>)
        requires
            self.wf(),
            old(out)@.no_duplicates(),
            forall|x: Move| #[trigger] old(out)@.contains(x) ==> !(x.from == from && x.to == to),
        ensures
            final(out)@.no_duplicates(),
            forall|x: Move|
                #[trigger] final(out)@.contains(x) <==> (old(out)@.contains(x) || (legal(self@, x)
                    && x.from == from && x.to == to)),
    {
        self.push_if_legal(Move { from, to, kind: MoveKind::Normal }, out);
        self.push_if_legal(Move { from, to, kind: MoveKind::Capture }, out);
        self.push_if_legal(Move { from, to, kind: MoveKind::DoublePawnStep }, out);
        self.push_if_legal(Move { from, to, kind: MoveKind::EnPassantCapture }, out);
        self.push_if_legal(Move { from, to, kind: MoveKind::Castle(CastleSide::KINGSIDE) }, out);
        self.push_if_legal(Move { from, to, kind: MoveKind::Castle(CastleSide::QUEENSIDE) }, out);
        self.push_if_legal(Move { from, to, kind: MoveKind::Promotion(PieceKinds::QUEEN) }, out);
        self.push_if_legal(Move { from, to, kind: MoveKind::Promotion(PieceKinds::ROOK) }, out);
        self.push_if_legal(Move { from, to, kind: MoveKind::Promotion(PieceKinds::BISHOP) }, out);
        self.push_if_legal(Move { from, to, kind: MoveKind::Promotion(PieceKinds::KNIGHT) }, out);
        proof {
            assert forall|x: Move| legal(self@, x) && x.from == from && x.to == to implies #[trigger] out@.contains(x) by {
                match x.kind {
                    MoveKind::Castle(side) => {
                        match side {
                            CastleSide::KINGSIDE => {},
                            CastleSide::QUEENSIDE => {},
                        }
                    },
                    MoveKind::Promotion(k) => {
                        assert(is_promotion_kind(k));
                    },
                    _ => {},
                }
            }
        }
    }

    fn legal_moves_from(&self, from: Position, out: &mut Vec<Move>)
        requires
            self.wf(),
            old(out)@.no_duplicates(),
            forall|x: Move| #[trigger] old(out)@.contains(x) ==> x.from != from,
        ensures
            final(out)@.no_duplicates(),
            forall|x: Move|
                #[trigger] final(out)@.contains(x) <==> (old(out)@.contains(x) || (legal(self@, x)
                    && x.from == from)),
    {
        let ghost start = out@;
        let mut tr: u8 = 0;
        while tr < 8
            invariant
                self.wf(),
                tr <= 8,
                out@.no_duplicates(),
                forall|x: Move| #[trigger] start.contains(x) ==> x.from != from,
                forall|x: Move|
                    #[trigger] out@.contains(x) <==> (start.contains(x) || (legal(self@, x)
                        && to_before(x, from, tr as int, 0))),
            decreases 8 - tr,
        {
            let mut tc: u8 = 0;
            while tc < 8
                invariant
                    self.wf(),
                    tr < 8,
                    tc <= 8,
                    out@.no_duplicates(),
                    forall|x: Move| #[trigger] start.contains(x) ==> x.from != from,
                    forall|x: Move|
                        #[trigger] out@.contains(x) <==> (start.contains(x) || (legal(self@, x)
                            && to_before(x, from, tr as int, tc as int))),
                decreases 8 - tc,
            {
                self.legal_moves_between(from, Position { row: tr, col: tc }, out);
                tc = tc + 1;
            }
            tr = tr + 1;
        }
    }

    /// Every legal move of the side to move.
    pub fn legal_moves(&self) -> (r: Vec<Move>)
        requires
            self.wf(),
        ensures
            forall|x: Move| #[trigger] r@.contains(x) <==> legal(self@, x),
            r@.no_duplicates(),
    {
        let mut out: Vec<Move> = Vec::new();
        let mut fr: u8 = 0;
        while fr < 8
            invariant
                self.wf(),
                fr <= 8,
                out@.no_duplicates(),
                forall|x: Move|
                    #[trigger] out@.contains(x) <==> (legal(self@, x) && from_before(x, fr as int, 0)),
            decreases 8 - fr,
        {
            let mut fc: u8 = 0;
            while fc < 8
                invariant
                    self.wf(),
                    fr < 8,
                    fc <= 8,
                    out@.no_duplicates(),
                    forall|x: Move|
                        #[trigger] out@.contains(x) <==> (legal(self@, x) && from_before(
                            x,
                            fr as int,
                            fc as int,
                        )),
                decreases 8 - fc,
            {
                self.legal_moves_from(Position { row: fr, col: fc }, &mut out);
                fc = fc + 1;
            }
            fr = fr + 1;
        }
        out
    }
}

/// Some legal move exists in `v`.
pub open spec fn has_legal_move(v: BoardView) -> bool {
    exists|m: Move| #[trigger] legal(v, m)
}

/// The state of the game for the side to move.
pub open spec fn status_spec(v: BoardView) -> GameStatus {
    let check = in_check(v, mover_black(v));
    if has_legal_move(v) {
        if check { GameStatus::Check } else { GameStatus::Ongoing }
    } else {
        if check { GameStatus::Checkmate } else { GameStatus::Stalemate }
    }
}

impl Board {
    /// The position after `m`, or `IllegalMove` when `m` is not a legal move here.
    pub fn apply(&self, m: Move) -> (r: Result<Board, ChessError>)
        requires
            self.wf(),
        ensures
            r is Ok <==> legal(self@, m),
            r matches Ok(b) ==> b.wf() && b@ == apply_spec(self@, m),
            r matches Err(e) ==> e == ChessError::IllegalMove,
    {
        if self.is_legal(m) {
            Ok(self.apply_unchecked(m))
        } else {
            Err(ChessError::IllegalMove)
        }
    }

    /// Ongoing, check, checkmate or stalemate, for the side to move.
    pub fn game_status(&self) -> (r: GameStatus)
        requires
            self.wf(),
        ensures
            r == status_spec(self@),
    {
        let moves = self.legal_moves();
        let black = match self.turn {
            PlaySide::BLACK => true,
            PlaySide::WHITE => false,
        };
        let check = self.is_in_check(black);
        if moves.len() > 0 {
            proof {
                assert(moves@.contains(moves@[0]));
                assert(legal(self@, moves@[0]));
            }
            if check { GameStatus::Check } else { GameStatus::Ongoing }
        } else {
            proof {
                assert forall|m: Move| !legal(self@, m) by {
                    if legal(self@, m) {
                        assert(moves@.contains(m));
                    }
                }
            }
            if check { GameStatus::Checkmate } else { GameStatus::Stalemate }
        }
    }
}

impl Piece {
    /// The legal moves of `board` that start on `from`, provided this piece
    /// stands there (otherwise none); `InvalidSquare` when `from` is off the board.
    pub fn legal_moves(&self, board: &Board, from: Position) -> (r: Result<Vec<Move>, ChessError>)
        requires
            board.wf(),
        ensures
            r is Err <==> !pos_on_board(from),
            r matches Err(e) ==> e == ChessError::InvalidSquare,
            r matches Ok(v) ==> v@.no_duplicates(),
            r matches Ok(v) ==> forall|x: Move|
                #[trigger] v@.contains(x) <==> (legal(board@, x) && x.from == from && cell(
                    board@,
                    from.row as int,
                    from.col as int,
                ) == Some(*self)),
    {
        if from.row >= 8 || from.col >= 8 {
            return Err(ChessError::InvalidSquare);
        }
        let mut out: Vec<Move> = Vec::new();
        let here = match board.get(from.row as i32, from.col as i32) {
            Some(q) => q == *self,
            None => false,
        };
        if here {
            board.legal_moves_from(from, &mut out);
        }
        Ok(out)
    }
}

} // verus!
