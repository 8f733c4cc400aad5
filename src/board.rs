//! The position: an 8 by 8 grid of optional pieces and the state that goes
//! with it (side to move, castling rights, en-passant target, counters).
use vstd::prelude::*;

use crate::{Piece, PieceKinds, Position, Square, BOARDSIZE};

verus! {

#[derive(Clone, Copy, Debug, PartialEq, Eq, Structural)]
pub enum PlaySide {
    WHITE,
    BLACK,
}

/// The four independent castling rights.
#[derive(Clone, Copy, Debug, PartialEq, Eq, Structural)]
pub struct CastlingRights {
    pub white_kingside: bool,
    pub white_queenside: bool,
    pub black_kingside: bool,
    pub black_queenside: bool,
}

/// A position. The grid is stored row by row: cell `(r, c)` is `state[r * 8 + c]`.
pub struct Board {
    pub state: Vec<Square>,
    pub turn: PlaySide,
    pub castling: CastlingRights,
    pub en_passant: Option<Position>,
    pub halfmove_clock: u32,
    pub fullmove_number: u32,
}

/// The mathematical model of a `Board`.
pub struct BoardView {
    pub grid: Seq<Square>,
    pub turn: PlaySide,
    pub castling: CastlingRights,
    pub en_passant: Option<Position>,
    pub halfmove_clock: u32,
    pub fullmove_number: u32,
}

impl View for Board {
    type V = BoardView;

    open spec fn view(&self) -> BoardView {
        BoardView {
            grid: self.state@,
            turn: self.turn,
            castling: self.castling,
            en_passant: self.en_passant,
            halfmove_clock: self.halfmove_clock,
            fullmove_number: self.fullmove_number,
        }
    }
}

/// Kind of the piece that starts on column `c` of a back rank.
pub open spec fn back_rank_kind_spec(c: int) -> PieceKinds {
    if c == 0 || c == 7 {
        PieceKinds::ROOK
    } else if c == 1 || c == 6 {
        PieceKinds::KNIGHT
    } else if c == 2 || c == 5 {
        PieceKinds::BISHOP
    } else if c == 3 {
        PieceKinds::QUEEN
    } else {
        PieceKinds::KING
    }
}

/// Content of cell `i` (row-major index) in the standard initial position.
pub open spec fn initial_square(i: int) -> Square {
    if 0 <= i < 8 {
        Some(Piece { kind: back_rank_kind_spec(i), is_black: true, has_moved_before: false })
    } else if 8 <= i < 16 {
        Some(Piece { kind: PieceKinds::PAWN, is_black: true, has_moved_before: false })
    } else if 48 <= i < 56 {
        Some(Piece { kind: PieceKinds::PAWN, is_black: false, has_moved_before: false })
    } else if 56 <= i < 64 {
        Some(Piece { kind: back_rank_kind_spec(i - 56), is_black: false, has_moved_before: false })
    } else {
        None
    }
}

/// The cells that `init` fills: the two back ranks and the two pawn ranks.
pub open spec fn is_home_cell(i: int) -> bool {
    (0 <= i < 16) || (48 <= i < 64)
}

pub open spec fn all_rights() -> CastlingRights {
    CastlingRights {
        white_kingside: true,
        white_queenside: true,
        black_kingside: true,
        black_queenside: true,
    }
}

/// The standard initial position, White to move.
pub open spec fn initial_view() -> BoardView {
    BoardView {
        grid: Seq::new(64, |i: int| initial_square(i)),
        turn: PlaySide::WHITE,
        castling: all_rights(),
        en_passant: None,
        halfmove_clock: 0,
        fullmove_number: 1,
    }
}

fn back_rank_kind(c: u8) -> (r: PieceKinds)
    ensures
        r == back_rank_kind_spec(c as int),
{
    if c == 0 || c == 7 {
        PieceKinds::ROOK
    } else if c == 1 || c == 6 {
        PieceKinds::KNIGHT
    } else if c == 2 || c == 5 {
        PieceKinds::BISHOP
    } else if c == 3 {
        PieceKinds::QUEEN
    } else {
        PieceKinds::KING
    }
}

impl Board {
    /// The grid has its 64 cells and an en-passant target lies on the board.
    pub open spec fn wf(&self) -> bool {
        &&& self.state@.len() == 64
        &&& self.en_passant matches Some(e) ==> e.row < 8 && e.col < 8
    }

    /// A board with no pieces, White to move, every castling right set.
    pub fn empty() -> (r: Board)
        ensures
            r.wf(),
            r@.grid == Seq::new(64, |i: int| None::<Piece>),
            r@.turn == PlaySide::WHITE,
            r@.castling == all_rights(),
            r@.en_passant.is_none(),
            r@.halfmove_clock == 0,
            r@.fullmove_number == 1,
    {
        let mut state: Vec<Square> = Vec::new();
        let mut i: usize = 0;
        while i < BOARDSIZE * BOARDSIZE
            invariant
                i <= 64,
                state@.len() == i,
                forall|j: int| 0 <= j < i ==> state@[j].is_none(),
            decreases 64 - i,
        {
            state.push(None);
            i = i + 1;
        }
        assert(state@ =~= Seq::new(64, |i: int| None::<Piece>));
        Board {
            state,
            turn: PlaySide::WHITE,
            castling: CastlingRights {
                white_kingside: true,
                white_queenside: true,
                black_kingside: true,
                black_queenside: true,
            },
            en_passant: None,
            halfmove_clock: 0,
            fullmove_number: 1,
        }
    }

    /// The standard initial position.
    pub fn new() -> (r: Board)
        ensures
            r.wf(),
            r@ == initial_view(),
    {
        let mut a = Board::empty();
        a.init();
        assert(a@.grid =~= initial_view().grid);
        a
    }

    /// Places the pieces of both sides on their home ranks; the other cells
    /// and the rest of the state are left as they were.
    pub fn init(&mut self)
        requires
            old(self).wf(),
        ensures
            final(self).wf(),
            forall|i: int|
                0 <= i < 64 ==> #[trigger] final(self)@.grid[i] == if is_home_cell(i) {
                    initial_square(i)
                } else {
                    old(self)@.grid[i]
                },
            final(self).turn == old(self).turn,
            final(self).castling == old(self).castling,
            final(self).en_passant == old(self).en_passant,
            final(self).halfmove_clock == old(self).halfmove_clock,
            final(self).fullmove_number == old(self).fullmove_number,
    {
        let mut c: u8 = 0;
        while c < 8
            invariant
                c <= 8,
                self.wf(),
                old(self).wf(),
                forall|i: int|
                    0 <= i < 64 ==> #[trigger] self@.grid[i] == if (0 <= i < 8 && i < c) || (8
                        <= i < 16 && i - 8 < c) || (48 <= i < 56 && i - 48 < c) || (56 <= i < 64
                        && i - 56 < c) {
                        initial_square(i)
                    } else {
                        old(self)@.grid[i]
                    },
                self.turn == old(self).turn,
                self.castling == old(self).castling,
                self.en_passant == old(self).en_passant,
                self.halfmove_clock == old(self).halfmove_clock,
                self.fullmove_number == old(self).fullmove_number,
            decreases 8 - c,
        {
            let k = back_rank_kind(c);
            let cu = c as usize;
            let ghost prev = self@.grid;
            self.state.set(cu, Some(Piece::new(k, true)));
            self.state.set(8 + cu, Some(Piece::new(PieceKinds::PAWN, true)));
            self.state.set(48 + cu, Some(Piece::new(PieceKinds::PAWN, false)));
            self.state.set(56 + cu, Some(Piece::new(k, false)));
            proof {
                let n = c + 1;
                assert forall|i: int| 0 <= i < 64 implies #[trigger] self@.grid[i] == if (0 <= i
                    < 8 && i < n) || (8 <= i < 16 && i - 8 < n) || (48 <= i < 56 && i - 48 < n)
                    || (56 <= i < 64 && i - 56 < n) {
                    initial_square(i)
                } else {
                    old(self)@.grid[i]
                } by {
                    if i != c && i != 8 + c && i != 48 + c && i != 56 + c {
                        assert(self@.grid[i] == prev[i]);
                    }
                }
            }
            c = c + 1;
        }
    }

    /// Content of cell `(r, c)`.
    pub fn at(&self, r: u8, c: u8) -> (s: Square)
        requires
            self.wf(),
            r < 8,
            c < 8,
        ensures
            s == self@.grid[r * 8 + c],
    {
        self.state[(r as usize) * BOARDSIZE + (c as usize)]
    }

    pub fn side_to_move(&self) -> (r: PlaySide)
        ensures
            r == self@.turn,
    {
        self.turn
    }

    pub fn castling_rights(&self) -> (r: CastlingRights)
        ensures
            r == self@.castling,
    {
        self.castling
    }

    pub fn en_passant_target(&self) -> (r: Option<Position>)
        ensures
            r == self@.en_passant,
    {
        self.en_passant
    }

    pub fn halfmove_clock(&self) -> (r: u32)
        ensures
            r == self@.halfmove_clock,
    {
        self.halfmove_clock
    }

    pub fn fullmove_number(&self) -> (r: u32)
        ensures
            r == self@.fullmove_number,
    {
        self.fullmove_number
    }
}

} // verus!
