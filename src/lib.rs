//! Chess rules core: board model, move legality, move application and the
//! piece-placement field of the FEN notation.
use vstd::prelude::*;

pub mod board;
pub mod fen;
pub mod laws;
pub mod rules;

pub use board::{Board, BoardView, CastlingRights, PlaySide};

verus! {

/// Number of rows and of columns of the board.
pub const BOARDSIZE: usize = 8;

/// A (row, column) coordinate. Row 0 is rank 8, row 7 is rank 1; column 0 is file a.
#[derive(Clone, Copy, Debug, PartialEq, Eq, Structural)]
pub struct Position {
    pub row: u8,
    pub col: u8,
}

/// The content of one cell of the board.
pub type Square = Option<Piece>;

#[derive(Clone, Copy, Debug, PartialEq, Eq, Structural)]
pub enum PieceKinds {
    KING,
    QUEEN,
    BISHOP,
    KNIGHT,
    ROOK,
    PAWN,
}

#[derive(Clone, Copy, Debug, PartialEq, Eq, Structural)]
pub struct Piece {
    pub kind: PieceKinds,
    pub is_black: bool,
    pub has_moved_before: bool,
}

impl Piece {
    pub fn new(kind: PieceKinds, is_black: bool) -> (r: Piece)
        ensures
            r == (Piece { kind, is_black, has_moved_before: false }),
    {
        Piece { kind, is_black, has_moved_before: false }
    }
}

#[derive(Clone, Copy, Debug, PartialEq, Eq, Structural)]
pub enum CastleSide {
    KINGSIDE,
    QUEENSIDE,
}

#[derive(Clone, Copy, Debug, PartialEq, Eq, Structural)]
pub enum MoveKind {
    Normal,
    Capture,
    DoublePawnStep,
    EnPassantCapture,
    Castle(CastleSide),
    Promotion(PieceKinds),
}

#[derive(Clone, Copy, Debug, PartialEq, Eq, Structural)]
pub struct Move {
    pub from: Position,
    pub to: Position,
    pub kind: MoveKind,
}

#[derive(Clone, Copy, Debug, PartialEq, Eq, Structural)]
pub enum ChessError {
    /// The text does not describe a position.
    MalformedInput,
    /// A coordinate lies outside `0..8`.
    InvalidSquare,
    /// The move is not one of the legal moves of the position.
    IllegalMove,
    /// The position breaks an invariant that play preserves (a missing or
    /// extra king, a pawn on an end rank).
    ConsistencyError,
}

#[derive(Clone, Copy, Debug, PartialEq, Eq, Structural)]
pub enum GameStatus {
    Ongoing,
    Check,
    Checkmate,
    Stalemate,
}

} // verus!
