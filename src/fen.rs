//! The FEN notation of a position: the piece-placement field is decoded and
//! encoded here, and a whole FEN record is read into a `Board`.
use vstd::prelude::*;
use vstd::string::StringSliceAdditionalSpecFns;

use crate::board::{Board, BoardView, CastlingRights, PlaySide};
use crate::{ChessError, Piece, PieceKinds, Position, Square};

verus! {

/// Piece denoted by a FEN letter: lower case for Black, upper case for White.
pub open spec fn piece_of_byte(b: u8) -> Option<Piece> {
    let black = 97 <= b <= 122;
    let lower = if black { b } else { (b + 32) as u8 };
    if !(black || 65 <= b <= 90) {
        None
    } else if lower == 107 {
        Some(Piece { kind: PieceKinds::KING, is_black: black, has_moved_before: false })
    } else if lower == 113 {
        Some(Piece { kind: PieceKinds::QUEEN, is_black: black, has_moved_before: false })
    } else if lower == 98 {
        Some(Piece { kind: PieceKinds::BISHOP, is_black: black, has_moved_before: false })
    } else if lower == 110 {
        Some(Piece { kind: PieceKinds::KNIGHT, is_black: black, has_moved_before: false })
    } else if lower == 114 {
        Some(Piece { kind: PieceKinds::ROOK, is_black: black, has_moved_before: false })
    } else if lower == 112 {
        Some(Piece { kind: PieceKinds::PAWN, is_black: black, has_moved_before: false })
    } else {
        None
    }
}

/// Progress of reading a piece-placement field: the cells read so far, the
/// column reached in the current row, and whether the text is well formed.
pub struct PlacementState {
    pub cells: Seq<Square>,
    pub col: int,
    pub ok: bool,
}

pub open spec fn placement_start() -> PlacementState {
    PlacementState { cells: Seq::empty(), col: 0, ok: true }
}

/// Reads one byte: `/` ends a full row, a digit `1`..`8` skips that many
/// cells, a piece letter fills one cell; anything else, or a row that would
/// pass its eighth cell, makes the text malformed.
pub open spec fn placement_step(st: PlacementState, b: u8) -> PlacementState {
    if !st.ok {
        st
    } else if b == 47 {
        PlacementState { cells: st.cells, col: 0, ok: st.col == 8 }
    } else if 49 <= b <= 56 {
        let d = b - 48;
        if st.col + d <= 8 {
            PlacementState {
                cells: st.cells + Seq::new(d as nat, |i: int| None::<Piece>),
                col: st.col + d,
                ok: true,
            }
        } else {
            PlacementState { cells: st.cells, col: st.col, ok: false }
        }
    } else {
        match piece_of_byte(b) {
            Some(p) => if st.col < 8 {
                PlacementState { cells: st.cells.push(Some(p)), col: st.col + 1, ok: true }
            } else {
                PlacementState { cells: st.cells, col: st.col, ok: false }
            },
            None => PlacementState { cells: st.cells, col: st.col, ok: false },
        }
    }
}

pub open spec fn placement_fold(s: Seq<u8>) -> PlacementState
    decreases s.len(),
{
    if s.len() == 0 {
        placement_start()
    } else {
        placement_step(placement_fold(s.drop_last()), s.last())
    }
}

/// The 64 cells that a piece-placement field describes, row 0 (rank 8)
/// first, or `None` when the field is malformed.
pub open spec fn decode_placement(s: Seq<u8>) -> Option<Seq<Square>> {
    let st = placement_fold(s);
    if st.ok && st.col == 8 && st.cells.len() == 64 {
        Some(st.cells)
    } else {
        None
    }
}

fn piece_from_byte(b: u8) -> (r: Option<Piece>)
    ensures
        r == piece_of_byte(b),
{
    let black = 97 <= b && b <= 122;
    if !(black || (65 <= b && b <= 90)) {
        return None;
    }
    let lower = if black { b } else { b + 32 };
    let kind = if lower == 107 {
        PieceKinds::KING
    } else if lower == 113 {
        PieceKinds::QUEEN
    } else if lower == 98 {
        PieceKinds::BISHOP
    } else if lower == 110 {
        PieceKinds::KNIGHT
    } else if lower == 114 {
        PieceKinds::ROOK
    } else if lower == 112 {
        PieceKinds::PAWN
    } else {
        return None;
    };
    Some(Piece { kind, is_black: black, has_moved_before: false })
}

/// Once the text is malformed, what follows cannot mend it.
proof fn lemma_placement_fails_after(s: Seq<u8>, i: int)
    requires
        0 <= i <= s.len(),
        !placement_fold(s.subrange(0, i)).ok,
    ensures
        decode_placement(s) is None,
    decreases s.len() - i,
{
    if i < s.len() {
        assert(s.subrange(0, i + 1).drop_last() =~= s.subrange(0, i));
        lemma_placement_fails_after(s, i + 1);
    } else {
        assert(s.subrange(0, i) =~= s);
    }
}

/// `p` with its moved flag cleared: the one piece state that FEN does not record.
pub open spec fn unmoved(p: Piece) -> Piece {
    Piece { kind: p.kind, is_black: p.is_black, has_moved_before: false }
}

/// The grid as FEN records it.
pub open spec fn unmoved_grid(g: Seq<Square>) -> Seq<Square> {
    Seq::new(
        g.len(),
        |i: int|
            match g[i] {
                Some(p) => Some(unmoved(p)),
                None => None,
            },
    )
}

fn byte_of_piece(p: Piece) -> (b: u8)
    ensures
        piece_of_byte(b) == Some(unmoved(p)),
{
    let lower: u8 = match p.kind {
        PieceKinds::KING => 107,
        PieceKinds::QUEEN => 113,
        PieceKinds::BISHOP => 98,
        PieceKinds::KNIGHT => 110,
        PieceKinds::ROOK => 114,
        PieceKinds::PAWN => 112,
    };
    if p.is_black { lower } else { lower - 32 }
}

proof fn lemma_fold_push(s: Seq<u8>, b: u8)
    ensures
        placement_fold(s.push(b)) == placement_step(placement_fold(s), b),
{
    assert(s.push(b).drop_last() =~= s);
}

impl Board {
    /// Decodes a piece-placement field into the 64 cells of the grid.
    pub fn fen_piece_placement(field: &[u8]) -> (r: Result<Vec<Square>, ChessError>)
        ensures
            match decode_placement(field@) {
                Some(g) => r matches Ok(v) && v@ == g,
                None => r == Err::<Vec<Square>, ChessError>(ChessError::MalformedInput),
            },
    {
        let mut cells: Vec<Square> = Vec::new();
        let mut col: usize = 0;
        let mut i: usize = 0;
        while i < field.len()
            invariant
                i <= field@.len(),
                placement_fold(field@.subrange(0, i as int)).ok,
                placement_fold(field@.subrange(0, i as int)).cells == cells@,
                placement_fold(field@.subrange(0, i as int)).col == col as int,
                col <= 8,
                cells@.len() <= 8 * i + 8,
            decreases field@.len() - i,
        {
            let b = field[i];
            proof {
                assert(field@.subrange(0, i + 1).drop_last() =~= field@.subrange(0, i as int));
            }
            if b == 47 {
                if col != 8 {
                    proof {
                        lemma_placement_fails_after(field@, i as int + 1);
                    }
                    return Err(ChessError::MalformedInput);
                }
                col = 0;
            } else if 49 <= b && b <= 56 {
                let d = (b - 48) as usize;
                if col + d > 8 {
                    proof {
                        lemma_placement_fails_after(field@, i as int + 1);
                    }
                    return Err(ChessError::MalformedInput);
                }
                let ghost before = cells@;
                let mut k: usize = 0;
                while k < d
                    invariant
                        k <= d,
                        cells@ == before + Seq::new(k as nat, |j: int| None::<Piece>),
                    decreases d - k,
                {
                    cells.push(None);
                    k = k + 1;
                    proof {
                        assert(cells@ =~= before + Seq::new(k as nat, |j: int| None::<Piece>));
                    }
                }
                col = col + d;
            } else {
                match piece_from_byte(b) {
                    Some(p) => {
                        if col >= 8 {
                            proof {
                                lemma_placement_fails_after(field@, i as int + 1);
                            }
                            return Err(ChessError::MalformedInput);
                        }
                        cells.push(Some(p));
                        col = col + 1;
                    },
                    None => {
                        proof {
                            lemma_placement_fails_after(field@, i as int + 1);
                        }
                        return Err(ChessError::MalformedInput);
                    },
                }
            }
            i = i + 1;
        }
        proof {
            assert(field@.subrange(0, field@.len() as int) =~= field@);
        }
        if col == 8 && cells.len() == 64 {
            Ok(cells)
        } else {
            Err(ChessError::MalformedInput)
        }
    }

    /// The piece-placement field of this position; decoding it gives back the
    /// grid, up to the moved flags that FEN does not record.
    pub fn placement_field(&self) -> (r: Vec<u8>)
        requires
            self.wf(),
        ensures
            decode_placement(r@) == Some(unmoved_grid(self@.grid)),
    {
        let ghost g = unmoved_grid(self@.grid);
        let mut out: Vec<u8> = Vec::new();
        let mut row: usize = 0;
        while row < 8
            invariant
                self.wf(),
                g == unmoved_grid(self@.grid),
                row <= 8,
                row > 0 ==> placement_fold(out@) == (PlacementState {
                    cells: g.subrange(0, row * 8),
                    col: 8,
                    ok: true,
                }),
                row == 0 ==> out@.len() == 0,
            decreases 8 - row,
        {
            if row > 0 {
                proof {
                    lemma_fold_push(out@, 47);
                }
                out.push(47);
            }
            proof {
                if row == 0 {
                    assert(g.subrange(0, 0) =~= Seq::<Square>::empty());
                }
            }
            let mut col: usize = 0;
            let mut pending: usize = 0;
            while col < 8
                invariant
                    self.wf(),
                    g == unmoved_grid(self@.grid),
                    row < 8,
                    col <= 8,
                    pending <= col,
                    placement_fold(out@) == (PlacementState {
                        cells: g.subrange(0, (row * 8 + col - pending) as int),
                        col: col - pending,
                        ok: true,
                    }),
                    forall|j: int| row * 8 + col - pending <= j < row * 8 + col ==> g[j].is_none(),
                decreases 8 - col,
            {
                let ghost base = (row * 8 + col - pending) as int;
                match self.state[row * 8 + col] {
                    Some(p) => {
                        if pending > 0 {
                            let d = pending as u8 + 48;
                            proof {
                                lemma_fold_push(out@, d);
                                assert(g.subrange(0, base) + Seq::new(pending as nat, |i: int| None::<Piece>) =~= g.subrange(0, base + pending));
                            }
                            out.push(d);
                        }
                        let b = byte_of_piece(p);
                        proof {
                            lemma_fold_push(out@, b);
                            assert(g.subrange(0, (row * 8 + col) as int).push(Some(unmoved(p))) =~= g.subrange(0, (row * 8 + col + 1) as int));
                        }
                        out.push(b);
                        pending = 0;
                    },
                    None => {
                        pending = pending + 1;
                    },
                }
                col = col + 1;
            }
            if pending > 0 {
                let ghost base = (row * 8 + 8 - pending) as int;
                let d = pending as u8 + 48;
                proof {
                    lemma_fold_push(out@, d);
                    assert(g.subrange(0, base) + Seq::new(pending as nat, |i: int| None::<Piece>) =~= g.subrange(0, base + pending));
                }
                out.push(d);
            }
            row = row + 1;
        }
        proof {
            assert(g.subrange(0, 64) =~= g);
        }
        out
    }
}

/// Fields of a FEN record split at spaces: those closed so far and the one being read.
pub struct SplitState {
    pub done: Seq<Seq<u8>>,
    pub cur: Seq<u8>,
}

pub open spec fn split_fold(s: Seq<u8>) -> SplitState
    decreases s.len(),
{
    if s.len() == 0 {
        SplitState { done: Seq::empty(), cur: Seq::empty() }
    } else {
        let st = split_fold(s.drop_last());
        if s.last() == 32 {
            SplitState { done: st.done.push(st.cur), cur: Seq::empty() }
        } else {
            SplitState { done: st.done, cur: st.cur.push(s.last()) }
        }
    }
}

/// The space-separated fields of `s`.
pub open spec fn fields(s: Seq<u8>) -> Seq<Seq<u8>> {
    split_fold(s).done.push(split_fold(s).cur)
}

/// Side to move: `w` or `b`.
pub open spec fn turn_of(f: Seq<u8>) -> Option<PlaySide> {
    if f == seq![119u8] {
        Some(PlaySide::WHITE)
    } else if f == seq![98u8] {
        Some(PlaySide::BLACK)
    } else {
        None
    }
}

pub open spec fn castle_letter(b: u8) -> bool {
    b == 75 || b == 81 || b == 107 || b == 113
}

/// Castling field: `-`, or a non-empty run of the letters `K`, `Q`, `k`, `q`.
pub open spec fn castling_of(f: Seq<u8>) -> Option<CastlingRights> {
    if f == seq![45u8] {
        Some(
            CastlingRights {
                white_kingside: false,
                white_queenside: false,
                black_kingside: false,
                black_queenside: false,
            },
        )
    } else if f.len() > 0 && (forall|i: int| 0 <= i < f.len() ==> castle_letter(#[trigger] f[i])) {
        Some(
            CastlingRights {
                white_kingside: f.contains(75),
                white_queenside: f.contains(81),
                black_kingside: f.contains(107),
                black_queenside: f.contains(113),
            },
        )
    } else {
        None
    }
}

/// En-passant field: `-`, or a file letter `a`..`h` followed by a rank digit `1`..`8`.
pub open spec fn en_passant_of(f: Seq<u8>) -> Option<Option<Position>> {
    if f == seq![45u8] {
        Some(None)
    } else if f.len() == 2 && 97 <= f[0] <= 104 && 49 <= f[1] <= 56 {
        Some(Some(Position { row: (56 - f[1]) as u8, col: (f[0] - 97) as u8 }))
    } else {
        None
    }
}

pub open spec fn is_digit(b: u8) -> bool {
    48 <= b <= 57
}

pub open spec fn decimal_value(s: Seq<u8>) -> int
    decreases s.len(),
{
    if s.len() == 0 {
        0
    } else {
        decimal_value(s.drop_last()) * 10 + (s.last() - 48)
    }
}

/// A counter: one to ten decimal digits whose value fits in `u32`.
pub open spec fn number_of(f: Seq<u8>) -> Option<u32> {
    if 0 < f.len() <= 10 && (forall|i: int| 0 <= i < f.len() ==> is_digit(#[trigger] f[i]))
        && decimal_value(f) <= 0xffff_ffff {
        Some(decimal_value(f) as u32)
    } else {
        None
    }
}

pub open spec fn king_count(g: Seq<Square>, black: bool) -> nat
    decreases g.len(),
{
    if g.len() == 0 {
        0
    } else {
        king_count(g.drop_last(), black) + match g.last() {
            Some(p) => if p.kind == PieceKinds::KING && p.is_black == black { 1nat } else { 0nat },
            None => 0nat,
        }
    }
}

/// The position a FEN record describes, or `None` when it is malformed or
/// does not hold exactly one king of each colour.
pub open spec fn decode_fen(s: Seq<u8>) -> Option<crate::board::BoardView> {
    let f = fields(s);
    if f.len() != 6 {
        None
    } else {
        match (
            decode_placement(f[0]),
            turn_of(f[1]),
            castling_of(f[2]),
            en_passant_of(f[3]),
            number_of(f[4]),
            number_of(f[5]),
        ) {
            (Some(g), Some(t), Some(c), Some(e), Some(h), Some(n)) => if king_count(g, false) == 1
                && king_count(g, true) == 1 {
                Some(
                    crate::board::BoardView {
                        grid: g,
                        turn: t,
                        castling: c,
                        en_passant: e,
                        halfmove_clock: h,
                        fullmove_number: n,
                    },
                )
            } else {
                None
            },
            _ => None,
        }
    }
}

fn split_fields(s: &[u8]) -> (r: Vec<Vec<u8>>)
    ensures
        r@.len() == fields(s@).len(),
        forall|k: int| 0 <= k < r@.len() ==> #[trigger] r@[k]@ == fields(s@)[k],
{
    let mut done: Vec<Vec<u8>> = Vec::new();
    let mut cur: Vec<u8> = Vec::new();
    let mut i: usize = 0;
    while i < s.len()
        invariant
            i <= s@.len(),
            done@.len() == split_fold(s@.subrange(0, i as int)).done.len(),
            forall|k: int|
                0 <= k < done@.len() ==> #[trigger] done@[k]@ == split_fold(
                    s@.subrange(0, i as int),
                ).done[k],
            cur@ == split_fold(s@.subrange(0, i as int)).cur,
        decreases s@.len() - i,
    {
        proof {
            assert(s@.subrange(0, i + 1).drop_last() =~= s@.subrange(0, i as int));
        }
        if s[i] == 32 {
            let field = cur;
            done.push(field);
            cur = Vec::new();
        } else {
            cur.push(s[i]);
        }
        i = i + 1;
    }
    proof {
        assert(s@.subrange(0, s@.len() as int) =~= s@);
    }
    done.push(cur);
    done
}

fn parse_turn(f: &Vec<u8>) -> (r: Option<PlaySide>)
    ensures
        r == turn_of(f@),
{
    if f.len() == 1 && f[0] == 119 {
        assert(f@ =~= seq![119u8]);
        Some(PlaySide::WHITE)
    } else if f.len() == 1 && f[0] == 98 {
        assert(f@ =~= seq![98u8]);
        Some(PlaySide::BLACK)
    } else {
        proof {
            if f@ == seq![119u8] || f@ == seq![98u8] {
                assert(f@[0] == f@[0]);
            }
        }
        None
    }
}

fn parse_castling(f: &Vec<u8>) -> (r: Option<CastlingRights>)
    ensures
        r == castling_of(f@),
{
    if f.len() == 1 && f[0] == 45 {
        assert(f@ =~= seq![45u8]);
        return Some(
            CastlingRights {
                white_kingside: false,
                white_queenside: false,
                black_kingside: false,
                black_queenside: false,
            },
        );
    }
    proof {
        if f@ == seq![45u8] {
            assert(f@.len() == 1 && f@[0] == 45);
        }
    }
    assert(f@ != seq![45u8]);
    if f.len() == 0 {
        return None;
    }
    let mut rights = CastlingRights {
        white_kingside: false,
        white_queenside: false,
        black_kingside: false,
        black_queenside: false,
    };
    let mut i: usize = 0;
    while i < f.len()
        invariant
            i <= f@.len(),
            f@.len() > 0,
            f@ != seq![45u8],
            forall|j: int| 0 <= j < i ==> castle_letter(#[trigger] f@[j]),
            rights.white_kingside == f@.subrange(0, i as int).contains(75),
            rights.white_queenside == f@.subrange(0, i as int).contains(81),
            rights.black_kingside == f@.subrange(0, i as int).contains(107),
            rights.black_queenside == f@.subrange(0, i as int).contains(113),
        decreases f@.len() - i,
    {
        let b = f[i];
        proof {
            let a = f@.subrange(0, i as int);
            let a1 = f@.subrange(0, i + 1);
            assert(a1 =~= a.push(b));
            assert forall|x: u8| a1.contains(x) <==> (a.contains(x) || x == b) by {
                if a.contains(x) {
                    let j = choose|j: int| 0 <= j < a.len() && a[j] == x;
                    assert(a1[j] == x);
                }
                if x == b {
                    assert(a1[i as int] == x);
                }
                if a1.contains(x) {
                    let j = choose|j: int| 0 <= j < a1.len() && a1[j] == x;
                    if j < i {
                        assert(a[j] == x);
                    }
                }
            }
        }
        if b == 75 {
            rights.white_kingside = true;
        } else if b == 81 {
            rights.white_queenside = true;
        } else if b == 107 {
            rights.black_kingside = true;
        } else if b == 113 {
            rights.black_queenside = true;
        } else {
            proof {
                assert(!castle_letter(f@[i as int]));
            }
            return None;
        }
        i = i + 1;
    }
    assert(f@.subrange(0, f@.len() as int) =~= f@);
    Some(rights)
}

fn parse_en_passant(f: &Vec<u8>) -> (r: Option<Option<Position>>)
    ensures
        r == en_passant_of(f@),
{
    if f.len() == 1 && f[0] == 45 {
        assert(f@ =~= seq![45u8]);
        return Some(None);
    }
    proof {
        if f@ == seq![45u8] {
            assert(f@[0] == 45);
        }
    }
    if f.len() == 2 && 97 <= f[0] && f[0] <= 104 && 49 <= f[1] && f[1] <= 56 {
        Some(Some(Position { row: 56 - f[1], col: f[0] - 97 }))
    } else {
        None
    }
}

fn parse_number(f: &Vec<u8>) -> (r: Option<u32>)
    ensures
        r == number_of(f@),
{
    if f.len() == 0 || f.len() > 10 {
        return None;
    }
    let mut value: u64 = 0;
    let mut i: usize = 0;
    while i < f.len()
        invariant
            0 < f@.len() <= 10,
            i <= f@.len(),
            forall|j: int| 0 <= j < i ==> is_digit(#[trigger] f@[j]),
            value == decimal_value(f@.subrange(0, i as int)),
            value < pow10(i as nat),
        decreases f@.len() - i,
    {
        let b = f[i];
        if b < 48 || b > 57 {
            return None;
        }
        proof {
            assert(f@.subrange(0, i + 1).drop_last() =~= f@.subrange(0, i as int));
            lemma_pow10_bound(i as nat);
        }
        value = value * 10 + (b - 48) as u64;
        i = i + 1;
    }
    assert(f@.subrange(0, f@.len() as int) =~= f@);
    if value > 0xffff_ffff {
        None
    } else {
        Some(value as u32)
    }
}

pub open spec fn pow10(n: nat) -> nat
    decreases n,
{
    if n == 0 { 1 } else { 10 * pow10((n - 1) as nat) }
}

proof fn lemma_pow10_bound(n: nat)
    requires
        n <= 9,
    ensures
        pow10(n) <= 1_000_000_000,
        pow10(n + 1) == 10 * pow10(n),
    decreases 9 - n,
{
    if n < 9 {
        lemma_pow10_bound(n + 1);
    } else {
        reveal_with_fuel(pow10, 10);
    }
}

fn count_kings(g: &Vec<Square>, black: bool) -> (r: usize)
    ensures
        r == king_count(g@, black),
{
    let mut n: usize = 0;
    let mut i: usize = 0;
    while i < g.len()
        invariant
            i <= g@.len(),
            n == king_count(g@.subrange(0, i as int), black),
            n <= i,
        decreases g@.len() - i,
    {
        proof {
            assert(g@.subrange(0, i + 1).drop_last() =~= g@.subrange(0, i as int));
        }
        match g[i] {
            Some(p) => {
                if p.kind == PieceKinds::KING && p.is_black == black {
                    n = n + 1;
                }
            },
            None => {},
        }
        i = i + 1;
    }
    assert(g@.subrange(0, g@.len() as int) =~= g@);
    n
}

impl Board {
    /// Reads a whole FEN record into this board. On `MalformedInput` the
    /// board is left as it was.
    pub fn load_fen(&mut self, fen: &str) -> (r: Result<(), ChessError>)
        ensures
            match decode_fen(fen.spec_bytes()) {
                Some(v) => r is Ok && final(self).wf() && final(self)@ == v,
                None => r == Err::<(), ChessError>(ChessError::MalformedInput) && *final(self)
                    == *old(self),
            },
    {
        let bytes = fen.as_bytes();
        let parts = split_fields(bytes);
        if parts.len() != 6 {
            return Err(ChessError::MalformedInput);
        }
        let grid = match Board::fen_piece_placement(parts[0].as_slice()) {
            Ok(g) => g,
            Err(e) => { return Err(e); },
        };
        let turn = match parse_turn(&parts[1]) {
            Some(t) => t,
            None => { return Err(ChessError::MalformedInput); },
        };
        let castling = match parse_castling(&parts[2]) {
            Some(c) => c,
            None => { return Err(ChessError::MalformedInput); },
        };
        let en_passant = match parse_en_passant(&parts[3]) {
            Some(e) => e,
            None => { return Err(ChessError::MalformedInput); },
        };
        let halfmove_clock = match parse_number(&parts[4]) {
            Some(n) => n,
            None => { return Err(ChessError::MalformedInput); },
        };
        let fullmove_number = match parse_number(&parts[5]) {
            Some(n) => n,
            None => { return Err(ChessError::MalformedInput); },
        };
        if count_kings(&grid, false) != 1 || count_kings(&grid, true) != 1 {
            return Err(ChessError::MalformedInput);
        }
        self.state = grid;
        self.turn = turn;
        self.castling = castling;
        self.en_passant = en_passant;
        self.halfmove_clock = halfmove_clock;
        self.fullmove_number = fullmove_number;
        Ok(())
    }
}

pub open spec fn no_space(f: Seq<u8>) -> bool {
    forall|i: int| 0 <= i < f.len() ==> #[trigger] f[i] != 32
}

proof fn lemma_split_append(s: Seq<u8>, f: Seq<u8>)
    requires
        no_space(f),
    ensures
        split_fold(s + f).done == split_fold(s).done,
        split_fold(s + f).cur == split_fold(s).cur + f,
    decreases f.len(),
{
    if f.len() == 0 {
        assert(s + f =~= s);
        assert(split_fold(s).cur + f =~= split_fold(s).cur);
    } else {
        let g = f.drop_last();
        assert((s + f).drop_last() =~= s + g);
        assert(f.last() == f[f.len() - 1]);
        lemma_split_append(s, g);
        assert(split_fold(s).cur + g.push(f.last()) =~= (split_fold(s).cur + g).push(f.last()));
        assert(g.push(f.last()) =~= f);
    }
}

proof fn lemma_split_space(s: Seq<u8>)
    ensures
        split_fold(s.push(32)).done == split_fold(s).done.push(split_fold(s).cur),
        split_fold(s.push(32)).cur == Seq::<u8>::empty(),
{
    assert(s.push(32).drop_last() =~= s);
}

/// A well-formed piece-placement field holds no space.
proof fn lemma_placement_no_space(s: Seq<u8>)
    requires
        decode_placement(s) is Some,
    ensures
        no_space(s),
{
    assert forall|i: int| 0 <= i < s.len() implies #[trigger] s[i] != 32 by {
        if s[i] == 32 {
            assert(s.subrange(0, i + 1).drop_last() =~= s.subrange(0, i));
            lemma_placement_fails_after(s, i + 1);
        }
    }
}

/// Decimal digits of `n`, without leading zeros.
pub open spec fn decimal_digits(n: nat) -> Seq<u8>
    decreases n,
{
    if n < 10 {
        seq![(48 + n) as u8]
    } else {
        decimal_digits(n / 10).push((48 + n % 10) as u8)
    }
}

proof fn lemma_decimal_digits(n: nat)
    ensures
        decimal_value(decimal_digits(n)) == n,
        forall|i: int| 0 <= i < decimal_digits(n).len() ==> is_digit(#[trigger] decimal_digits(n)[i]),
        0 < decimal_digits(n).len(),
        n < 10_000_000_000 ==> decimal_digits(n).len() <= 10,
        n < 1_000_000_000 ==> decimal_digits(n).len() <= 9,
        n < 100_000_000 ==> decimal_digits(n).len() <= 8,
        n < 10_000_000 ==> decimal_digits(n).len() <= 7,
        n < 1_000_000 ==> decimal_digits(n).len() <= 6,
        n < 100_000 ==> decimal_digits(n).len() <= 5,
        n < 10_000 ==> decimal_digits(n).len() <= 4,
        n < 1_000 ==> decimal_digits(n).len() <= 3,
        n < 100 ==> decimal_digits(n).len() <= 2,
    decreases n,
{
    if n < 10 {
        let d = decimal_digits(n);
        assert(d.drop_last() =~= Seq::<u8>::empty());
        assert(d.last() == 48 + n);
        assert(decimal_value(d) == decimal_value(d.drop_last()) * 10 + (d.last() - 48));
        assert(decimal_value(Seq::<u8>::empty()) == 0);
    } else {
        lemma_decimal_digits(n / 10);
        let d = decimal_digits(n);
        assert(d.drop_last() =~= decimal_digits(n / 10));
        assert(d.last() == 48 + n % 10);
        assert(n == (n / 10) * 10 + n % 10);
        assert(decimal_value(d) == decimal_value(d.drop_last()) * 10 + (d.last() - 48));
    }
}

fn push_decimal(n: u32, out: &mut Vec<u8>)
    ensures
        final(out)@ == old(out)@ + decimal_digits(n as nat),
    decreases n,
{
    if n >= 10 {
        push_decimal(n / 10, out);
    }
    out.push(48 + (n % 10) as u8);
    proof {
        if n >= 10 {
            assert(old(out)@ + decimal_digits((n / 10) as nat) + seq![(48 + n % 10) as u8] =~= old(
                out,
            )@ + decimal_digits(n as nat));
        } else {
            assert(old(out)@.push((48 + n % 10) as u8) =~= old(out)@ + decimal_digits(n as nat));
        }
    }
}

proof fn lemma_number_round_trip(n: u32)
    ensures
        number_of(decimal_digits(n as nat)) == Some(n),
        no_space(decimal_digits(n as nat)),
{
    lemma_decimal_digits(n as nat);
}

/// Castling field of `c`: the letters of the rights held, in the order `KQkq`, or `-`.
pub open spec fn castling_field(c: CastlingRights) -> Seq<u8> {
    let s = (if c.white_kingside { seq![75u8] } else { Seq::empty() }) + (if c.white_queenside {
        seq![81u8]
    } else {
        Seq::empty()
    }) + (if c.black_kingside { seq![107u8] } else { Seq::empty() }) + (if c.black_queenside {
        seq![113u8]
    } else {
        Seq::empty()
    });
    if s.len() == 0 { seq![45u8] } else { s }
}

pub open spec fn king_count_unmoved_eq(g: Seq<Square>) -> bool {
    king_count(unmoved_grid(g), false) == king_count(g, false) && king_count(unmoved_grid(g), true)
        == king_count(g, true)
}

proof fn lemma_unmoved_king_count(g: Seq<Square>)
    ensures
        king_count_unmoved_eq(g),
    decreases g.len(),
{
    if g.len() > 0 {
        assert(unmoved_grid(g).drop_last() =~= unmoved_grid(g.drop_last()));
        lemma_unmoved_king_count(g.drop_last());
    }
}

fn push_field_byte(out: &mut Vec<u8>, b: u8)
    ensures
        final(out)@ == old(out)@ + seq![b],
{
    out.push(b);
    assert(old(out)@.push(b) =~= old(out)@ + seq![b]);
}

fn push_castling(c: CastlingRights, out: &mut Vec<u8>)
    ensures
        final(out)@ == old(out)@ + castling_field(c),
{
    let ghost start = out@;
    if !(c.white_kingside || c.white_queenside || c.black_kingside || c.black_queenside) {
        push_field_byte(out, 45);
        return;
    }
    let ghost a = if c.white_kingside { seq![75u8] } else { Seq::<u8>::empty() };
    let ghost b = if c.white_queenside { seq![81u8] } else { Seq::<u8>::empty() };
    let ghost k = if c.black_kingside { seq![107u8] } else { Seq::<u8>::empty() };
    let ghost q = if c.black_queenside { seq![113u8] } else { Seq::<u8>::empty() };
    if c.white_kingside {
        push_field_byte(out, 75);
    }
    assert(out@ =~= start + a);
    if c.white_queenside {
        push_field_byte(out, 81);
    }
    assert(out@ =~= start + (a + b));
    if c.black_kingside {
        push_field_byte(out, 107);
    }
    assert(out@ =~= start + (a + b + k));
    if c.black_queenside {
        push_field_byte(out, 113);
    }
    assert(out@ =~= start + (a + b + k + q));
}

proof fn lemma_castling_round_trip(c: CastlingRights)
    ensures
        castling_of(castling_field(c)) == Some(c),
        no_space(castling_field(c)),
{
    let f = castling_field(c);
    if !(c.white_kingside || c.white_queenside || c.black_kingside || c.black_queenside) {
    } else {
        assert(f != seq![45u8]) by {
            if f == seq![45u8] {
                assert(f[0] == 45);
            }
        }
        assert forall|i: int| 0 <= i < f.len() implies castle_letter(#[trigger] f[i]) by {}
        assert(f.contains(75) == c.white_kingside) by {
            if c.white_kingside {
                assert(f[0] == 75);
            }
        }
        assert(f.contains(81) == c.white_queenside) by {
            if c.white_queenside {
                let i = if c.white_kingside { 1int } else { 0int };
                assert(f[i] == 81);
            }
        }
        assert(f.contains(107) == c.black_kingside) by {
            if c.black_kingside {
                let i = (if c.white_kingside { 1int } else { 0int }) + (if c.white_queenside { 1int } else { 0int });
                assert(f[i] == 107);
            }
        }
        assert(f.contains(113) == c.black_queenside) by {
            if c.black_queenside {
                let i = f.len() - 1;
                assert(f[i] == 113);
            }
        }
    }
}

pub open spec fn en_passant_field(e: Option<Position>) -> Seq<u8> {
    match e {
        Some(p) => seq![(97 + p.col) as u8, (56 - p.row) as u8],
        None => seq![45u8],
    }
}

pub open spec fn turn_field(t: PlaySide) -> Seq<u8> {
    match t {
        PlaySide::WHITE => seq![119u8],
        PlaySide::BLACK => seq![98u8],
    }
}

/// `v` as a FEN record gives it back: the grid without the moved flags.
pub open spec fn as_recorded(v: BoardView) -> BoardView {
    BoardView {
        grid: unmoved_grid(v.grid),
        turn: v.turn,
        castling: v.castling,
        en_passant: v.en_passant,
        halfmove_clock: v.halfmove_clock,
        fullmove_number: v.fullmove_number,
    }
}

/// Appending a field that holds no space, then a space, closes that field.
proof fn lemma_close_field(s: Seq<u8>, f: Seq<u8>)
    requires
        no_space(f),
        split_fold(s).cur == Seq::<u8>::empty(),
    ensures
        split_fold(s + f).done == split_fold(s).done,
        split_fold(s + f).cur == f,
        split_fold((s + f).push(32)).done == split_fold(s).done.push(f),
        split_fold((s + f).push(32)).cur == Seq::<u8>::empty(),
{
    lemma_split_append(s, f);
    assert(Seq::<u8>::empty() + f =~= f);
    lemma_split_space(s + f);
}

fn push_bytes(out: &mut Vec<u8>, f: &Vec<u8>)
    ensures
        final(out)@ == old(out)@ + f@,
{
    let mut i: usize = 0;
    while i < f.len()
        invariant
            i <= f@.len(),
            out@ == old(out)@ + f@.subrange(0, i as int),
        decreases f@.len() - i,
    {
        out.push(f[i]);
        i = i + 1;
        assert(out@ =~= old(out)@ + f@.subrange(0, i as int));
    }
    assert(f@.subrange(0, f@.len() as int) =~= f@);
}

/// Six fields joined by single spaces.
pub open spec fn record(
    a: Seq<u8>,
    b: Seq<u8>,
    c: Seq<u8>,
    d: Seq<u8>,
    e: Seq<u8>,
    f: Seq<u8>,
) -> Seq<u8> {
    a + seq![32u8] + b + seq![32u8] + c + seq![32u8] + d + seq![32u8] + e + seq![32u8] + f
}

proof fn lemma_record_fields(
    a: Seq<u8>,
    b: Seq<u8>,
    c: Seq<u8>,
    d: Seq<u8>,
    e: Seq<u8>,
    f: Seq<u8>,
)
    requires
        no_space(a),
        no_space(b),
        no_space(c),
        no_space(d),
        no_space(e),
        no_space(f),
    ensures
        fields(record(a, b, c, d, e, f)) == seq![a, b, c, d, e, f],
{
    let s0 = Seq::<u8>::empty();
    lemma_close_field(s0, a);
    let s1 = (s0 + a).push(32);
    lemma_close_field(s1, b);
    let s2 = (s1 + b).push(32);
    lemma_close_field(s2, c);
    let s3 = (s2 + c).push(32);
    lemma_close_field(s3, d);
    let s4 = (s3 + d).push(32);
    lemma_close_field(s4, e);
    let s5 = (s4 + e).push(32);
    lemma_close_field(s5, f);
    assert(record(a, b, c, d, e, f) =~= s5 + f);
    assert(fields(s5 + f) =~= seq![a, b, c, d, e, f]);
}

proof fn lemma_decode_record(v: BoardView, pf: Seq<u8>)
    requires
        decode_placement(pf) == Some(unmoved_grid(v.grid)),
        king_count(v.grid, false) == 1,
        king_count(v.grid, true) == 1,
        v.en_passant matches Some(e) ==> e.row < 8 && e.col < 8,
    ensures
        decode_fen(
            record(
                pf,
                turn_field(v.turn),
                castling_field(v.castling),
                en_passant_field(v.en_passant),
                decimal_digits(v.halfmove_clock as nat),
                decimal_digits(v.fullmove_number as nat),
            ),
        ) == Some(as_recorded(v)),
{
    let tf = turn_field(v.turn);
    let ef = en_passant_field(v.en_passant);
    lemma_placement_no_space(pf);
    lemma_castling_round_trip(v.castling);
    lemma_number_round_trip(v.halfmove_clock);
    lemma_number_round_trip(v.fullmove_number);
    lemma_unmoved_king_count(v.grid);
    assert(no_space(tf));
    assert(no_space(ef));
    lemma_record_fields(
        pf,
        tf,
        castling_field(v.castling),
        ef,
        decimal_digits(v.halfmove_clock as nat),
        decimal_digits(v.fullmove_number as nat),
    );
    if v.turn == PlaySide::BLACK {
        assert(tf != seq![119u8]) by {
            assert(tf[0] == 98);
            assert(seq![119u8][0] == 119);
        }
    }
    assert(turn_of(tf) == Some(v.turn));
    match v.en_passant {
        Some(e) => {
            assert(ef != seq![45u8]) by {
                if ef == seq![45u8] {
                    assert(ef.len() == 1);
                }
            }
        },
        None => {},
    }
    assert(en_passant_of(ef) == Some(v.en_passant));
}

impl Board {
    /// The FEN record of this position. Where each colour has one king,
    /// decoding the record gives the position back, up to the moved flags
    /// that FEN does not record.
    pub fn to_fen(&self) -> (r: Vec<u8>)
        requires
            self.wf(),
        ensures
            king_count(self@.grid, false) == 1 && king_count(self@.grid, true) == 1 ==> decode_fen(
                r@,
            ) == Some(as_recorded(self@)),
    {
        let placement = self.placement_field();
        let ghost pf = placement@;
        let mut out: Vec<u8> = Vec::new();
        push_bytes(&mut out, &placement);
        push_field_byte(&mut out, 32);
        match self.turn {
            PlaySide::WHITE => push_field_byte(&mut out, 119),
            PlaySide::BLACK => push_field_byte(&mut out, 98),
        }
        assert(out@ =~= pf + seq![32u8] + turn_field(self.turn));
        push_field_byte(&mut out, 32);
        push_castling(self.castling, &mut out);
        push_field_byte(&mut out, 32);
        let ghost s3 = out@;
        match self.en_passant {
            Some(e) => {
                push_field_byte(&mut out, 97 + e.col);
                push_field_byte(&mut out, 56 - e.row);
            },
            None => push_field_byte(&mut out, 45),
        }
        assert(out@ =~= s3 + en_passant_field(self.en_passant));
        push_field_byte(&mut out, 32);
        push_decimal(self.halfmove_clock, &mut out);
        push_field_byte(&mut out, 32);
        push_decimal(self.fullmove_number, &mut out);
        proof {
            assert(out@ =~= record(
                pf,
                turn_field(self.turn),
                castling_field(self.castling),
                en_passant_field(self.en_passant),
                decimal_digits(self.halfmove_clock as nat),
                decimal_digits(self.fullmove_number as nat),
            ));
            if king_count(self@.grid, false) == 1 && king_count(self@.grid, true) == 1 {
                lemma_decode_record(self@, pf);
            }
        }
        out
    }
}

/// One king of each colour and no pawn on an end rank.
pub open spec fn consistent(v: BoardView) -> bool {
    &&& king_count(v.grid, false) == 1
    &&& king_count(v.grid, true) == 1
    &&& forall|i: int| (0 <= i < 8 || 56 <= i < 64) ==> !#[trigger] is_pawn_at(v.grid, i)
}

pub open spec fn is_pawn_at(g: Seq<Square>, i: int) -> bool {
    match g[i] {
        Some(p) => p.kind == PieceKinds::PAWN,
        None => false,
    }
}

impl Board {
    /// `ConsistencyError` when the position lacks a king, has a second king
    /// of a colour, or has a pawn on an end rank.
    pub fn validate(&self) -> (r: Result<(), ChessError>)
        requires
            self.wf(),
        ensures
            r is Ok <==> consistent(self@),
            r matches Err(e) ==> e == ChessError::ConsistencyError,
    {
        if count_kings(&self.state, false) != 1 || count_kings(&self.state, true) != 1 {
            return Err(ChessError::ConsistencyError);
        }
        let mut c: usize = 0;
        while c < 8
            invariant
                self.wf(),
                c <= 8,
                king_count(self@.grid, false) == 1,
                king_count(self@.grid, true) == 1,
                forall|j: int| (0 <= j < c || 56 <= j < 56 + c) ==> !#[trigger] is_pawn_at(self@.grid, j),
            decreases 8 - c,
        {
            let top = match self.state[c] {
                Some(p) => p.kind == PieceKinds::PAWN,
                None => false,
            };
            let bottom = match self.state[56 + c] {
                Some(p) => p.kind == PieceKinds::PAWN,
                None => false,
            };
            assert(is_pawn_at(self@.grid, c as int) == top);
            assert(is_pawn_at(self@.grid, 56 + c) == bottom);
            if top || bottom {
                return Err(ChessError::ConsistencyError);
            }
            c = c + 1;
        }
        Ok(())
    }
}

} // verus!
