//! The board: seven columns of six cells, filled from the bottom up.
use vstd::prelude::*;

use crate::error::Error;

verus! {

/// One of the two player roles of a game.
#[derive(Clone, Copy, Debug, PartialEq, Eq, Structural)]
pub enum Slot {
    First,
    Second,
}

impl Slot {
    pub open spec fn opponent(self) -> Slot {
        match self {
            Slot::First => Slot::Second,
            Slot::Second => Slot::First,
        }
    }

    /// The other role.
    pub fn other(self) -> (r: Slot)
        ensures
            r == self.opponent(),
    {
        match self {
            Slot::First => Slot::Second,
            Slot::Second => Slot::First,
        }
    }
}

/// A cell of the board.
#[derive(Clone, Copy, Debug, PartialEq, Eq, Structural)]
pub enum Cell {
    Empty,
    Occupied(Slot),
}

/// The grid, stored column by column: the cell of column `c` and row `r`
/// (row 0 at the bottom) is at position `c * 6 + r`.
#[derive(Clone, Copy, Debug)]
pub struct Board {
    pub cells: [Cell; 42],
}

impl View for Board {
    type V = Seq<Cell>;

    open spec fn view(&self) -> Seq<Cell> {
        self.cells@
    }
}

/// Whether `(c, r)` names a cell of the board.
pub open spec fn in_bounds(c: int, r: int) -> bool {
    0 <= c < 7 && 0 <= r < 6
}

/// The cell of column `c` and row `r`.
pub open spec fn cell(b: Seq<Cell>, c: int, r: int) -> Cell {
    b[c * 6 + r]
}

/// The board with no stone on it.
pub open spec fn empty_board() -> Seq<Cell> {
    Seq::new(42, |i: int| Cell::Empty)
}

/// No column holds an empty cell below an occupied one.
pub open spec fn no_gaps(b: Seq<Cell>) -> bool {
    forall|c: int, r1: int, r2: int|
        0 <= c < 7 && 0 <= r1 < r2 < 6 && #[trigger] cell(b, c, r2) != Cell::Empty ==> #[trigger] cell(
            b,
            c,
            r1,
        ) != Cell::Empty
}

/// The lowest empty row of column `c` at or above row `r`, or 6 if there is none.
pub open spec fn lowest_empty_from(b: Seq<Cell>, c: int, r: int) -> int
    decreases 6 - r,
{
    if r >= 6 {
        6
    } else if cell(b, c, r) == Cell::Empty {
        r
    } else {
        lowest_empty_from(b, c, r + 1)
    }
}

/// The row where a stone dropped into column `c` lands; 6 when the column is full.
pub open spec fn landing_row(b: Seq<Cell>, c: int) -> int {
    lowest_empty_from(b, c, 0)
}

/// The board after a stone of `s` is dropped into column `c`, which is not full.
pub open spec fn drop_stone(b: Seq<Cell>, c: int, s: Slot) -> Seq<Cell> {
    b.update(c * 6 + landing_row(b, c), Cell::Occupied(s))
}

/// Cell `(c, r)` exists and holds a stone of `s`.
pub open spec fn holds(b: Seq<Cell>, s: Slot, c: int, r: int) -> bool {
    in_bounds(c, r) && cell(b, c, r) == Cell::Occupied(s)
}

/// Column step of axis `d`: horizontal, vertical, rising and falling diagonal.
pub open spec fn step_c(d: int) -> int {
    if d == 1 {
        0
    } else {
        1
    }
}

/// Row step of axis `d`.
pub open spec fn step_r(d: int) -> int {
    if d == 0 {
        0
    } else if d == 3 {
        -1
    } else {
        1
    }
}

/// Four stones of `s` in a line, starting at `(c, r)` and going along axis `d`.
pub open spec fn four_from(b: Seq<Cell>, s: Slot, c: int, r: int, d: int) -> bool {
    let dc = step_c(d);
    let dr = step_r(d);
    &&& 0 <= d < 4
    &&& holds(b, s, c, r)
    &&& holds(b, s, c + dc, r + dr)
    &&& holds(b, s, c + 2 * dc, r + 2 * dr)
    &&& holds(b, s, c + 3 * dc, r + 3 * dr)
}

/// Some axis of the board holds four or more consecutive stones of `s`.
pub open spec fn has_four(b: Seq<Cell>, s: Slot) -> bool {
    exists|c: int, r: int, d: int| #[trigger] four_from(b, s, c, r, d)
}

/// Every cell holds a stone.
pub open spec fn board_full(b: Seq<Cell>) -> bool {
    forall|i: int| 0 <= i < 42 ==> b[i] != Cell::Empty
}

/// The rows below the landing row are occupied, and the landing row itself, if on
/// the board, is empty.
pub proof fn lemma_lowest_empty_from(b: Seq<Cell>, c: int, r: int)
    requires
        0 <= r <= 6,
    ensures
        r <= lowest_empty_from(b, c, r) <= 6,
        forall|k: int| r <= k < lowest_empty_from(b, c, r) ==> cell(b, c, k) != Cell::Empty,
        lowest_empty_from(b, c, r) < 6 ==> cell(b, c, lowest_empty_from(b, c, r)) == Cell::Empty,
    decreases 6 - r,
{
    if r < 6 && cell(b, c, r) != Cell::Empty {
        lemma_lowest_empty_from(b, c, r + 1);
    }
}

/// Dropping a stone into a column that is not full keeps every column free of gaps.
pub proof fn lemma_drop_keeps_no_gaps(b: Seq<Cell>, c: int, s: Slot)
    requires
        b.len() == 42,
        no_gaps(b),
        0 <= c < 7,
        landing_row(b, c) < 6,
    ensures
        drop_stone(b, c, s).len() == 42,
        no_gaps(drop_stone(b, c, s)),
{
    lemma_lowest_empty_from(b, c, 0);
    let h = landing_row(b, c);
    let nb = drop_stone(b, c, s);
    assert forall|c2: int, r1: int, r2: int|
        0 <= c2 < 7 && 0 <= r1 < r2 < 6 && #[trigger] cell(nb, c2, r2) != Cell::Empty implies #[trigger] cell(
            nb,
            c2,
            r1,
        ) != Cell::Empty by {
        assert(c2 * 6 + r1 != c * 6 + h || (c2 == c && r1 == h));
        if c2 == c {
            if r2 > h {
                assert(cell(b, c, r2) == cell(nb, c, r2));
                assert(cell(b, c, h) != Cell::Empty);
            } else if r1 != h {
                assert(cell(b, c, r1) != Cell::Empty);
                assert(cell(b, c, r1) == cell(nb, c, r1));
            }
        } else {
            assert(cell(b, c2, r2) == cell(nb, c2, r2));
            assert(cell(b, c2, r1) != Cell::Empty);
            assert(cell(b, c2, r1) == cell(nb, c2, r1));
        }
    }
}

/// A board whose every column is free of gaps.
pub open spec fn legal_board(b: Seq<Cell>) -> bool {
    b.len() == 42 && no_gaps(b)
}

/// The board after a sequence of moves, each a column and a role; a move into a
/// column outside the board or into a full column is refused and leaves the board as
/// it was.
pub open spec fn play_moves(b: Seq<Cell>, moves: Seq<(int, Slot)>) -> Seq<Cell>
    decreases moves.len(),
{
    if moves.len() == 0 {
        b
    } else {
        let prev = play_moves(b, moves.drop_last());
        let (c, s) = moves.last();
        if 0 <= c < 7 && landing_row(prev, c) < 6 {
            drop_stone(prev, c, s)
        } else {
            prev
        }
    }
}

/// Whatever moves are played from the empty board, no column ever holds an empty
/// cell below an occupied one.
pub proof fn lemma_moves_never_leave_gaps(moves: Seq<(int, Slot)>)
    ensures
        legal_board(play_moves(empty_board(), moves)),
    decreases moves.len(),
{
    if moves.len() == 0 {
        assert(no_gaps(empty_board()));
    } else {
        lemma_moves_never_leave_gaps(moves.drop_last());
        let prev = play_moves(empty_board(), moves.drop_last());
        let (c, s) = moves.last();
        if 0 <= c < 7 && landing_row(prev, c) < 6 {
            lemma_drop_keeps_no_gaps(prev, c, s);
        }
    }
}

/// The empty board has no gaps.
pub proof fn lemma_empty_board_is_legal()
    ensures
        legal_board(empty_board()),
{
}

/// On a board without gaps, every cell is occupied exactly when the top cell of
/// every column is.
pub proof fn lemma_full_iff_top_row_occupied(b: Seq<Cell>)
    requires
        legal_board(b),
    ensures
        board_full(b) <==> forall|c: int| 0 <= c < 7 ==> #[trigger] cell(b, c, 5) != Cell::Empty,
{
    if forall|c: int| 0 <= c < 7 ==> #[trigger] cell(b, c, 5) != Cell::Empty {
        assert forall|i: int| 0 <= i < 42 implies b[i] != Cell::Empty by {
            let c = i / 6;
            let r = i % 6;
            assert(i == c * 6 + r);
            assert(cell(b, c, 5) != Cell::Empty);
            if r < 5 {
                assert(cell(b, c, r) != Cell::Empty);
            }
        }
    }
    if board_full(b) {
        assert forall|c: int| 0 <= c < 7 implies #[trigger] cell(b, c, 5) != Cell::Empty by {
            assert(b[c * 6 + 5] != Cell::Empty);
        }
    }
}

/// The empty board holds no line of four for either role.
pub proof fn lemma_empty_board_has_no_four(s: Slot)
    ensures
        !has_four(empty_board(), s),
{
    assert forall|c: int, r: int, d: int| !#[trigger] four_from(empty_board(), s, c, r, d) by {
        if in_bounds(c, r) {
            assert(cell(empty_board(), c, r) == Cell::Empty);
        }
    }
}

/// The empty board is not full.
pub proof fn lemma_empty_board_not_full()
    ensures
        !board_full(empty_board()),
{
    assert(empty_board()[0] == Cell::Empty);
}

impl Board {
    /// The board with no stone on it.
    pub fn new() -> (r: Board)
        ensures
            r@ == empty_board(),
    {
        let r = Board { cells: [Cell::Empty; 42] };
        assert(r@ =~= empty_board());
        r
    }

    /// The cell of column `column` and row `row`.
    pub fn get(&self, column: usize, row: usize) -> (r: Cell)
        requires
            column < 7,
            row < 6,
        ensures
            r == cell(self@, column as int, row as int),
    {
        self.cells[column * 6 + row]
    }

    fn holds_at(&self, slot: Slot, c: i64, r: i64) -> (res: bool)
        ensures
            res == holds(self@, slot, c as int, r as int),
    {
        if 0 <= c && c < 7 && 0 <= r && r < 6 {
            self.cells[(c * 6 + r) as usize] == Cell::Occupied(slot)
        } else {
            false
        }
    }

    fn four_at(&self, slot: Slot, c: usize, r: usize, d: usize) -> (res: bool)
        requires
            c < 7,
            r < 6,
            d < 4,
        ensures
            res == four_from(self@, slot, c as int, r as int, d as int),
    {
        let dc: i64 = if d == 1 {
            0
        } else {
            1
        };
        let dr: i64 = if d == 0 {
            0
        } else if d == 3 {
            -1
        } else {
            1
        };
        let c = c as i64;
        let r = r as i64;
        self.holds_at(slot, c, r) && self.holds_at(slot, c + dc, r + dr) && self.holds_at(
            slot,
            c + 2 * dc,
            r + 2 * dr,
        ) && self.holds_at(slot, c + 3 * dc, r + 3 * dr)
    }

    /// Drops a stone of `slot` into `column`: it lands on the lowest empty cell.
    /// Returns the row it landed on, or `ColumnFull` (and leaves the board as it
    /// was) when the column has no empty cell.
    pub fn add_stone(&mut self, column: usize, slot: Slot) -> (r: Result<usize, Error>)
        requires
            column < 7,
        ensures
            r is Ok <==> landing_row(old(self)@, column as int) < 6,
            r matches Ok(row) ==> row == landing_row(old(self)@, column as int) && final(self)@
                == drop_stone(old(self)@, column as int, slot),
            r is Err ==> r == Err::<usize, Error>(Error::ColumnFull) && final(self)@ == old(
                self,
            )@,
    {
        let mut row: usize = 0;
        while row < 6
            invariant
                row <= 6,
                column < 7,
                self@ == old(self)@,
                lowest_empty_from(self@, column as int, row as int) == landing_row(
                    self@,
                    column as int,
                ),
            decreases 6 - row,
        {
            if self.cells[column * 6 + row] == Cell::Empty {
                self.cells[column * 6 + row] = Cell::Occupied(slot);
                return Ok(row);
            }
            row += 1;
        }
        Err(Error::ColumnFull)
    }

    /// Whether some horizontal, vertical or diagonal line holds four stones of
    /// `slot`; the whole board is searched.
    pub fn evaluate(&self, slot: Slot) -> (r: bool)
        ensures
            r == has_four(self@, slot),
    {
        let mut c: usize = 0;
        while c < 7
            invariant
                c <= 7,
                forall|c2: int, r2: int, d: int|
                    0 <= c2 < c && 0 <= r2 < 6 ==> !#[trigger] four_from(self@, slot, c2, r2, d),
            decreases 7 - c,
        {
            let mut r: usize = 0;
            while r < 6
                invariant
                    c < 7,
                    r <= 6,
                    forall|c2: int, r2: int, d: int|
                        0 <= c2 < c && 0 <= r2 < 6 ==> !#[trigger] four_from(
                            self@,
                            slot,
                            c2,
                            r2,
                            d,
                        ),
                    forall|r2: int, d: int|
                        0 <= r2 < r ==> !#[trigger] four_from(self@, slot, c as int, r2, d),
                decreases 6 - r,
            {
                let mut d: usize = 0;
                while d < 4
                    invariant
                        c < 7,
                        r < 6,
                        d <= 4,
                        forall|c2: int, r2: int, d2: int|
                            0 <= c2 < c && 0 <= r2 < 6 ==> !#[trigger] four_from(
                                self@,
                                slot,
                                c2,
                                r2,
                                d2,
                            ),
                        forall|r2: int, d2: int|
                            0 <= r2 < r ==> !#[trigger] four_from(self@, slot, c as int, r2, d2),
                        forall|d2: int|
                            0 <= d2 < d ==> !#[trigger] four_from(
                                self@,
                                slot,
                                c as int,
                                r as int,
                                d2,
                            ),
                    decreases 4 - d,
                {
                    if self.four_at(slot, c, r, d) {
                        return true;
                    }
                    d += 1;
                }
                r += 1;
            }
            c += 1;
        }
        assert forall|c2: int, r2: int, d: int| !#[trigger] four_from(self@, slot, c2, r2, d) by {
            if four_from(self@, slot, c2, r2, d) {
                assert(in_bounds(c2, r2));
            }
        }
        false
    }

    /// Whether every cell holds a stone.
    pub fn full(&self) -> (r: bool)
        ensures
            r == board_full(self@),
    {
        let mut i: usize = 0;
        while i < 42
            invariant
                i <= 42,
                forall|j: int| 0 <= j < i ==> self@[j] != Cell::Empty,
            decreases 42 - i,
        {
            if self.cells[i] == Cell::Empty {
                return false;
            }
            i += 1;
        }
        true
    }
}

} // verus!
