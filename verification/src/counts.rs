//! Wall-count bookkeeping per row and column, and the range test that prunes
//! lines whose target has become unreachable.

use vstd::prelude::*;
use crate::board::{Board, BoardView, Cell, Index, BOARD_SIZE};

verus! {

impl BoardView {
    /// How many of the first `n` cells of row `r` hold `kind`.
    pub open spec fn row_count_upto(self, kind: Cell, r: int, n: int) -> int
        decreases n,
    {
        if n <= 0 {
            0
        } else {
            self.row_count_upto(kind, r, n - 1) + if self.cell_in(r, n - 1) == kind {
                1int
            } else {
                0int
            }
        }
    }

    /// How many cells of row `r` hold `kind`.
    pub open spec fn row_count(self, kind: Cell, r: int) -> int {
        self.row_count_upto(kind, r, BOARD_SIZE as int)
    }

    /// How many of the first `n` cells of column `c` hold `kind`.
    pub open spec fn col_count_upto(self, kind: Cell, c: int, n: int) -> int
        decreases n,
    {
        if n <= 0 {
            0
        } else {
            self.col_count_upto(kind, c, n - 1) + if self.cell_in(n - 1, c) == kind {
                1int
            } else {
                0int
            }
        }
    }

    /// How many cells of column `c` hold `kind`.
    pub open spec fn col_count(self, kind: Cell, c: int) -> int {
        self.col_count_upto(kind, c, BOARD_SIZE as int)
    }

    /// Row `r` can still meet its target: the target lies between the walls
    /// already placed and that number plus the cells still unknown.
    pub open spec fn row_feasible(self, r: int) -> bool {
        self.row_count(Cell::Wall, r) <= self.row_counts[r]
            <= self.row_count(Cell::Wall, r) + self.row_count(Cell::Unknown, r)
    }

    /// Column `c` can still meet its target.
    pub open spec fn col_feasible(self, c: int) -> bool {
        self.col_count(Cell::Wall, c) <= self.column_counts[c]
            <= self.col_count(Cell::Wall, c) + self.col_count(Cell::Unknown, c)
    }

    /// Row `r` meets its target exactly.
    pub open spec fn row_exact(self, r: int) -> bool {
        self.row_count(Cell::Wall, r) == self.row_counts[r]
    }

    /// Column `c` meets its target exactly.
    pub open spec fn col_exact(self, c: int) -> bool {
        self.col_count(Cell::Wall, c) == self.column_counts[c]
    }
}

impl Board {
    /// Counts the cells of row `r` that hold `kind`.
    pub(crate) fn row_cell_count(&self, kind: Cell, r: usize) -> (n: u8)
        requires
            self@.wf(),
            r < BOARD_SIZE,
        ensures
            n == self@.row_count(kind, r as int),
            n <= BOARD_SIZE,
    {
        let mut n: u8 = 0;
        let mut c: usize = 0;
        while c < BOARD_SIZE
            invariant
                self@.wf(),
                r < BOARD_SIZE,
                c <= BOARD_SIZE,
                n == self@.row_count_upto(kind, r as int, c as int),
                n <= c,
            decreases BOARD_SIZE - c,
        {
            if self.cells[r * BOARD_SIZE + c] == kind {
                n = n + 1;
            }
            c = c + 1;
        }
        n
    }

    /// Counts the cells of column `c` that hold `kind`.
    pub(crate) fn col_cell_count(&self, kind: Cell, c: usize) -> (n: u8)
        requires
            self@.wf(),
            c < BOARD_SIZE,
        ensures
            n == self@.col_count(kind, c as int),
            n <= BOARD_SIZE,
    {
        let mut n: u8 = 0;
        let mut r: usize = 0;
        while r < BOARD_SIZE
            invariant
                self@.wf(),
                c < BOARD_SIZE,
                r <= BOARD_SIZE,
                n == self@.col_count_upto(kind, c as int, r as int),
                n <= r,
            decreases BOARD_SIZE - r,
        {
            if self.cells[r * BOARD_SIZE + c] == kind {
                n = n + 1;
            }
            r = r + 1;
        }
        n
    }

    /// Scans the rows in index order and returns the index of the first row
    /// whose wall-count target has left the achievable range, or success if
    /// every row can still meet its target.  Exact on fully decided rows and
    /// a sound over-approximation otherwise.
    pub fn rows_acceptable(&self) -> (res: Result<(), Index>)
        requires
            self@.wf(),
        ensures
            res is Ok <==> (forall|r: int| 0 <= r < BOARD_SIZE ==> self@.row_feasible(r)),
            res matches Err(i) ==> 0 <= i < BOARD_SIZE && !self@.row_feasible(i as int)
                && (forall|r: int| 0 <= r < i ==> self@.row_feasible(r)),
    {
        let mut r: usize = 0;
        while r < BOARD_SIZE
            invariant
                self@.wf(),
                r <= BOARD_SIZE,
                forall|k: int| 0 <= k < r ==> self@.row_feasible(k),
            decreases BOARD_SIZE - r,
        {
            let walls = self.row_cell_count(Cell::Wall, r);
            let unknowns = self.row_cell_count(Cell::Unknown, r);
            let target = self.row_counts[r];
            if !(walls <= target && target <= walls + unknowns) {
                assert(!self@.row_feasible(r as int));
                return Err(r as Index);
            }
            r = r + 1;
        }
        Ok(())
    }

    /// The column analogue of [`Board::rows_acceptable`].
    pub fn cols_acceptable(&self) -> (res: Result<(), Index>)
        requires
            self@.wf(),
        ensures
            res is Ok <==> (forall|c: int| 0 <= c < BOARD_SIZE ==> self@.col_feasible(c)),
            res matches Err(i) ==> 0 <= i < BOARD_SIZE && !self@.col_feasible(i as int)
                && (forall|c: int| 0 <= c < i ==> self@.col_feasible(c)),
    {
        let mut c: usize = 0;
        while c < BOARD_SIZE
            invariant
                self@.wf(),
                c <= BOARD_SIZE,
                forall|k: int| 0 <= k < c ==> self@.col_feasible(k),
            decreases BOARD_SIZE - c,
        {
            let walls = self.col_cell_count(Cell::Wall, c);
            let unknowns = self.col_cell_count(Cell::Unknown, c);
            let target = self.column_counts[c];
            if !(walls <= target && target <= walls + unknowns) {
                assert(!self@.col_feasible(c as int));
                return Err(c as Index);
            }
            c = c + 1;
        }
        Ok(())
    }
}

} // verus!
