//! The backtracking solver: depth-first search over the unknown cells in
//! row-major order, pruned by the relaxed feasibility check.  The search is
//! specified by a recursive spec function, so the solver's outcome — both
//! the verdict and the final board — is a mathematical function of the
//! starting board.

use vstd::prelude::*;
use crate::board::{Board, BoardView, Cell, Unsolvable, BOARD_SIZE};

verus! {

impl BoardView {
    /// How many of the first `n` cells are still unknown.
    pub open spec fn unknown_count_upto(self, n: int) -> int
        decreases n,
    {
        if n <= 0 {
            0
        } else {
            self.unknown_count_upto(n - 1) + if self.cells[n - 1] == Cell::Unknown {
                1int
            } else {
                0int
            }
        }
    }

    /// How many cells are still unknown.
    pub open spec fn unknown_count(self) -> int {
        self.unknown_count_upto((BOARD_SIZE * BOARD_SIZE) as int)
    }

    /// The row-major index of the first unknown cell at or after `k`, or
    /// the cell count if every cell from `k` on is decided.
    pub open spec fn first_unknown_from(self, k: int) -> int
        decreases (BOARD_SIZE * BOARD_SIZE) as int - k,
    {
        if k < 0 || k >= BOARD_SIZE * BOARD_SIZE {
            (BOARD_SIZE * BOARD_SIZE) as int
        } else if self.cells[k] == Cell::Unknown {
            k
        } else {
            self.first_unknown_from(k + 1)
        }
    }

    /// The row-major index of the first unknown cell, or the cell count.
    pub open spec fn first_unknown(self) -> int {
        self.first_unknown_from(0)
    }

    /// The board with one cell replaced.
    pub open spec fn with_cell(self, k: int, v: Cell) -> BoardView {
        BoardView { cells: self.cells.update(k, v), ..self }
    }

    /// What the backtracking search computes: on a complete board, the
    /// board itself exactly when it is a valid solution; otherwise the
    /// first unknown cell is tried as a wall and then as empty, each branch
    /// explored only when the relaxed feasibility check accepts it, and the
    /// first success wins.
    pub open spec fn solve_spec(self) -> Option<BoardView>
        decreases self.unknown_count(),
        when self.wf()
        via Self::solve_spec_decreases
    {
        let k = self.first_unknown();
        if k == BOARD_SIZE * BOARD_SIZE {
            if self.valid_solution() {
                Some(self)
            } else {
                None
            }
        } else {
            let walled = self.with_cell(k, Cell::Wall);
            let wall_result = if walled.feasible() {
                walled.solve_spec()
            } else {
                None
            };
            if wall_result is Some {
                wall_result
            } else {
                let emptied = self.with_cell(k, Cell::Empty);
                if emptied.feasible() {
                    emptied.solve_spec()
                } else {
                    None
                }
            }
        }
    }

    #[via_fn]
    proof fn solve_spec_decreases(self) {
        self.lemma_first_unknown_from(0);
        let k = self.first_unknown();
        if k < BOARD_SIZE * BOARD_SIZE {
            self.lemma_unknown_count_update(k, Cell::Wall, (BOARD_SIZE * BOARD_SIZE) as int);
            self.lemma_unknown_count_update(k, Cell::Empty, (BOARD_SIZE * BOARD_SIZE) as int);
            self.with_cell(k, Cell::Wall).lemma_unknown_count_nonneg(
                (BOARD_SIZE * BOARD_SIZE) as int,
            );
            self.with_cell(k, Cell::Empty).lemma_unknown_count_nonneg(
                (BOARD_SIZE * BOARD_SIZE) as int,
            );
        }
    }

    /// The first-unknown index points at an unknown cell and everything
    /// before it is decided.
    pub proof fn lemma_first_unknown_from(self, k: int)
        requires
            0 <= k <= BOARD_SIZE * BOARD_SIZE,
        ensures
            k <= self.first_unknown_from(k) <= BOARD_SIZE * BOARD_SIZE,
            self.first_unknown_from(k) < BOARD_SIZE * BOARD_SIZE ==> self.cells[
                self.first_unknown_from(k)
            ] == Cell::Unknown,
            forall|j: int|
                k <= j < self.first_unknown_from(k) ==> self.cells[j] != Cell::Unknown,
        decreases (BOARD_SIZE * BOARD_SIZE) as int - k,
    {
        if k < BOARD_SIZE * BOARD_SIZE && self.cells[k] != Cell::Unknown {
            self.lemma_first_unknown_from(k + 1);
        }
    }

    /// The unknown-cell count is between zero and the prefix length.
    pub proof fn lemma_unknown_count_nonneg(self, n: int)
        ensures
            0 <= self.unknown_count_upto(n),
            n >= 0 ==> self.unknown_count_upto(n) <= n,
        decreases n,
    {
        if n > 0 {
            self.lemma_unknown_count_nonneg(n - 1);
        }
    }

    /// Deciding one unknown cell lowers the unknown-cell count of every
    /// prefix that contains it by exactly one.
    pub proof fn lemma_unknown_count_update(self, k: int, v: Cell, n: int)
        requires
            self.wf(),
            0 <= k < BOARD_SIZE * BOARD_SIZE,
            n <= BOARD_SIZE * BOARD_SIZE,
            self.cells[k] == Cell::Unknown,
            v != Cell::Unknown,
        ensures
            k < n ==> self.with_cell(k, v).unknown_count_upto(n) == self.unknown_count_upto(n) - 1,
            n <= k ==> self.with_cell(k, v).unknown_count_upto(n) == self.unknown_count_upto(n),
        decreases n,
    {
        if n > 0 {
            self.lemma_unknown_count_update(k, v, n - 1);
        }
    }

    /// What the search returns is a well-formed valid solution that extends
    /// the starting board and keeps its targets.
    pub proof fn lemma_solve_spec_props(self)
        requires
            self.wf(),
        ensures
            self.solve_spec() matches Some(s) ==> s.wf() && s.valid_solution() && self.extended_by(
                s,
            ) && s.row_counts == self.row_counts && s.column_counts == self.column_counts,
        decreases self.unknown_count(),
    {
        self.lemma_first_unknown_from(0);
        let k = self.first_unknown();
        if k == BOARD_SIZE * BOARD_SIZE {
        } else {
            self.lemma_unknown_count_update(k, Cell::Wall, (BOARD_SIZE * BOARD_SIZE) as int);
            self.lemma_unknown_count_update(k, Cell::Empty, (BOARD_SIZE * BOARD_SIZE) as int);
            let walled = self.with_cell(k, Cell::Wall);
            let emptied = self.with_cell(k, Cell::Empty);
            walled.lemma_unknown_count_nonneg((BOARD_SIZE * BOARD_SIZE) as int);
            emptied.lemma_unknown_count_nonneg((BOARD_SIZE * BOARD_SIZE) as int);
            walled.lemma_solve_spec_props();
            emptied.lemma_solve_spec_props();
            if self.solve_spec() is Some {
                let s = self.solve_spec().unwrap();
                assert(walled.extended_by(s) || emptied.extended_by(s));
                assert forall|r: int, c: int|
                    #[trigger] self.cell_at(r, c) != Cell::Unknown implies s.cell_at(r, c)
                    == self.cell_at(r, c) by {
                    if walled.extended_by(s) {
                        assert(walled.cell_at(r, c) == self.cell_at(r, c));
                    } else {
                        assert(emptied.cell_at(r, c) == self.cell_at(r, c));
                    }
                }
            }
        }
    }
}

impl Board {
    /// Finds the row-major index of the first unknown cell, or the cell
    /// count when the board is complete.
    fn first_unknown_cell(&self) -> (res: usize)
        requires
            self@.wf(),
        ensures
            res == self@.first_unknown(),
    {
        let mut k: usize = 0;
        while k < BOARD_SIZE * BOARD_SIZE
            invariant
                self@.wf(),
                k <= BOARD_SIZE * BOARD_SIZE,
                self@.first_unknown() == self@.first_unknown_from(k as int),
            decreases BOARD_SIZE * BOARD_SIZE - k,
        {
            if self.cells[k] == Cell::Unknown {
                return k;
            }
            k = k + 1;
        }
        BOARD_SIZE * BOARD_SIZE
    }

    /// Solves the board in place by depth-first search: the first unknown
    /// cell is tentatively made a wall and then empty, each branch pruned
    /// by [`Board::maybe_solvable`] and decided by [`Board::check_solved`]
    /// at the leaves.  On success the board holds the solution the search
    /// specification designates; on failure it is restored unchanged.
    pub fn solve(&mut self) -> (res: Result<(), Unsolvable>)
        requires
            old(self)@.wf(),
        ensures
            final(self)@.wf(),
            res is Ok <==> old(self)@.solve_spec() is Some,
            res is Ok ==> old(self)@.solve_spec() == Some(final(self)@),
            res is Ok ==> final(self)@.valid_solution() && old(self)@.extended_by(final(self)@),
            res is Err ==> final(self)@ == old(self)@,
            final(self)@.row_counts == old(self)@.row_counts,
            final(self)@.column_counts == old(self)@.column_counts,
        decreases old(self)@.unknown_count(),
    {
        let ghost pre = self@;
        proof {
            pre.lemma_first_unknown_from(0);
            pre.lemma_solve_spec_props();
        }
        let k = self.first_unknown_cell();
        if k == BOARD_SIZE * BOARD_SIZE {
            proof {
                assert(pre.complete());
            }
            match self.check_solved() {
                Ok(()) => Ok(()),
                Err(_) => {
                    proof {
                        assert(pre.solve_spec() is None);
                    }
                    Err(Unsolvable)
                },
            }
        } else {
            proof {
                pre.lemma_unknown_count_update(k as int, Cell::Wall, (BOARD_SIZE
                    * BOARD_SIZE) as int);
                pre.lemma_unknown_count_update(k as int, Cell::Empty, (BOARD_SIZE
                    * BOARD_SIZE) as int);
                pre.with_cell(k as int, Cell::Wall).lemma_unknown_count_nonneg((BOARD_SIZE
                    * BOARD_SIZE) as int);
                pre.with_cell(k as int, Cell::Empty).lemma_unknown_count_nonneg((BOARD_SIZE
                    * BOARD_SIZE) as int);
            }
            self.cells[k] = Cell::Wall;
            proof {
                assert(self@ =~= pre.with_cell(k as int, Cell::Wall));
            }
            if self.maybe_solvable().is_ok() {
                let sub = self.solve();
                if sub.is_ok() {
                    proof {
                        assert(pre.with_cell(k as int, Cell::Wall).solve_spec() == Some(self@));
                        assert(pre.solve_spec() == Some(self@));
                    }
                    return Ok(());
                }
            }
            proof {
                assert(self@ =~= pre.with_cell(k as int, Cell::Wall));
            }
            self.cells[k] = Cell::Empty;
            proof {
                assert(self@ =~= pre.with_cell(k as int, Cell::Empty));
            }
            if self.maybe_solvable().is_ok() {
                let sub = self.solve();
                if sub.is_ok() {
                    proof {
                        assert(pre.with_cell(k as int, Cell::Empty).solve_spec() == Some(self@));
                        assert(pre.solve_spec() == Some(self@));
                    }
                    return Ok(());
                }
            }
            proof {
                assert(self@ =~= pre.with_cell(k as int, Cell::Empty));
            }
            self.cells[k] = Cell::Unknown;
            proof {
                assert(self@ =~= pre);
                assert(pre.solve_spec() is None);
            }
            Err(Unsolvable)
        }
    }
}

} // verus!
