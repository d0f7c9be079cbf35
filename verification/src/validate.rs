//! The full validator for complete boards and the relaxed feasibility
//! checker that prunes the search on partial boards.

use vstd::prelude::*;
use crate::board::{in_bounds, Board, BoardError, BoardView, Cell, Index, BOARD_SIZE};

verus! {

/// The coordinate lies in the protective footprint of the treasure room
/// with top-left corner `(tr, tc)`: the room itself, its boundary ring and
/// one further cell beyond each side, with the four outermost corners
/// trimmed.  A 2x2 empty block whose corner lies here is not a wide
/// corridor but part of the room's interior or entrance.
pub open spec fn room_footprint(tr: int, tc: int, r: int, c: int) -> bool {
    let dr = r - tr;
    let dc = c - tc;
    ||| (dr == -2 && -1 <= dc <= 2)
    ||| (-1 <= dr <= 2 && -2 <= dc <= 3)
    ||| (dr == 3 && -1 <= dc <= 2)
}

impl BoardView {
    /// The chest at `(cr, cc)` owns a valid treasure room whose footprint
    /// covers `(r, c)`.
    pub open spec fn chest_room_covers(self, cr: int, cc: int, r: int, c: int) -> bool {
        self.cell_in(cr, cc) == Cell::Chest && {
            ||| (self.treasure_room(cr - 2, cc - 2) && room_footprint(cr - 2, cc - 2, r, c))
            ||| (self.treasure_room(cr - 2, cc - 1) && room_footprint(cr - 2, cc - 1, r, c))
            ||| (self.treasure_room(cr - 2, cc) && room_footprint(cr - 2, cc, r, c))
            ||| (self.treasure_room(cr - 1, cc - 2) && room_footprint(cr - 1, cc - 2, r, c))
            ||| (self.treasure_room(cr - 1, cc - 1) && room_footprint(cr - 1, cc - 1, r, c))
            ||| (self.treasure_room(cr - 1, cc) && room_footprint(cr - 1, cc, r, c))
            ||| (self.treasure_room(cr, cc - 2) && room_footprint(cr, cc - 2, r, c))
            ||| (self.treasure_room(cr, cc - 1) && room_footprint(cr, cc - 1, r, c))
            ||| (self.treasure_room(cr, cc) && room_footprint(cr, cc, r, c))
        }
    }

    /// Some chest's valid treasure room covers the coordinate.
    pub open spec fn room_covered(self, r: int, c: int) -> bool {
        exists|cr: int, cc: int|
            in_bounds(cr, cc) && #[trigger] self.chest_room_covers(cr, cc, r, c)
    }

    /// The 2x2 block of cells with top-left corner `(r, c)` is all empty.
    pub open spec fn empty_block(self, r: int, c: int) -> bool {
        self.cell_in(r, c) == Cell::Empty && self.cell_in(r, c + 1) == Cell::Empty && self.cell_in(
            r + 1,
            c,
        ) == Cell::Empty && self.cell_in(r + 1, c + 1) == Cell::Empty
    }

    /// No illegal wide corridor starts at `(r, c)`: if the 2x2 block there
    /// is all empty, it belongs to some treasure room's footprint.
    pub open spec fn block_ok(self, r: int, c: int) -> bool {
        self.empty_block(r, c) ==> self.room_covered(r, c)
    }

    /// Every row's wall count equals its target.
    pub open spec fn row_counts_ok(self) -> bool {
        forall|r: int| 0 <= r < BOARD_SIZE ==> self.row_exact(r)
    }

    /// Every column's wall count equals its target.
    pub open spec fn col_counts_ok(self) -> bool {
        forall|c: int| 0 <= c < BOARD_SIZE ==> self.col_exact(c)
    }

    /// The two per-cell rules of a complete board: a monster stands exactly
    /// in the dead ends, and a chest owns a valid treasure room.
    pub open spec fn cell_rules_ok(self, r: int, c: int) -> bool {
        &&& (self.cell_in(r, c) == Cell::Monster) == self.dead_end(r, c)
        &&& (self.cell_in(r, c) == Cell::Chest ==> self.has_room(r, c))
    }

    /// Every cell of the board satisfies both per-cell rules.
    pub open spec fn cells_ok(self) -> bool {
        forall|r: int, c: int| in_bounds(r, c) ==> #[trigger] self.cell_rules_ok(r, c)
    }

    /// Every cell lexicographically before `(r, c)` in row-major order
    /// satisfies both per-cell rules.
    pub open spec fn cells_ok_before(self, r: int, c: int) -> bool {
        forall|r2: int, c2: int|
            in_bounds(r2, c2) && (r2 < r || (r2 == r && c2 < c)) ==> #[trigger] self.cell_rules_ok(
                r2,
                c2,
            )
    }

    /// No wide corridor starts anywhere on the board.
    pub open spec fn corridors_ok(self) -> bool {
        forall|r: int, c: int|
            0 <= r < BOARD_SIZE - 1 && 0 <= c < BOARD_SIZE - 1 ==> #[trigger] self.block_ok(r, c)
    }

    /// Every 2x2 block corner lexicographically before `(r, c)` is fine.
    pub open spec fn blocks_ok_before(self, r: int, c: int) -> bool {
        forall|r2: int, c2: int|
            0 <= r2 < BOARD_SIZE - 1 && 0 <= c2 < BOARD_SIZE - 1 && (r2 < r || (r2 == r && c2 < c))
                ==> #[trigger] self.block_ok(r2, c2)
    }

    /// The board is a valid solution: complete, all line counts met, the
    /// monster and chest rules hold everywhere, no wide corridors, and all
    /// non-wall cells connected.
    pub open spec fn valid_solution(self) -> bool {
        &&& self.complete()
        &&& self.row_counts_ok()
        &&& self.col_counts_ok()
        &&& self.cells_ok()
        &&& self.corridors_ok()
        &&& self.connectivity_ok()
    }

    /// The three per-cell conditions checked on a partial board: a monster
    /// could still sit in a dead end, a non-monster is not already a dead
    /// end, and a chest could still own a treasure room.
    pub open spec fn cell_feasible(self, r: int, c: int) -> bool {
        &&& (self.cell_in(r, c) == Cell::Monster ==> self.maybe_dead_end(r, c))
        &&& (self.cell_in(r, c) != Cell::Monster ==> !self.dead_end(r, c))
        &&& (self.cell_in(r, c) == Cell::Chest ==> self.maybe_has_room(r, c))
    }

    /// Every cell lexicographically before `(r, c)` passes the relaxed
    /// per-cell conditions.
    pub open spec fn cells_feasible_before(self, r: int, c: int) -> bool {
        forall|r2: int, c2: int|
            in_bounds(r2, c2) && (r2 < r || (r2 == r && c2 < c)) ==> #[trigger] self.cell_feasible(
                r2,
                c2,
            )
    }

    /// The relaxed whole-board test used to prune the search: every line
    /// can still meet its target and every cell passes the relaxed rules.
    pub open spec fn feasible(self) -> bool {
        &&& (forall|r: int| 0 <= r < BOARD_SIZE ==> self.row_feasible(r))
        &&& (forall|c: int| 0 <= c < BOARD_SIZE ==> self.col_feasible(c))
        &&& (forall|r: int, c: int| in_bounds(r, c) ==> #[trigger] self.cell_feasible(r, c))
    }
}

/// The coordinate `(r, c)` lies in the footprint of the room at `(tr, tc)`.
fn in_footprint(tr: Index, tc: Index, r: Index, c: Index) -> (b: bool)
    requires
        -16 <= tr <= 16,
        -16 <= tc <= 16,
        -16 <= r <= 16,
        -16 <= c <= 16,
    ensures
        b == room_footprint(tr as int, tc as int, r as int, c as int),
{
    let dr = r - tr;
    let dc = c - tc;
    (dr == -2 && -1 <= dc && dc <= 2) || (-1 <= dr && dr <= 2 && -2 <= dc && dc <= 3) || (dr == 3
        && -1 <= dc && dc <= 2)
}

impl Board {
    /// The chest at `(cr, cc)` owns a valid room covering `(r, c)`.
    fn chest_covers(&self, cr: Index, cc: Index, r: Index, c: Index) -> (b: bool)
        requires
            self@.wf(),
            0 <= cr < BOARD_SIZE,
            0 <= cc < BOARD_SIZE,
            0 <= r < BOARD_SIZE,
            0 <= c < BOARD_SIZE,
        ensures
            b == self@.chest_room_covers(cr as int, cc as int, r as int, c as int),
    {
        self.at(cr, cc) == Cell::Chest && ((self.is_treasure_room(cr - 2, cc - 2) && in_footprint(
            cr - 2,
            cc - 2,
            r,
            c,
        )) || (self.is_treasure_room(cr - 2, cc - 1) && in_footprint(cr - 2, cc - 1, r, c)) || (
        self.is_treasure_room(cr - 2, cc) && in_footprint(cr - 2, cc, r, c)) || (
        self.is_treasure_room(cr - 1, cc - 2) && in_footprint(cr - 1, cc - 2, r, c)) || (
        self.is_treasure_room(cr - 1, cc - 1) && in_footprint(cr - 1, cc - 1, r, c)) || (
        self.is_treasure_room(cr - 1, cc) && in_footprint(cr - 1, cc, r, c)) || (
        self.is_treasure_room(cr, cc - 2) && in_footprint(cr, cc - 2, r, c)) || (
        self.is_treasure_room(cr, cc - 1) && in_footprint(cr, cc - 1, r, c)) || (
        self.is_treasure_room(cr, cc) && in_footprint(cr, cc, r, c)))
    }

    /// Some chest's valid room covers the 2x2 block corner `(r, c)`.
    fn block_exempt(&self, r: Index, c: Index) -> (b: bool)
        requires
            self@.wf(),
            0 <= r < BOARD_SIZE,
            0 <= c < BOARD_SIZE,
        ensures
            b == self@.room_covered(r as int, c as int),
    {
        let mut cr: Index = 0;
        while cr < BOARD_SIZE as Index
            invariant
                self@.wf(),
                0 <= r < BOARD_SIZE,
                0 <= c < BOARD_SIZE,
                0 <= cr <= BOARD_SIZE,
                forall|r2: int, c2: int|
                    0 <= r2 < cr && 0 <= c2 < BOARD_SIZE ==> !#[trigger] self@.chest_room_covers(
                        r2,
                        c2,
                        r as int,
                        c as int,
                    ),
            decreases BOARD_SIZE - cr,
        {
            let mut cc: Index = 0;
            while cc < BOARD_SIZE as Index
                invariant
                    self@.wf(),
                    0 <= r < BOARD_SIZE,
                    0 <= c < BOARD_SIZE,
                    0 <= cr < BOARD_SIZE,
                    0 <= cc <= BOARD_SIZE,
                    forall|r2: int, c2: int|
                        0 <= r2 < cr && 0 <= c2 < BOARD_SIZE ==> !#[trigger] self@.chest_room_covers(
                            r2,
                            c2,
                            r as int,
                            c as int,
                        ),
                    forall|c2: int|
                        0 <= c2 < cc ==> !#[trigger] self@.chest_room_covers(
                            cr as int,
                            c2,
                            r as int,
                            c as int,
                        ),
                decreases BOARD_SIZE - cc,
            {
                if self.chest_covers(cr, cc, r, c) {
                    return true;
                }
                cc = cc + 1;
            }
            cr = cr + 1;
        }
        assert(!self@.room_covered(r as int, c as int));
        false
    }

    /// Decides whether the board is a valid solution, reporting the first
    /// violated rule in a fixed scan order: completeness, row counts,
    /// column counts, the per-cell monster and chest rules in row-major
    /// order, wide corridors, and finally connectivity.
    #[verifier::rlimit(100)]
    pub fn check_solved(&self) -> (res: Result<(), BoardError>)
        requires
            self@.wf(),
        ensures
            res is Ok <==> self@.valid_solution(),
            res == Err::<(), BoardError>(BoardError::Unsolved) <==> !self@.complete(),
            res matches Err(e) ==> match e {
                BoardError::Unsolved => !self@.complete(),
                BoardError::WrongRowCount(i) => self@.complete() && 0 <= i < BOARD_SIZE
                    && !self@.row_exact(i as int) && (forall|r: int|
                    0 <= r < i ==> self@.row_exact(r)),
                BoardError::WrongColumnCount(i) => self@.complete() && self@.row_counts_ok() && 0
                    <= i < BOARD_SIZE && !self@.col_exact(i as int) && (forall|c: int|
                    0 <= c < i ==> self@.col_exact(c)),
                BoardError::MonsterNotInDeadEnd(r, c) => self@.complete() && self@.row_counts_ok()
                    && self@.col_counts_ok() && in_bounds(r as int, c as int) && self@.cell_in(
                    r as int,
                    c as int,
                ) == Cell::Monster && !self@.dead_end(r as int, c as int) && self@.cells_ok_before(
                    r as int,
                    c as int,
                ),
                BoardError::DeadEndWithNoMonster(r, c) => self@.complete() && self@.row_counts_ok()
                    && self@.col_counts_ok() && in_bounds(r as int, c as int) && self@.cell_in(
                    r as int,
                    c as int,
                ) != Cell::Monster && self@.dead_end(r as int, c as int) && self@.cells_ok_before(
                    r as int,
                    c as int,
                ),
                BoardError::NoTreasureRoomForChest(r, c) => self@.complete()
                    && self@.row_counts_ok() && self@.col_counts_ok() && in_bounds(
                    r as int,
                    c as int,
                ) && self@.cell_in(r as int, c as int) == Cell::Chest && !self@.dead_end(
                    r as int,
                    c as int,
                ) && !self@.has_room(r as int, c as int) && self@.cells_ok_before(
                    r as int,
                    c as int,
                ),
                BoardError::CorridorsTooWide(r, c) => self@.complete() && self@.row_counts_ok()
                    && self@.col_counts_ok() && self@.cells_ok() && 0 <= r < BOARD_SIZE - 1 && 0
                    <= c < BOARD_SIZE - 1 && self@.empty_block(r as int, c as int)
                    && !self@.room_covered(r as int, c as int) && self@.blocks_ok_before(
                    r as int,
                    c as int,
                ),
                BoardError::UnconnectedCorridors => self@.complete() && self@.row_counts_ok()
                    && self@.col_counts_ok() && self@.cells_ok() && self@.corridors_ok()
                    && !self@.connectivity_ok(),
            },
    {
        let mut k: usize = 0;
        while k < BOARD_SIZE * BOARD_SIZE
            invariant
                self@.wf(),
                k <= BOARD_SIZE * BOARD_SIZE,
                forall|k2: int| 0 <= k2 < k ==> self@.cells[k2] != Cell::Unknown,
            decreases BOARD_SIZE * BOARD_SIZE - k,
        {
            if self.cells[k] == Cell::Unknown {
                return Err(BoardError::Unsolved);
            }
            k = k + 1;
        }
        let mut r: usize = 0;
        while r < BOARD_SIZE
            invariant
                self@.wf(),
                self@.complete(),
                r <= BOARD_SIZE,
                forall|r2: int| 0 <= r2 < r ==> self@.row_exact(r2),
            decreases BOARD_SIZE - r,
        {
            if self.row_cell_count(Cell::Wall, r) != self.row_counts[r] {
                assert(!self@.row_exact(r as int));
                return Err(BoardError::WrongRowCount(r as Index));
            }
            r = r + 1;
        }
        let mut c: usize = 0;
        while c < BOARD_SIZE
            invariant
                self@.wf(),
                self@.complete(),
                self@.row_counts_ok(),
                c <= BOARD_SIZE,
                forall|c2: int| 0 <= c2 < c ==> self@.col_exact(c2),
            decreases BOARD_SIZE - c,
        {
            if self.col_cell_count(Cell::Wall, c) != self.column_counts[c] {
                assert(!self@.col_exact(c as int));
                return Err(BoardError::WrongColumnCount(c as Index));
            }
            c = c + 1;
        }
        let mut r: usize = 0;
        while r < BOARD_SIZE
            invariant
                self@.wf(),
                self@.complete(),
                self@.row_counts_ok(),
                self@.col_counts_ok(),
                r <= BOARD_SIZE,
                self@.cells_ok_before(r as int, 0),
            decreases BOARD_SIZE - r,
        {
            let mut c: usize = 0;
            while c < BOARD_SIZE
                invariant
                    self@.wf(),
                    self@.complete(),
                    self@.row_counts_ok(),
                    self@.col_counts_ok(),
                    r < BOARD_SIZE,
                    c <= BOARD_SIZE,
                    self@.cells_ok_before(r as int, c as int),
                decreases BOARD_SIZE - c,
            {
                let ri = r as Index;
                let ci = c as Index;
                let cell = self.cells[r * BOARD_SIZE + c];
                let is_monster = cell == Cell::Monster;
                let is_de = self.is_dead_end(ri, ci);
                if is_monster != is_de {
                    assert(!self@.cell_rules_ok(r as int, c as int));
                    if is_monster {
                        return Err(BoardError::MonsterNotInDeadEnd(ri, ci));
                    } else {
                        return Err(BoardError::DeadEndWithNoMonster(ri, ci));
                    }
                }
                if cell == Cell::Chest {
                    let found = self.is_treasure_room(ri - 2, ci - 2) || self.is_treasure_room(
                        ri - 2,
                        ci - 1,
                    ) || self.is_treasure_room(ri - 2, ci) || self.is_treasure_room(ri - 1, ci - 2)
                        || self.is_treasure_room(ri - 1, ci - 1) || self.is_treasure_room(
                        ri - 1,
                        ci,
                    ) || self.is_treasure_room(ri, ci - 2) || self.is_treasure_room(ri, ci - 1)
                        || self.is_treasure_room(ri, ci);
                    if !found {
                        assert(!self@.cell_rules_ok(r as int, c as int));
                        return Err(BoardError::NoTreasureRoomForChest(ri, ci));
                    }
                }
                assert(self@.cell_rules_ok(r as int, c as int));
                c = c + 1;
            }
            r = r + 1;
        }
        assert(self@.cells_ok());
        let mut r: usize = 0;
        while r < BOARD_SIZE - 1
            invariant
                self@.wf(),
                self@.complete(),
                self@.row_counts_ok(),
                self@.col_counts_ok(),
                self@.cells_ok(),
                r <= BOARD_SIZE - 1,
                self@.blocks_ok_before(r as int, 0),
            decreases BOARD_SIZE - 1 - r,
        {
            let mut c: usize = 0;
            while c < BOARD_SIZE - 1
                invariant
                    self@.wf(),
                    self@.complete(),
                    self@.row_counts_ok(),
                    self@.col_counts_ok(),
                    self@.cells_ok(),
                    r < BOARD_SIZE - 1,
                    c <= BOARD_SIZE - 1,
                    self@.blocks_ok_before(r as int, c as int),
                decreases BOARD_SIZE - 1 - c,
            {
                let all_empty = self.cells[r * BOARD_SIZE + c] == Cell::Empty && self.cells[r
                    * BOARD_SIZE + c + 1] == Cell::Empty && self.cells[(r + 1) * BOARD_SIZE + c]
                    == Cell::Empty && self.cells[(r + 1) * BOARD_SIZE + c + 1] == Cell::Empty;
                if all_empty {
                    if !self.block_exempt(r as Index, c as Index) {
                        assert(self@.empty_block(r as int, c as int));
                        assert(!self@.block_ok(r as int, c as int));
                        return Err(BoardError::CorridorsTooWide(r as Index, c as Index));
                    }
                }
                assert(self@.block_ok(r as int, c as int));
                c = c + 1;
            }
            r = r + 1;
        }
        assert(self@.corridors_ok());
        if !self.connected() {
            return Err(BoardError::UnconnectedCorridors);
        }
        Ok(())
    }

    /// The relaxed whole-board test run after every tentative assignment:
    /// reports the first line whose target is out of reach or the first
    /// cell that violates the relaxed monster or chest conditions.  It
    /// never rejects a partial board some completion of which is a valid
    /// solution with at least two non-wall cells.
    #[verifier::rlimit(100)]
    pub fn maybe_solvable(&self) -> (res: Result<(), BoardError>)
        requires
            self@.wf(),
        ensures
            res is Ok <==> self@.feasible(),
            res matches Err(e) ==> match e {
                BoardError::WrongRowCount(i) => 0 <= i < BOARD_SIZE && !self@.row_feasible(i as int)
                    && (forall|r: int| 0 <= r < i ==> self@.row_feasible(r)),
                BoardError::WrongColumnCount(i) => (forall|r: int|
                    0 <= r < BOARD_SIZE ==> self@.row_feasible(r)) && 0 <= i < BOARD_SIZE
                    && !self@.col_feasible(i as int) && (forall|c: int|
                    0 <= c < i ==> self@.col_feasible(c)),
                BoardError::MonsterNotInDeadEnd(r, c) => (forall|r2: int|
                    0 <= r2 < BOARD_SIZE ==> self@.row_feasible(r2)) && (forall|c2: int|
                    0 <= c2 < BOARD_SIZE ==> self@.col_feasible(c2)) && in_bounds(
                    r as int,
                    c as int,
                ) && self@.cell_in(r as int, c as int) == Cell::Monster && !self@.maybe_dead_end(
                    r as int,
                    c as int,
                ) && self@.cells_feasible_before(r as int, c as int),
                BoardError::DeadEndWithNoMonster(r, c) => (forall|r2: int|
                    0 <= r2 < BOARD_SIZE ==> self@.row_feasible(r2)) && (forall|c2: int|
                    0 <= c2 < BOARD_SIZE ==> self@.col_feasible(c2)) && in_bounds(
                    r as int,
                    c as int,
                ) && self@.cell_in(r as int, c as int) != Cell::Monster && self@.dead_end(
                    r as int,
                    c as int,
                ) && self@.cells_feasible_before(r as int, c as int),
                BoardError::NoTreasureRoomForChest(r, c) => (forall|r2: int|
                    0 <= r2 < BOARD_SIZE ==> self@.row_feasible(r2)) && (forall|c2: int|
                    0 <= c2 < BOARD_SIZE ==> self@.col_feasible(c2)) && in_bounds(
                    r as int,
                    c as int,
                ) && self@.cell_in(r as int, c as int) == Cell::Chest && !self@.dead_end(
                    r as int,
                    c as int,
                ) && !self@.maybe_has_room(r as int, c as int) && self@.cells_feasible_before(
                    r as int,
                    c as int,
                ),
                _ => false,
            },
    {
        match self.rows_acceptable() {
            Ok(()) => (),
            Err(i) => {
                return Err(BoardError::WrongRowCount(i));
            },
        }
        match self.cols_acceptable() {
            Ok(()) => (),
            Err(i) => {
                return Err(BoardError::WrongColumnCount(i));
            },
        }
        let mut r: usize = 0;
        while r < BOARD_SIZE
            invariant
                self@.wf(),
                forall|r2: int| 0 <= r2 < BOARD_SIZE ==> self@.row_feasible(r2),
                forall|c2: int| 0 <= c2 < BOARD_SIZE ==> self@.col_feasible(c2),
                r <= BOARD_SIZE,
                self@.cells_feasible_before(r as int, 0),
            decreases BOARD_SIZE - r,
        {
            let mut c: usize = 0;
            while c < BOARD_SIZE
                invariant
                    self@.wf(),
                    forall|r2: int| 0 <= r2 < BOARD_SIZE ==> self@.row_feasible(r2),
                    forall|c2: int| 0 <= c2 < BOARD_SIZE ==> self@.col_feasible(c2),
                    r < BOARD_SIZE,
                    c <= BOARD_SIZE,
                    self@.cells_feasible_before(r as int, c as int),
                decreases BOARD_SIZE - c,
            {
                let ri = r as Index;
                let ci = c as Index;
                let cell = self.cells[r * BOARD_SIZE + c];
                let is_monster = cell == Cell::Monster;
                let may_de = self.maybe_dead_end(ri, ci);
                let is_de = self.is_dead_end(ri, ci);
                if is_monster && !may_de {
                    assert(!self@.cell_feasible(r as int, c as int));
                    return Err(BoardError::MonsterNotInDeadEnd(ri, ci));
                }
                if !is_monster && is_de {
                    assert(!self@.cell_feasible(r as int, c as int));
                    return Err(BoardError::DeadEndWithNoMonster(ri, ci));
                }
                if cell == Cell::Chest {
                    let found = self.maybe_treasure_room(ri - 2, ci - 2)
                        || self.maybe_treasure_room(ri - 2, ci - 1) || self.maybe_treasure_room(
                        ri - 2,
                        ci,
                    ) || self.maybe_treasure_room(ri - 1, ci - 2) || self.maybe_treasure_room(
                        ri - 1,
                        ci - 1,
                    ) || self.maybe_treasure_room(ri - 1, ci) || self.maybe_treasure_room(
                        ri,
                        ci - 2,
                    ) || self.maybe_treasure_room(ri, ci - 1) || self.maybe_treasure_room(ri, ci);
                    if !found {
                        assert(!self@.cell_feasible(r as int, c as int));
                        return Err(BoardError::NoTreasureRoomForChest(ri, ci));
                    }
                }
                assert(self@.cell_feasible(r as int, c as int));
                c = c + 1;
            }
            r = r + 1;
        }
        Ok(())
    }
}

} // verus!
