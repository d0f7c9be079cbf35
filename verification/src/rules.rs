//! Dead-end and treasure-room classification, in an exact form for complete
//! boards and a relaxed form that tolerates unknown cells.

use vstd::prelude::*;
use crate::board::{Board, BoardView, Cell, Index};

verus! {

/// The cell may stand inside a treasure room of a complete board.
pub open spec fn interior_exact_ok(cell: Cell) -> bool {
    cell == Cell::Empty || cell == Cell::Chest
}

/// The cell may still become part of a treasure-room interior.
pub open spec fn interior_relaxed_ok(cell: Cell) -> bool {
    cell == Cell::Empty || cell == Cell::Chest || cell == Cell::Unknown
}

impl BoardView {
    /// 1 if the cell at the coordinate (wall outside the board) is a wall.
    pub open spec fn wall_ind(self, r: int, c: int) -> int {
        if self.cell_at(r, c) == Cell::Wall {
            1
        } else {
            0
        }
    }

    /// 1 if the cell at the coordinate is empty.
    pub open spec fn empty_ind(self, r: int, c: int) -> int {
        if self.cell_at(r, c) == Cell::Empty {
            1
        } else {
            0
        }
    }

    /// 1 if the cell at the coordinate is unknown.
    pub open spec fn unknown_ind(self, r: int, c: int) -> int {
        if self.cell_at(r, c) == Cell::Unknown {
            1
        } else {
            0
        }
    }

    /// 1 if the cell at the coordinate is a chest.
    pub open spec fn chest_ind(self, r: int, c: int) -> int {
        if self.cell_at(r, c) == Cell::Chest {
            1
        } else {
            0
        }
    }

    /// How many of the four orthogonal neighbours are walls.
    pub open spec fn wall_neighbors(self, r: int, c: int) -> int {
        self.wall_ind(r - 1, c) + self.wall_ind(r, c - 1) + self.wall_ind(r, c + 1)
            + self.wall_ind(r + 1, c)
    }

    /// How many of the four orthogonal neighbours are empty.
    pub open spec fn empty_neighbors(self, r: int, c: int) -> int {
        self.empty_ind(r - 1, c) + self.empty_ind(r, c - 1) + self.empty_ind(r, c + 1)
            + self.empty_ind(r + 1, c)
    }

    /// The cell is decided, not a wall, and exactly three of its four
    /// neighbours are walls.
    pub open spec fn dead_end(self, r: int, c: int) -> bool {
        self.cell_at(r, c) != Cell::Unknown && self.cell_at(r, c) != Cell::Wall
            && self.wall_neighbors(r, c) == 3
    }

    /// The cell could still end up with exactly three wall neighbours once
    /// the remaining unknowns resolve: at most three walls and at most one
    /// empty neighbour so far.
    pub open spec fn maybe_dead_end(self, r: int, c: int) -> bool {
        self.wall_neighbors(r, c) <= 3 && self.empty_neighbors(r, c) <= 1
    }

    /// How many chests the 3x3 block with top-left corner `(r, c)` holds.
    pub open spec fn room_chests(self, r: int, c: int) -> int {
        self.chest_ind(r, c) + self.chest_ind(r, c + 1) + self.chest_ind(r, c + 2)
            + self.chest_ind(r + 1, c) + self.chest_ind(r + 1, c + 1) + self.chest_ind(r + 1, c + 2)
            + self.chest_ind(r + 2, c) + self.chest_ind(r + 2, c + 1) + self.chest_ind(r + 2, c + 2)
    }

    /// Every cell of the 3x3 block is empty or a chest.
    pub open spec fn room_interior_exact(self, r: int, c: int) -> bool {
        interior_exact_ok(self.cell_at(r, c)) && interior_exact_ok(self.cell_at(r, c + 1))
            && interior_exact_ok(self.cell_at(r, c + 2)) && interior_exact_ok(
            self.cell_at(r + 1, c),
        ) && interior_exact_ok(self.cell_at(r + 1, c + 1)) && interior_exact_ok(
            self.cell_at(r + 1, c + 2),
        ) && interior_exact_ok(self.cell_at(r + 2, c)) && interior_exact_ok(
            self.cell_at(r + 2, c + 1),
        ) && interior_exact_ok(self.cell_at(r + 2, c + 2))
    }

    /// Every cell of the 3x3 block is empty, a chest, or still unknown.
    pub open spec fn room_interior_relaxed(self, r: int, c: int) -> bool {
        interior_relaxed_ok(self.cell_at(r, c)) && interior_relaxed_ok(self.cell_at(r, c + 1))
            && interior_relaxed_ok(self.cell_at(r, c + 2)) && interior_relaxed_ok(
            self.cell_at(r + 1, c),
        ) && interior_relaxed_ok(self.cell_at(r + 1, c + 1)) && interior_relaxed_ok(
            self.cell_at(r + 1, c + 2),
        ) && interior_relaxed_ok(self.cell_at(r + 2, c)) && interior_relaxed_ok(
            self.cell_at(r + 2, c + 1),
        ) && interior_relaxed_ok(self.cell_at(r + 2, c + 2))
    }

    /// How many of the twelve boundary cells of the 3x3 block (three above,
    /// three below, three on each side, corners excluded) are walls.
    pub open spec fn room_boundary_walls(self, r: int, c: int) -> int {
        self.wall_ind(r - 1, c) + self.wall_ind(r - 1, c + 1) + self.wall_ind(r - 1, c + 2)
            + self.wall_ind(r, c - 1) + self.wall_ind(r, c + 3) + self.wall_ind(r + 1, c - 1)
            + self.wall_ind(r + 1, c + 3) + self.wall_ind(r + 2, c - 1) + self.wall_ind(r + 2, c + 3)
            + self.wall_ind(r + 3, c) + self.wall_ind(r + 3, c + 1) + self.wall_ind(r + 3, c + 2)
    }

    /// How many of the twelve boundary cells are still unknown.
    pub open spec fn room_boundary_unknowns(self, r: int, c: int) -> int {
        self.unknown_ind(r - 1, c) + self.unknown_ind(r - 1, c + 1) + self.unknown_ind(r - 1, c + 2)
            + self.unknown_ind(r, c - 1) + self.unknown_ind(r, c + 3) + self.unknown_ind(
            r + 1,
            c - 1,
        ) + self.unknown_ind(r + 1, c + 3) + self.unknown_ind(r + 2, c - 1) + self.unknown_ind(
            r + 2,
            c + 3,
        ) + self.unknown_ind(r + 3, c) + self.unknown_ind(r + 3, c + 1) + self.unknown_ind(
            r + 3,
            c + 2,
        )
    }

    /// The 3x3 block with top-left corner `(r, c)` is a valid treasure room
    /// of a complete board: all interior cells empty except at most one
    /// chest, and exactly eleven of the twelve boundary cells are walls (the
    /// remaining boundary cell is the single entrance).
    pub open spec fn treasure_room(self, r: int, c: int) -> bool {
        self.room_interior_exact(r, c) && self.room_chests(r, c) <= 1 && self.room_boundary_walls(
            r,
            c,
        ) == 11
    }

    /// The 3x3 block could still become a valid treasure room: unknown
    /// interior cells may resolve to empty, and the boundary wall count can
    /// still reach exactly eleven.
    pub open spec fn maybe_treasure_room(self, r: int, c: int) -> bool {
        self.room_interior_relaxed(r, c) && self.room_chests(r, c) <= 1
            && self.room_boundary_walls(r, c) <= 11 <= self.room_boundary_walls(r, c)
            + self.room_boundary_unknowns(r, c)
    }

    /// Some 3x3 placement containing the cell at `(r, c)` is a valid
    /// treasure room; the nine candidate corners are `(r - 2 .. r, c - 2 .. c)`.
    pub open spec fn has_room(self, r: int, c: int) -> bool {
        self.treasure_room(r - 2, c - 2) || self.treasure_room(r - 2, c - 1)
            || self.treasure_room(r - 2, c) || self.treasure_room(r - 1, c - 2)
            || self.treasure_room(r - 1, c - 1) || self.treasure_room(r - 1, c)
            || self.treasure_room(r, c - 2) || self.treasure_room(r, c - 1)
            || self.treasure_room(r, c)
    }

    /// Some 3x3 placement containing the cell at `(r, c)` could still become
    /// a valid treasure room.
    pub open spec fn maybe_has_room(self, r: int, c: int) -> bool {
        self.maybe_treasure_room(r - 2, c - 2) || self.maybe_treasure_room(r - 2, c - 1)
            || self.maybe_treasure_room(r - 2, c) || self.maybe_treasure_room(r - 1, c - 2)
            || self.maybe_treasure_room(r - 1, c - 1) || self.maybe_treasure_room(r - 1, c)
            || self.maybe_treasure_room(r, c - 2) || self.maybe_treasure_room(r, c - 1)
            || self.maybe_treasure_room(r, c)
    }
}

impl Board {
    /// Exact dead-end test: the cell is decided and not a wall, and exactly
    /// three of its four orthogonal neighbours are walls.
    pub fn is_dead_end(&self, r: Index, c: Index) -> (b: bool)
        requires
            self@.wf(),
            -127 <= r <= 126,
            -127 <= c <= 126,
        ensures
            b == self@.dead_end(r as int, c as int),
    {
        let cell = self.at(r, c);
        if cell == Cell::Unknown || cell == Cell::Wall {
            return false;
        }
        let mut walls: u8 = 0;
        if self.at(r - 1, c) == Cell::Wall {
            walls = walls + 1;
        }
        if self.at(r, c - 1) == Cell::Wall {
            walls = walls + 1;
        }
        if self.at(r, c + 1) == Cell::Wall {
            walls = walls + 1;
        }
        if self.at(r + 1, c) == Cell::Wall {
            walls = walls + 1;
        }
        walls == 3
    }

    /// Relaxed dead-end test for partial boards: among the four neighbours
    /// at most three are walls and at most one is empty, so the cell could
    /// still end up with exactly three wall neighbours.
    pub fn maybe_dead_end(&self, r: Index, c: Index) -> (b: bool)
        requires
            self@.wf(),
            -127 <= r <= 126,
            -127 <= c <= 126,
        ensures
            b == self@.maybe_dead_end(r as int, c as int),
    {
        let mut walls: u8 = 0;
        let mut air: u8 = 0;
        if self.at(r - 1, c) == Cell::Wall {
            walls = walls + 1;
        }
        if self.at(r, c - 1) == Cell::Wall {
            walls = walls + 1;
        }
        if self.at(r, c + 1) == Cell::Wall {
            walls = walls + 1;
        }
        if self.at(r + 1, c) == Cell::Wall {
            walls = walls + 1;
        }
        if self.at(r - 1, c) == Cell::Empty {
            air = air + 1;
        }
        if self.at(r, c - 1) == Cell::Empty {
            air = air + 1;
        }
        if self.at(r, c + 1) == Cell::Empty {
            air = air + 1;
        }
        if self.at(r + 1, c) == Cell::Empty {
            air = air + 1;
        }
        walls <= 3 && air <= 1
    }

    /// Exact treasure-room test for the 3x3 block with top-left corner
    /// `(r, c)`: interior all empty except at most one chest, and exactly
    /// eleven of the twelve boundary cells are walls.
    pub fn is_treasure_room(&self, r: Index, c: Index) -> (b: bool)
        requires
            self@.wf(),
            -127 <= r <= 124,
            -127 <= c <= 124,
        ensures
            b == self@.treasure_room(r as int, c as int),
    {
        let interior_ok = self.interior_cell_exact(r, c) && self.interior_cell_exact(r, c + 1)
            && self.interior_cell_exact(r, c + 2) && self.interior_cell_exact(r + 1, c)
            && self.interior_cell_exact(r + 1, c + 1) && self.interior_cell_exact(r + 1, c + 2)
            && self.interior_cell_exact(r + 2, c) && self.interior_cell_exact(r + 2, c + 1)
            && self.interior_cell_exact(r + 2, c + 2);
        let chests = self.room_chest_count(r, c);
        let walls = self.boundary_wall_count(r, c);
        interior_ok && chests <= 1 && walls == 11
    }

    /// Relaxed treasure-room test for partial boards: unknown interior cells
    /// may still resolve to empty, and the boundary wall count can still
    /// reach exactly eleven once unknown boundary cells resolve.
    pub fn maybe_treasure_room(&self, r: Index, c: Index) -> (b: bool)
        requires
            self@.wf(),
            -127 <= r <= 124,
            -127 <= c <= 124,
        ensures
            b == self@.maybe_treasure_room(r as int, c as int),
    {
        let interior_ok = self.interior_cell_relaxed(r, c) && self.interior_cell_relaxed(r, c + 1)
            && self.interior_cell_relaxed(r, c + 2) && self.interior_cell_relaxed(r + 1, c)
            && self.interior_cell_relaxed(r + 1, c + 1) && self.interior_cell_relaxed(r + 1, c + 2)
            && self.interior_cell_relaxed(r + 2, c) && self.interior_cell_relaxed(r + 2, c + 1)
            && self.interior_cell_relaxed(r + 2, c + 2);
        let chests = self.room_chest_count(r, c);
        let walls = self.boundary_wall_count(r, c);
        let unknowns = self.boundary_unknown_count(r, c);
        interior_ok && chests <= 1 && walls <= 11 && 11 <= walls + unknowns
    }

    /// The cell is acceptable inside a treasure room of a complete board.
    fn interior_cell_exact(&self, r: Index, c: Index) -> (b: bool)
        requires
            self@.wf(),
        ensures
            b == interior_exact_ok(self@.cell_at(r as int, c as int)),
    {
        let cell = self.at(r, c);
        cell == Cell::Empty || cell == Cell::Chest
    }

    /// The cell could still be acceptable inside a treasure room.
    fn interior_cell_relaxed(&self, r: Index, c: Index) -> (b: bool)
        requires
            self@.wf(),
        ensures
            b == interior_relaxed_ok(self@.cell_at(r as int, c as int)),
    {
        let cell = self.at(r, c);
        cell == Cell::Empty || cell == Cell::Chest || cell == Cell::Unknown
    }

    /// Counts the chests inside the 3x3 block with top-left corner `(r, c)`.
    #[verifier::rlimit(50)]
    fn room_chest_count(&self, r: Index, c: Index) -> (n: u8)
        requires
            self@.wf(),
            -127 <= r <= 124,
            -127 <= c <= 124,
        ensures
            n == self@.room_chests(r as int, c as int),
    {
        let mut n: u8 = 0;
        if self.at(r, c) == Cell::Chest {
            n = n + 1;
        }
        if self.at(r, c + 1) == Cell::Chest {
            n = n + 1;
        }
        if self.at(r, c + 2) == Cell::Chest {
            n = n + 1;
        }
        if self.at(r + 1, c) == Cell::Chest {
            n = n + 1;
        }
        if self.at(r + 1, c + 1) == Cell::Chest {
            n = n + 1;
        }
        if self.at(r + 1, c + 2) == Cell::Chest {
            n = n + 1;
        }
        if self.at(r + 2, c) == Cell::Chest {
            n = n + 1;
        }
        if self.at(r + 2, c + 1) == Cell::Chest {
            n = n + 1;
        }
        if self.at(r + 2, c + 2) == Cell::Chest {
            n = n + 1;
        }
        n
    }

    /// Counts the walls among the twelve boundary cells of the 3x3 block.
    #[verifier::rlimit(50)]
    fn boundary_wall_count(&self, r: Index, c: Index) -> (n: u8)
        requires
            self@.wf(),
            -127 <= r <= 124,
            -127 <= c <= 124,
        ensures
            n == self@.room_boundary_walls(r as int, c as int),
    {
        let mut n: u8 = 0;
        if self.at(r - 1, c) == Cell::Wall {
            n = n + 1;
        }
        if self.at(r - 1, c + 1) == Cell::Wall {
            n = n + 1;
        }
        if self.at(r - 1, c + 2) == Cell::Wall {
            n = n + 1;
        }
        if self.at(r, c - 1) == Cell::Wall {
            n = n + 1;
        }
        if self.at(r, c + 3) == Cell::Wall {
            n = n + 1;
        }
        if self.at(r + 1, c - 1) == Cell::Wall {
            n = n + 1;
        }
        if self.at(r + 1, c + 3) == Cell::Wall {
            n = n + 1;
        }
        if self.at(r + 2, c - 1) == Cell::Wall {
            n = n + 1;
        }
        if self.at(r + 2, c + 3) == Cell::Wall {
            n = n + 1;
        }
        if self.at(r + 3, c) == Cell::Wall {
            n = n + 1;
        }
        if self.at(r + 3, c + 1) == Cell::Wall {
            n = n + 1;
        }
        if self.at(r + 3, c + 2) == Cell::Wall {
            n = n + 1;
        }
        n
    }

    /// Counts the unknown cells among the twelve boundary cells.
    #[verifier::rlimit(50)]
    fn boundary_unknown_count(&self, r: Index, c: Index) -> (n: u8)
        requires
            self@.wf(),
            -127 <= r <= 124,
            -127 <= c <= 124,
        ensures
            n == self@.room_boundary_unknowns(r as int, c as int),
    {
        let mut n: u8 = 0;
        if self.at(r - 1, c) == Cell::Unknown {
            n = n + 1;
        }
        if self.at(r - 1, c + 1) == Cell::Unknown {
            n = n + 1;
        }
        if self.at(r - 1, c + 2) == Cell::Unknown {
            n = n + 1;
        }
        if self.at(r, c - 1) == Cell::Unknown {
            n = n + 1;
        }
        if self.at(r, c + 3) == Cell::Unknown {
            n = n + 1;
        }
        if self.at(r + 1, c - 1) == Cell::Unknown {
            n = n + 1;
        }
        if self.at(r + 1, c + 3) == Cell::Unknown {
            n = n + 1;
        }
        if self.at(r + 2, c - 1) == Cell::Unknown {
            n = n + 1;
        }
        if self.at(r + 2, c + 3) == Cell::Unknown {
            n = n + 1;
        }
        if self.at(r + 3, c) == Cell::Unknown {
            n = n + 1;
        }
        if self.at(r + 3, c + 1) == Cell::Unknown {
            n = n + 1;
        }
        if self.at(r + 3, c + 2) == Cell::Unknown {
            n = n + 1;
        }
        n
    }
}

} // verus!
