//! The board data type, its mathematical view, and bounds-safe cell access.

use vstd::prelude::*;

verus! {

/// Coordinates are small signed integers; neighbour computations may take
/// them outside the board, and [`Board::at`] treats every such cell as a wall.
pub type Index = i8;

/// Number of rows and of columns of a board.
pub const BOARD_SIZE: usize = 8;

/// One cell of the grid.
#[derive(Copy, Clone, Debug, PartialEq, Eq, Structural)]
pub enum Cell {
    Unknown,
    Empty,
    Wall,
    Monster,
    Chest,
}

/// The first rule a board violates, as reported by the validator and by the
/// feasibility checker.
#[derive(Copy, Clone, Debug, PartialEq, Eq, Structural)]
pub enum BoardError {
    /// At least one cell is still `Unknown`.
    Unsolved,
    /// This row's wall count does not match its target.
    WrongRowCount(Index),
    /// This column's wall count does not match its target.
    WrongColumnCount(Index),
    /// The cell at this coordinate holds a monster but is not a dead end.
    MonsterNotInDeadEnd(Index, Index),
    /// The cell at this coordinate is a dead end but holds no monster.
    DeadEndWithNoMonster(Index, Index),
    /// No valid treasure room contains the chest at this coordinate.
    NoTreasureRoomForChest(Index, Index),
    /// A 2x2 all-empty block outside every treasure room starts here.
    CorridorsTooWide(Index, Index),
    /// The non-wall cells do not form a single connected component.
    UnconnectedCorridors,
}

/// Returned by the solver when every assignment of the unknown cells fails.
#[derive(Copy, Clone, Debug, PartialEq, Eq, Structural)]
pub struct Unsolvable;

/// Returned when a board description cannot be parsed.
#[derive(Copy, Clone, Debug, PartialEq, Eq, Structural)]
pub struct ParseError;

/// An 8x8 puzzle board: the cell grid in row-major order plus the wall-count
/// targets for each row and each column.
#[derive(Debug)]
pub struct Board {
    /// Row-major grid; the cell at row `r`, column `c` is `cells[r * 8 + c]`.
    pub cells: Vec<Cell>,
    pub column_counts: Vec<u8>,
    pub row_counts: Vec<u8>,
}

/// The mathematical value of a board.
#[verifier::ext_equal]
pub struct BoardView {
    pub cells: Seq<Cell>,
    pub column_counts: Seq<u8>,
    pub row_counts: Seq<u8>,
}

impl View for Board {
    type V = BoardView;

    open spec fn view(&self) -> BoardView {
        BoardView {
            cells: self.cells@,
            column_counts: self.column_counts@,
            row_counts: self.row_counts@,
        }
    }
}

/// Both coordinates lie on the board.
pub open spec fn in_bounds(r: int, c: int) -> bool {
    0 <= r < BOARD_SIZE && 0 <= c < BOARD_SIZE
}

impl BoardView {
    /// The grid holds all 64 cells and both target sequences have one entry
    /// per line.
    pub open spec fn wf(self) -> bool {
        &&& self.cells.len() == BOARD_SIZE * BOARD_SIZE
        &&& self.column_counts.len() == BOARD_SIZE
        &&& self.row_counts.len() == BOARD_SIZE
    }

    /// The cell at an in-bounds coordinate.
    pub open spec fn cell_in(self, r: int, c: int) -> Cell {
        self.cells[r * BOARD_SIZE + c]
    }

    /// Total cell lookup: out-of-board coordinates read as walls.
    pub open spec fn cell_at(self, r: int, c: int) -> Cell {
        if in_bounds(r, c) {
            self.cell_in(r, c)
        } else {
            Cell::Wall
        }
    }

    /// No cell is `Unknown`.
    pub open spec fn complete(self) -> bool {
        forall|k: int| 0 <= k < self.cells.len() ==> self.cells[k] != Cell::Unknown
    }

    /// Every already-decided cell of `self` keeps its value in `b`; only
    /// `Unknown` cells may differ.  The targets are not constrained here.
    pub open spec fn extended_by(self, b: BoardView) -> bool {
        forall|r: int, c: int|
            #[trigger] self.cell_at(r, c) != Cell::Unknown ==> b.cell_at(r, c) == self.cell_at(r, c)
    }
}

impl Board {
    /// Reports whether the coordinate lies on the board.
    pub fn is_in_bounds(&self, r: Index, c: Index) -> (b: bool)
        ensures
            b == in_bounds(r as int, c as int),
    {
        0 <= r && r < BOARD_SIZE as Index && 0 <= c && c < BOARD_SIZE as Index
    }

    /// Bounds-safe cell lookup: every out-of-board coordinate reads as a
    /// wall, so neighbour computations need no edge cases.
    pub fn at(&self, r: Index, c: Index) -> (cell: Cell)
        requires
            self@.wf(),
        ensures
            cell == self@.cell_at(r as int, c as int),
    {
        if self.is_in_bounds(r, c) {
            self.cells[(r as usize) * BOARD_SIZE + (c as usize)]
        } else {
            Cell::Wall
        }
    }

    /// The wall-count target of row `i`.
    pub fn row_target(&self, i: usize) -> (n: u8)
        requires
            self@.wf(),
            i < BOARD_SIZE,
        ensures
            n == self@.row_counts[i as int],
    {
        self.row_counts[i]
    }

    /// The wall-count target of column `i`.
    pub fn column_target(&self, i: usize) -> (n: u8)
        requires
            self@.wf(),
            i < BOARD_SIZE,
        ensures
            n == self@.column_counts[i as int],
    {
        self.column_counts[i]
    }
}

} // verus!
