//! Parsing a board from its textual description: a header line with the
//! eight column targets, then up to eight rows, each led by its row
//! target.  Lines end at a newline, optionally preceded by a carriage
//! return; a final line ending is optional, and missing trailing rows
//! default to all-empty rows with a wall-count target of zero.

use vstd::prelude::*;
use vstd::string::StringSliceAdditionalSpecFns;
use crate::board::{in_bounds, Board, BoardView, Cell, ParseError, BOARD_SIZE};

verus! {

/// The byte is an ASCII decimal digit.
pub open spec fn is_digit(b: u8) -> bool {
    48 <= b <= 57
}

/// The byte names a cell: space, `.`, `#`, `M` or `C`.
pub open spec fn is_cell_char(b: u8) -> bool {
    b == 32 || b == 46 || b == 35 || b == 77 || b == 67
}

/// The cell a byte names.
pub open spec fn cell_of_char(b: u8) -> Cell {
    if b == 32 {
        Cell::Unknown
    } else if b == 46 {
        Cell::Empty
    } else if b == 35 {
        Cell::Wall
    } else if b == 77 {
        Cell::Monster
    } else {
        Cell::Chest
    }
}

/// Position of the first newline byte at or after `p`, or the input's
/// length when none follows.
pub open spec fn eol(s: Seq<u8>, p: int) -> int
    decreases s.len() - p,
{
    if p < 0 || p >= s.len() {
        s.len() as int
    } else if s[p] == 10 {
        p
    } else {
        eol(s, p + 1)
    }
}

/// Start of line `i`: the byte after the previous line's newline.  Once
/// the lines run out this points past the end of the input.
pub open spec fn line_lo(s: Seq<u8>, i: int) -> int
    decreases i,
{
    if i <= 0 {
        0
    } else {
        eol(s, line_lo(s, i - 1)) + 1
    }
}

/// The input has an `i`-th line.
pub open spec fn has_line(s: Seq<u8>, i: int) -> bool {
    line_lo(s, i) < s.len()
}

/// End of line `i`: the next newline, with a carriage return immediately
/// before it stripped — the lines `str::lines` yields.
pub open spec fn line_hi(s: Seq<u8>, i: int) -> int {
    let lo = line_lo(s, i);
    let e = eol(s, lo);
    if e < s.len() && e > lo && s[e - 1] == 13 {
        e - 1
    } else {
        e
    }
}

/// Length of line `i`.
pub open spec fn line_len(s: Seq<u8>, i: int) -> int {
    line_hi(s, i) - line_lo(s, i)
}

/// Byte `j` of line `i`.
pub open spec fn line_byte(s: Seq<u8>, i: int, j: int) -> u8 {
    s[line_lo(s, i) + j]
}

/// The bytes describe a board: a header line of nine bytes whose bytes
/// after the first are the eight column target digits (its first byte is
/// ignored), followed by at most eight board lines, each of nine bytes — a
/// row target digit and eight cell characters.  Missing board lines are
/// allowed; a ninth one is not.
pub open spec fn well_formed_input(s: Seq<u8>) -> bool {
    &&& has_line(s, 0)
    &&& line_len(s, 0) == 9
    &&& (forall|j: int| 1 <= j < 9 ==> is_digit(#[trigger] line_byte(s, 0, j)))
    &&& !has_line(s, 9)
    &&& (forall|r: int|
        1 <= r <= 8 && #[trigger] has_line(s, r) ==> line_len(s, r) == 9 && is_digit(
            line_byte(s, r, 0),
        ))
    &&& (forall|r: int, j: int|
        1 <= r <= 8 && has_line(s, r) && 1 <= j < 9 ==> is_cell_char(
            #[trigger] line_byte(s, r, j),
        ))
}

/// Column target `i` as the header spells it.
pub open spec fn parsed_col_target(s: Seq<u8>, i: int) -> int {
    line_byte(s, 0, i + 1) - 48
}

/// Row target `r`: the leading digit of its line, or zero for a missing
/// trailing line.
pub open spec fn parsed_row_target(s: Seq<u8>, r: int) -> int {
    if has_line(s, r + 1) {
        line_byte(s, r + 1, 0) - 48
    } else {
        0
    }
}

/// The cell at `(r, c)` as the text spells it; cells of a missing
/// trailing line default to empty.
pub open spec fn parsed_cell(s: Seq<u8>, r: int, c: int) -> Cell {
    if has_line(s, r + 1) {
        cell_of_char(line_byte(s, r + 1, 1 + c))
    } else {
        Cell::Empty
    }
}

/// Finds the next newline at or after `p`.
fn find_eol(bytes: &[u8], p: usize) -> (e: usize)
    requires
        p <= bytes@.len(),
    ensures
        e == eol(bytes@, p as int),
        p <= e <= bytes@.len(),
{
    let mut q = p;
    while q < bytes.len()
        invariant
            p <= q <= bytes@.len(),
            eol(bytes@, p as int) == eol(bytes@, q as int),
        decreases bytes@.len() - q,
    {
        if bytes[q] == 10 {
            return q;
        }
        q = q + 1;
    }
    q
}

impl Board {
    /// Parses a board description.  Succeeds exactly on well-formed input
    /// and then returns the board whose targets and cells are the ones the
    /// text spells out, rows past the end of the text defaulting to empty
    /// cells with a target of zero.
    #[verifier::loop_isolation(false)]
    pub fn from_string(text: &str) -> (res: Result<Board, ParseError>)
        ensures
            res is Ok <==> well_formed_input(text.spec_bytes()),
            res matches Ok(b) ==> {
                &&& b@.wf()
                &&& (forall|i: int|
                    0 <= i < 8 ==> #[trigger] b@.column_counts[i] == parsed_col_target(
                        text.spec_bytes(),
                        i,
                    ))
                &&& (forall|r: int|
                    0 <= r < 8 ==> #[trigger] b@.row_counts[r] == parsed_row_target(
                        text.spec_bytes(),
                        r,
                    ))
                &&& (forall|r: int, c: int|
                    in_bounds(r, c) ==> b@.cell_in(r, c) == #[trigger] parsed_cell(
                        text.spec_bytes(),
                        r,
                        c,
                    ))
            },
    {
        let bytes = text.as_bytes();
        let n = bytes.len();
        let ghost s = bytes@;
        if n == 0 {
            assert(!has_line(s, 0));
            return Err(ParseError);
        }
        assert(has_line(s, 0));
        let e0 = find_eol(bytes, 0);
        let h0 = if e0 < n && e0 > 0 && bytes[e0 - 1] == 13 {
            e0 - 1
        } else {
            e0
        };
        assert(line_lo(s, 0) == 0);
        assert(h0 == line_hi(s, 0));
        if h0 != 9 {
            assert(line_len(s, 0) != 9);
            return Err(ParseError);
        }
        let mut column_counts: Vec<u8> = Vec::new();
        let mut i: usize = 1;
        while i < 9
            invariant
                s == text.spec_bytes(),
                s == bytes@,
                n == bytes@.len(),
                1 <= i <= 9,
                column_counts@.len() == i - 1,
                line_lo(s, 0) == 0,
                line_hi(s, 0) == 9,
                9 <= n,
                forall|j: int| 1 <= j < i ==> is_digit(#[trigger] line_byte(s, 0, j)),
                forall|j: int| 0 <= j < i - 1 ==> column_counts@[j] == #[trigger] parsed_col_target(
                    s,
                    j,
                ),
            decreases 9 - i,
        {
            let b = bytes[i];
            if !(48 <= b && b <= 57) {
                assert(!is_digit(line_byte(s, 0, i as int)));
                return Err(ParseError);
            }
            column_counts.push(b - 48);
            i = i + 1;
        }
        let mut row_counts: Vec<u8> = Vec::new();
        let mut cells: Vec<Cell> = Vec::new();
        let mut pos: usize = if e0 < n {
            e0 + 1
        } else {
            n
        };
        let mut r: usize = 1;
        assert(line_lo(s, 1) == e0 + 1);
        while r <= 8
            invariant
                s == text.spec_bytes(),
                s == bytes@,
                n == bytes@.len(),
                1 <= r <= 9,
                pos <= n,
                pos < n ==> pos == line_lo(s, r as int),
                pos == n ==> line_lo(s, r as int) >= n,
                row_counts@.len() == r - 1,
                cells@.len() == (r - 1) * 8,
                forall|r2: int|
                    1 <= r2 < r && #[trigger] has_line(s, r2) ==> line_len(s, r2) == 9 && is_digit(
                        line_byte(s, r2, 0),
                    ),
                forall|r2: int, j: int|
                    1 <= r2 < r && has_line(s, r2) && 1 <= j < 9 ==> is_cell_char(
                        #[trigger] line_byte(s, r2, j),
                    ),
                forall|r2: int|
                    0 <= r2 < r - 1 ==> row_counts@[r2] == #[trigger] parsed_row_target(s, r2),
                forall|r2: int, c2: int|
                    0 <= r2 < r - 1 && 0 <= c2 < 8 ==> cells@[r2 * 8 + c2]
                        == #[trigger] parsed_cell(s, r2, c2),
            decreases 9 - r,
        {
            if pos >= n {
                assert(!has_line(s, r as int));
                row_counts.push(0);
                let mut c: usize = 0;
                while c < 8
                    invariant
                        c <= 8,
                        cells@.len() == (r - 1) * 8 + c,
                        forall|k: int|
                            (r - 1) * 8 <= k < (r - 1) * 8 + c ==> cells@[k] == Cell::Empty,
                        forall|r2: int, c2: int|
                            0 <= r2 < r - 1 && 0 <= c2 < 8 ==> cells@[r2 * 8 + c2]
                                == #[trigger] parsed_cell(s, r2, c2),
                    decreases 8 - c,
                {
                    cells.push(Cell::Empty);
                    c = c + 1;
                }
                assert(line_lo(s, r as int) >= n);
                assert(eol(s, line_lo(s, r as int)) == n);
                assert(line_lo(s, r as int + 1) == n + 1);
            } else {
                assert(has_line(s, r as int));
                let e = find_eol(bytes, pos);
                let hi = if e < n && e > pos && bytes[e - 1] == 13 {
                    e - 1
                } else {
                    e
                };
                assert(hi == line_hi(s, r as int));
                if hi - pos != 9 {
                    assert(line_len(s, r as int) != 9);
                    return Err(ParseError);
                }
                let b0 = bytes[pos];
                if !(48 <= b0 && b0 <= 57) {
                    assert(!is_digit(line_byte(s, r as int, 0)));
                    return Err(ParseError);
                }
                row_counts.push(b0 - 48);
                let mut c: usize = 0;
                while c < 8
                    invariant
                        s == bytes@,
                        n == bytes@.len(),
                        1 <= r <= 8,
                        c <= 8,
                        pos == line_lo(s, r as int),
                        pos + 9 <= n,
                        line_hi(s, r as int) == pos + 9,
                        has_line(s, r as int),
                        cells@.len() == (r - 1) * 8 + c,
                        forall|j: int| 1 <= j < 1 + c ==> is_cell_char(
                            #[trigger] line_byte(s, r as int, j),
                        ),
                        forall|c2: int|
                            0 <= c2 < c ==> cells@[(r - 1) * 8 + c2] == #[trigger] parsed_cell(
                                s,
                                r as int - 1,
                                c2,
                            ),
                        forall|r2: int, c2: int|
                            0 <= r2 < r - 1 && 0 <= c2 < 8 ==> cells@[r2 * 8 + c2]
                                == #[trigger] parsed_cell(s, r2, c2),
                    decreases 8 - c,
                {
                    let b = bytes[pos + 1 + c];
                    let cell = if b == 32 {
                        Cell::Unknown
                    } else if b == 46 {
                        Cell::Empty
                    } else if b == 35 {
                        Cell::Wall
                    } else if b == 77 {
                        Cell::Monster
                    } else if b == 67 {
                        Cell::Chest
                    } else {
                        assert(!is_cell_char(line_byte(s, r as int, 1 + c)));
                        return Err(ParseError);
                    };
                    cells.push(cell);
                    c = c + 1;
                }
                assert(line_lo(s, r as int + 1) == e + 1);
                pos = if e < n {
                    e + 1
                } else {
                    n
                };
            }
            r = r + 1;
        }
        if pos < n {
            assert(has_line(s, 9));
            return Err(ParseError);
        }
        assert(!has_line(s, 9));
        let board = Board { cells, column_counts, row_counts };
        assert(board@.wf());
        Ok(board)
    }
}

} // verus!
