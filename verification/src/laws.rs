//! The guarantees the library makes about solved boards and about the
//! pruning test, stated and proved once and for all boards.

use vstd::prelude::*;
use crate::board::{in_bounds, BoardView, Cell, BOARD_SIZE};
use crate::rules::{interior_exact_ok, interior_relaxed_ok};

verus! {

/// The treasure room with top-left corner `(tr, tc)` is valid and contains
/// the cell at `(r, c)`.
pub open spec fn room_holds(s: BoardView, tr: int, tc: int, r: int, c: int) -> bool {
    s.treasure_room(tr, tc) && tr <= r <= tr + 2 && tc <= c <= tc + 2
}

/// Every row and column of a valid solution meets its wall-count target
/// exactly.
pub proof fn lemma_solution_counts(s: BoardView)
    requires
        s.valid_solution(),
    ensures
        forall|r: int| 0 <= r < BOARD_SIZE ==> s.row_exact(r),
        forall|c: int| 0 <= c < BOARD_SIZE ==> s.col_exact(c),
{
}

/// In a valid solution a cell holds a monster exactly when it is a dead
/// end.
pub proof fn lemma_solution_monsters(s: BoardView)
    requires
        s.valid_solution(),
    ensures
        forall|r: int, c: int|
            in_bounds(r, c) ==> ((#[trigger] s.cell_in(r, c) == Cell::Monster) == s.dead_end(r, c)),
{
    assert forall|r: int, c: int| in_bounds(r, c) implies ((#[trigger] s.cell_in(r, c)
        == Cell::Monster) == s.dead_end(r, c)) by {
        assert(s.cell_rules_ok(r, c));
    }
}

/// In a valid solution no all-empty 2x2 block lies outside every treasure
/// room's footprint.
pub proof fn lemma_solution_corridors(s: BoardView)
    requires
        s.valid_solution(),
    ensures
        forall|r: int, c: int|
            0 <= r < BOARD_SIZE - 1 && 0 <= c < BOARD_SIZE - 1 && #[trigger] s.empty_block(r, c)
                ==> s.room_covered(r, c),
{
    assert forall|r: int, c: int|
        0 <= r < BOARD_SIZE - 1 && 0 <= c < BOARD_SIZE - 1 && #[trigger] s.empty_block(r, c)
        implies s.room_covered(r, c) by {
        assert(s.block_ok(r, c));
    }
}

/// In a valid solution with at least one empty cell, every two non-wall
/// cells are connected through non-wall cells.  (A board whose non-wall
/// cells are all monsters or chests passes the connectivity check
/// trivially, so the rule promises nothing there.)
pub proof fn lemma_solution_connected(s: BoardView)
    requires
        s.valid_solution(),
        s.has_empty(),
    ensures
        forall|r1: int, c1: int, r2: int, c2: int|
            #[trigger] s.nonwall(r1, c1) && #[trigger] s.nonwall(r2, c2) ==> s.reaches(
                r1,
                c1,
                r2,
                c2,
            ),
{
}

/// A cell of a valid treasure-room interior is never a wall.
proof fn lemma_interior_nonwall(s: BoardView, tr: int, tc: int, x: int, y: int)
    requires
        s.room_interior_exact(tr, tc),
        tr <= x <= tr + 2,
        tc <= y <= tc + 2,
    ensures
        s.cell_at(x, y) != Cell::Wall,
{
}

/// A valid treasure room shifted a little from `(t1r, t1c)` places at
/// least two of its non-wall interior cells on the boundary of the 3x3
/// block at `(t1r, t1c)`, so that boundary cannot be eleven walls — which
/// is why two overlapping valid rooms must share their corner.
proof fn lemma_rooms_no_forward_shift(s: BoardView, t1r: int, t1c: int, t2r: int, t2c: int)
    requires
        s.treasure_room(t2r, t2c),
        -2 <= t2r - t1r <= 2,
        -2 <= t2c - t1c <= 2,
        t2r > t1r || (t2r == t1r && t2c > t1c),
    ensures
        s.room_boundary_walls(t1r, t1c) <= 10,
{
    let dr = t2r - t1r;
    let dc = t2c - t1c;
    if dr == 0 {
        lemma_interior_nonwall(s, t2r, t2c, t1r, t1c + 3);
        lemma_interior_nonwall(s, t2r, t2c, t1r + 1, t1c + 3);
    } else if dc == 0 {
        lemma_interior_nonwall(s, t2r, t2c, t1r + 3, t1c);
        lemma_interior_nonwall(s, t2r, t2c, t1r + 3, t1c + 1);
    } else if dc >= 1 {
        lemma_interior_nonwall(s, t2r, t2c, t1r + 3, t1c + 2);
        lemma_interior_nonwall(s, t2r, t2c, t1r + 2, t1c + 3);
    } else {
        lemma_interior_nonwall(s, t2r, t2c, t1r + 3, t1c);
        lemma_interior_nonwall(s, t2r, t2c, t1r + 2, t1c - 1);
    }
}

/// A cell lies in at most one valid treasure room.
pub proof fn lemma_room_unique(s: BoardView, r: int, c: int, t1r: int, t1c: int, t2r: int, t2c: int)
    requires
        room_holds(s, t1r, t1c, r, c),
        room_holds(s, t2r, t2c, r, c),
    ensures
        t1r == t2r && t1c == t2c,
{
    if t2r > t1r || (t2r == t1r && t2c > t1c) {
        lemma_rooms_no_forward_shift(s, t1r, t1c, t2r, t2c);
    } else if t1r > t2r || (t1r == t2r && t1c > t2c) {
        lemma_rooms_no_forward_shift(s, t2r, t2c, t1r, t1c);
    }
}

/// In a valid solution every chest lies in exactly one valid treasure
/// room, and no valid treasure room holds more than one chest.
pub proof fn lemma_chest_rooms(s: BoardView)
    requires
        s.valid_solution(),
    ensures
        forall|r: int, c: int|
            in_bounds(r, c) && #[trigger] s.cell_in(r, c) == Cell::Chest ==> exists|tr: int, tc: int|
                #[trigger] room_holds(s, tr, tc, r, c),
        forall|r: int, c: int, t1r: int, t1c: int, t2r: int, t2c: int|
            in_bounds(r, c) && #[trigger] room_holds(s, t1r, t1c, r, c) && #[trigger] room_holds(
                s,
                t2r,
                t2c,
                r,
                c,
            ) ==> t1r == t2r && t1c == t2c,
        forall|tr: int, tc: int| #[trigger] s.treasure_room(tr, tc) ==> s.room_chests(tr, tc) <= 1,
{
    assert forall|r: int, c: int|
        in_bounds(r, c) && #[trigger] s.cell_in(r, c) == Cell::Chest implies exists|tr: int, tc: int|
        #[trigger] room_holds(s, tr, tc, r, c) by {
        assert(s.cell_rules_ok(r, c));
        assert(s.has_room(r, c));
        if s.treasure_room(r - 2, c - 2) {
            assert(room_holds(s, r - 2, c - 2, r, c));
        } else if s.treasure_room(r - 2, c - 1) {
            assert(room_holds(s, r - 2, c - 1, r, c));
        } else if s.treasure_room(r - 2, c) {
            assert(room_holds(s, r - 2, c, r, c));
        } else if s.treasure_room(r - 1, c - 2) {
            assert(room_holds(s, r - 1, c - 2, r, c));
        } else if s.treasure_room(r - 1, c - 1) {
            assert(room_holds(s, r - 1, c - 1, r, c));
        } else if s.treasure_room(r - 1, c) {
            assert(room_holds(s, r - 1, c, r, c));
        } else if s.treasure_room(r, c - 2) {
            assert(room_holds(s, r, c - 2, r, c));
        } else if s.treasure_room(r, c - 1) {
            assert(room_holds(s, r, c - 1, r, c));
        } else {
            assert(room_holds(s, r, c, r, c));
        }
    }
    assert forall|r: int, c: int, t1r: int, t1c: int, t2r: int, t2c: int|
        in_bounds(r, c) && #[trigger] room_holds(s, t1r, t1c, r, c) && #[trigger] room_holds(
            s,
            t2r,
            t2c,
            r,
            c,
        ) implies t1r == t2r && t1c == t2c by {
        lemma_room_unique(s, r, c, t1r, t1c, t2r, t2c);
    }
}

/// Wall and unknown counts of a line prefix relate a partial board to any
/// completion of it: walls only appear, and every new wall was unknown.
proof fn lemma_row_counts_extend(p: BoardView, s: BoardView, r: int, n: int)
    requires
        p.wf(),
        s.wf(),
        p.extended_by(s),
        0 <= r < BOARD_SIZE,
        n <= BOARD_SIZE,
    ensures
        p.row_count_upto(Cell::Wall, r, n) <= s.row_count_upto(Cell::Wall, r, n),
        s.row_count_upto(Cell::Wall, r, n) <= p.row_count_upto(Cell::Wall, r, n)
            + p.row_count_upto(Cell::Unknown, r, n),
    decreases n,
{
    if n > 0 {
        lemma_row_counts_extend(p, s, r, n - 1);
        assert(p.cell_at(r, n - 1) == p.cell_in(r, n - 1));
        if p.cell_at(r, n - 1) != Cell::Unknown {
            assert(s.cell_at(r, n - 1) == p.cell_at(r, n - 1));
        }
    }
}

/// The column analogue of [`lemma_row_counts_extend`].
proof fn lemma_col_counts_extend(p: BoardView, s: BoardView, c: int, n: int)
    requires
        p.wf(),
        s.wf(),
        p.extended_by(s),
        0 <= c < BOARD_SIZE,
        n <= BOARD_SIZE,
    ensures
        p.col_count_upto(Cell::Wall, c, n) <= s.col_count_upto(Cell::Wall, c, n),
        s.col_count_upto(Cell::Wall, c, n) <= p.col_count_upto(Cell::Wall, c, n)
            + p.col_count_upto(Cell::Unknown, c, n),
    decreases n,
{
    if n > 0 {
        lemma_col_counts_extend(p, s, c, n - 1);
        assert(p.cell_at(n - 1, c) == p.cell_in(n - 1, c));
        if p.cell_at(n - 1, c) != Cell::Unknown {
            assert(s.cell_at(n - 1, c) == p.cell_at(n - 1, c));
        }
    }
}

/// A monster of a partial board still passes the relaxed dead-end test
/// when some completion is a valid solution.
proof fn lemma_monster_relax(p: BoardView, s: BoardView, r: int, c: int)
    requires
        p.wf(),
        s.wf(),
        p.extended_by(s),
        in_bounds(r, c),
        p.cell_in(r, c) == Cell::Monster,
        s.cell_rules_ok(r, c),
    ensures
        p.maybe_dead_end(r, c),
{
    assert(p.cell_at(r, c) == Cell::Monster);
    assert(s.cell_at(r, c) == p.cell_at(r, c));
    assert(s.dead_end(r, c));
    assert(p.wall_ind(r - 1, c) <= s.wall_ind(r - 1, c) && p.empty_ind(r - 1, c) + s.wall_ind(
        r - 1,
        c,
    ) <= 1) by {
        if p.cell_at(r - 1, c) != Cell::Unknown {
            assert(s.cell_at(r - 1, c) == p.cell_at(r - 1, c));
        }
    }
    assert(p.wall_ind(r, c - 1) <= s.wall_ind(r, c - 1) && p.empty_ind(r, c - 1) + s.wall_ind(
        r,
        c - 1,
    ) <= 1) by {
        if p.cell_at(r, c - 1) != Cell::Unknown {
            assert(s.cell_at(r, c - 1) == p.cell_at(r, c - 1));
        }
    }
    assert(p.wall_ind(r, c + 1) <= s.wall_ind(r, c + 1) && p.empty_ind(r, c + 1) + s.wall_ind(
        r,
        c + 1,
    ) <= 1) by {
        if p.cell_at(r, c + 1) != Cell::Unknown {
            assert(s.cell_at(r, c + 1) == p.cell_at(r, c + 1));
        }
    }
    assert(p.wall_ind(r + 1, c) <= s.wall_ind(r + 1, c) && p.empty_ind(r + 1, c) + s.wall_ind(
        r + 1,
        c,
    ) <= 1) by {
        if p.cell_at(r + 1, c) != Cell::Unknown {
            assert(s.cell_at(r + 1, c) == p.cell_at(r + 1, c));
        }
    }
}

/// A valid treasure room of a completion still passes the relaxed room
/// test on the partial board.
#[verifier::rlimit(100)]
proof fn lemma_room_relaxes(p: BoardView, s: BoardView, tr: int, tc: int)
    requires
        p.wf(),
        s.wf(),
        p.extended_by(s),
        s.treasure_room(tr, tc),
    ensures
        p.maybe_treasure_room(tr, tc),
{
    lemma_inds_extend(p, s, tr, tc);
    lemma_inds_extend(p, s, tr, tc + 1);
    lemma_inds_extend(p, s, tr, tc + 2);
    lemma_inds_extend(p, s, tr + 1, tc);
    lemma_inds_extend(p, s, tr + 1, tc + 1);
    lemma_inds_extend(p, s, tr + 1, tc + 2);
    lemma_inds_extend(p, s, tr + 2, tc);
    lemma_inds_extend(p, s, tr + 2, tc + 1);
    lemma_inds_extend(p, s, tr + 2, tc + 2);
    lemma_inds_extend(p, s, tr - 1, tc);
    lemma_inds_extend(p, s, tr - 1, tc + 1);
    lemma_inds_extend(p, s, tr - 1, tc + 2);
    lemma_inds_extend(p, s, tr, tc - 1);
    lemma_inds_extend(p, s, tr, tc + 3);
    lemma_inds_extend(p, s, tr + 1, tc - 1);
    lemma_inds_extend(p, s, tr + 1, tc + 3);
    lemma_inds_extend(p, s, tr + 2, tc - 1);
    lemma_inds_extend(p, s, tr + 2, tc + 3);
    lemma_inds_extend(p, s, tr + 3, tc);
    lemma_inds_extend(p, s, tr + 3, tc + 1);
    lemma_inds_extend(p, s, tr + 3, tc + 2);
    assert(p.room_interior_relaxed(tr, tc));
    assert(p.room_chests(tr, tc) <= s.room_chests(tr, tc));
    assert(p.room_boundary_walls(tr, tc) <= s.room_boundary_walls(tr, tc));
    assert(s.room_boundary_walls(tr, tc) <= p.room_boundary_walls(tr, tc)
        + p.room_boundary_unknowns(tr, tc));
}

/// How a decided or unknown cell of the partial board shows up in the
/// indicator counts of any completion.
proof fn lemma_inds_extend(p: BoardView, s: BoardView, x: int, y: int)
    requires
        p.extended_by(s),
    ensures
        p.wall_ind(x, y) <= s.wall_ind(x, y),
        s.wall_ind(x, y) <= p.wall_ind(x, y) + p.unknown_ind(x, y),
        p.chest_ind(x, y) <= s.chest_ind(x, y),
        interior_exact_ok(s.cell_at(x, y)) ==> interior_relaxed_ok(p.cell_at(x, y)),
{
    if p.cell_at(x, y) != Cell::Unknown {
        assert(s.cell_at(x, y) == p.cell_at(x, y));
    }
}

/// A cell whose chest rule holds has a non-wall orthogonal neighbour: at
/// least one interior cell of its treasure room is adjacent to it.
proof fn lemma_room_gives_neighbor(s: BoardView, r: int, c: int)
    requires
        s.has_room(r, c),
    ensures
        s.cell_at(r - 1, c) != Cell::Wall || s.cell_at(r, c - 1) != Cell::Wall || s.cell_at(
            r,
            c + 1,
        ) != Cell::Wall || s.cell_at(r + 1, c) != Cell::Wall,
{
    if s.treasure_room(r - 2, c - 2) {
        lemma_interior_nonwall(s, r - 2, c - 2, r - 1, c);
    } else if s.treasure_room(r - 2, c - 1) {
        lemma_interior_nonwall(s, r - 2, c - 1, r - 1, c);
    } else if s.treasure_room(r - 2, c) {
        lemma_interior_nonwall(s, r - 2, c, r - 1, c);
    } else if s.treasure_room(r - 1, c - 2) {
        lemma_interior_nonwall(s, r - 1, c - 2, r - 1, c);
    } else if s.treasure_room(r - 1, c - 1) {
        lemma_interior_nonwall(s, r - 1, c - 1, r - 1, c);
    } else if s.treasure_room(r - 1, c) {
        lemma_interior_nonwall(s, r - 1, c, r - 1, c);
    } else if s.treasure_room(r, c - 2) {
        lemma_interior_nonwall(s, r, c - 2, r + 1, c);
    } else if s.treasure_room(r, c - 1) {
        lemma_interior_nonwall(s, r, c - 1, r + 1, c);
    } else {
        lemma_interior_nonwall(s, r, c, r + 1, c);
    }
}

/// A board whose cells are walls everywhere but possibly at one index has
/// at most one non-wall cell.
proof fn lemma_nonwall_count_single(s: BoardView, k0: int, n: int)
    requires
        s.wf(),
        0 <= k0,
        n <= BOARD_SIZE * BOARD_SIZE,
        forall|j: int| 0 <= j < n && j != k0 ==> s.cells[j] == Cell::Wall,
    ensures
        s.nonwall_count_upto(n) <= 1,
        n <= k0 ==> s.nonwall_count_upto(n) == 0,
    decreases n,
{
    if n > 0 {
        lemma_nonwall_count_single(s, k0, n - 1);
    }
}

/// A board with at least two non-wall cells holds a non-wall cell other
/// than any given one.
proof fn lemma_second_nonwall(s: BoardView, r: int, c: int)
    requires
        s.wf(),
        in_bounds(r, c),
        s.nonwall_count() >= 2,
    ensures
        exists|r1: int, c1: int| #[trigger] s.nonwall(r1, c1) && (r1 != r || c1 != c),
{
    let k0 = r * 8 + c;
    if !(exists|k: int| 0 <= k < 64 && #[trigger] s.cells[k] != Cell::Wall && k != k0) {
        assert forall|j: int| 0 <= j < 64 && j != k0 implies s.cells[j] == Cell::Wall by {
            assert(!(0 <= j < 64 && s.cells[j] != Cell::Wall && j != k0));
        }
        lemma_nonwall_count_single(s, k0, 64);
        assert(false);
    }
    let k1 = choose|k: int| 0 <= k < 64 && #[trigger] s.cells[k] != Cell::Wall && k != k0;
    let r1 = k1 / 8;
    let c1 = k1 % 8;
    assert(8 * r1 + c1 == k1);
    assert(s.nonwall(r1, c1) && (r1 != r || c1 != c));
}

/// A decided non-monster cell of the partial board is not a dead end when
/// some completion with at least two non-wall cells is a valid solution.
proof fn lemma_dead_end_excluded(p: BoardView, s: BoardView, r: int, c: int)
    requires
        p.wf(),
        s.wf(),
        p.extended_by(s),
        in_bounds(r, c),
        p.cell_in(r, c) != Cell::Monster,
        s.valid_solution(),
        s.nonwall_count() >= 2,
    ensures
        !p.dead_end(r, c),
{
    if p.dead_end(r, c) {
        assert(s.cell_at(r, c) == p.cell_at(r, c));
        assert(s.cell_rules_ok(r, c));
        assert(s.wall_ind(r - 1, c) >= p.wall_ind(r - 1, c)) by {
            if p.cell_at(r - 1, c) != Cell::Unknown {
                assert(s.cell_at(r - 1, c) == p.cell_at(r - 1, c));
            }
        }
        assert(s.wall_ind(r, c - 1) >= p.wall_ind(r, c - 1)) by {
            if p.cell_at(r, c - 1) != Cell::Unknown {
                assert(s.cell_at(r, c - 1) == p.cell_at(r, c - 1));
            }
        }
        assert(s.wall_ind(r, c + 1) >= p.wall_ind(r, c + 1)) by {
            if p.cell_at(r, c + 1) != Cell::Unknown {
                assert(s.cell_at(r, c + 1) == p.cell_at(r, c + 1));
            }
        }
        assert(s.wall_ind(r + 1, c) >= p.wall_ind(r + 1, c)) by {
            if p.cell_at(r + 1, c) != Cell::Unknown {
                assert(s.cell_at(r + 1, c) == p.cell_at(r + 1, c));
            }
        }
        if s.wall_neighbors(r, c) == 3 {
            assert(s.dead_end(r, c));
            assert(false);
        } else {
            assert(s.wall_neighbors(r, c) == 4);
            if s.cell_in(r, c) == Cell::Chest {
                assert(s.has_room(r, c));
                lemma_room_gives_neighbor(s, r, c);
                assert(false);
            } else {
                assert(s.cell_in(r, c) == Cell::Empty);
                assert(s.has_empty());
                lemma_second_nonwall(s, r, c);
                let (r1, c1) = choose|r1: int, c1: int|
                    #[trigger] s.nonwall(r1, c1) && (r1 != r || c1 != c);
                assert(s.nonwall(r, c));
                assert(s.reaches(r1, c1, r, c));
                let n = choose|n: nat| s.reach_n(r1, c1, r, c, n);
                s.lemma_reach_entry(r1, c1, r, c, n);
                assert(false);
            }
        }
    }
}

/// Soundness of the pruning test: a partial board that can still be
/// completed into a valid solution is never rejected, provided that
/// completion has at least two non-wall cells.  (Without that proviso the
/// guarantee fails: a board whose only non-wall cell ends up sealed behind
/// four walls is a valid solution, yet on the way there the checker reads
/// the sealed cell as a dead end without a monster.)
pub proof fn lemma_prune_sound(p: BoardView, s: BoardView)
    requires
        p.wf(),
        s.wf(),
        p.extended_by(s),
        p.row_counts == s.row_counts,
        p.column_counts == s.column_counts,
        s.valid_solution(),
        s.nonwall_count() >= 2,
    ensures
        p.feasible(),
{
    assert forall|r: int| 0 <= r < BOARD_SIZE implies p.row_feasible(r) by {
        lemma_row_counts_extend(p, s, r, BOARD_SIZE as int);
        assert(s.row_exact(r));
    }
    assert forall|c: int| 0 <= c < BOARD_SIZE implies p.col_feasible(c) by {
        lemma_col_counts_extend(p, s, c, BOARD_SIZE as int);
        assert(s.col_exact(c));
    }
    assert forall|r: int, c: int| in_bounds(r, c) implies #[trigger] p.cell_feasible(r, c) by {
        assert(s.cell_rules_ok(r, c));
        if p.cell_in(r, c) == Cell::Monster {
            lemma_monster_relax(p, s, r, c);
        } else {
            lemma_dead_end_excluded(p, s, r, c);
        }
        if p.cell_in(r, c) == Cell::Chest {
            assert(p.cell_at(r, c) == Cell::Chest);
            assert(s.cell_at(r, c) == p.cell_at(r, c));
            assert(s.has_room(r, c));
            if s.treasure_room(r - 2, c - 2) {
                lemma_room_relaxes(p, s, r - 2, c - 2);
            } else if s.treasure_room(r - 2, c - 1) {
                lemma_room_relaxes(p, s, r - 2, c - 1);
            } else if s.treasure_room(r - 2, c) {
                lemma_room_relaxes(p, s, r - 2, c);
            } else if s.treasure_room(r - 1, c - 2) {
                lemma_room_relaxes(p, s, r - 1, c - 2);
            } else if s.treasure_room(r - 1, c - 1) {
                lemma_room_relaxes(p, s, r - 1, c - 1);
            } else if s.treasure_room(r - 1, c) {
                lemma_room_relaxes(p, s, r - 1, c);
            } else if s.treasure_room(r, c - 2) {
                lemma_room_relaxes(p, s, r, c - 2);
            } else if s.treasure_room(r, c - 1) {
                lemma_room_relaxes(p, s, r, c - 1);
            } else {
                lemma_room_relaxes(p, s, r, c);
            }
            assert(p.maybe_has_room(r, c));
        }
    }
}

} // verus!
