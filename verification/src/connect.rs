//! Connectivity of the non-wall cells: a reachability relation over
//! 4-directional adjacency, and a flood fill that decides whether every
//! non-wall cell lies in one connected component.

use vstd::prelude::*;
use crate::board::{in_bounds, Board, BoardView, Cell, Index, BOARD_SIZE};

verus! {

/// The two coordinates are orthogonal neighbours.
pub open spec fn adjacent(r1: int, c1: int, r2: int, c2: int) -> bool {
    ||| (r2 == r1 - 1 && c2 == c1)
    ||| (r2 == r1 && c2 == c1 - 1)
    ||| (r2 == r1 && c2 == c1 + 1)
    ||| (r2 == r1 + 1 && c2 == c1)
}

/// The flag stored for the coordinate in a row-major sequence of 64 marks.
pub open spec fn mark_at(s: Seq<bool>, r: int, c: int) -> bool {
    s[r * BOARD_SIZE + c]
}

/// How many of the first `n` marks are set.
pub open spec fn marks_set_upto(s: Seq<bool>, n: int) -> int
    decreases n,
{
    if n <= 0 {
        0
    } else {
        marks_set_upto(s, n - 1) + if s[n - 1] {
            1int
        } else {
            0int
        }
    }
}

impl BoardView {
    /// The coordinate is on the board and not a wall.
    pub open spec fn nonwall(self, r: int, c: int) -> bool {
        in_bounds(r, c) && self.cell_in(r, c) != Cell::Wall
    }

    /// A path of exactly `n` steps leads from the first coordinate to the
    /// second; every step enters an on-board non-wall cell.
    pub open spec fn reach_n(self, r1: int, c1: int, r2: int, c2: int, n: nat) -> bool
        decreases n,
    {
        if n == 0 {
            r1 == r2 && c1 == c2
        } else {
            exists|rm: int, cm: int|
                adjacent(r1, c1, rm, cm) && #[trigger] self.nonwall(rm, cm) && self.reach_n(
                    rm,
                    cm,
                    r2,
                    c2,
                    (n - 1) as nat,
                )
        }
    }

    /// Some path leads from the first coordinate to the second.
    pub open spec fn reaches(self, r1: int, c1: int, r2: int, c2: int) -> bool {
        exists|n: nat| self.reach_n(r1, c1, r2, c2, n)
    }

    /// Some cell of the board is empty.
    pub open spec fn has_empty(self) -> bool {
        exists|r: int, c: int| in_bounds(r, c) && #[trigger] self.cell_in(r, c) == Cell::Empty
    }

    /// How many of the first `n` cells (row-major) are not walls.
    pub open spec fn nonwall_count_upto(self, n: int) -> int
        decreases n,
    {
        if n <= 0 {
            0
        } else {
            self.nonwall_count_upto(n - 1) + if self.cells[n - 1] != Cell::Wall {
                1int
            } else {
                0int
            }
        }
    }

    /// How many cells of the board are not walls.
    pub open spec fn nonwall_count(self) -> int {
        self.nonwall_count_upto((BOARD_SIZE * BOARD_SIZE) as int)
    }

    /// All non-wall cells form a single connected component.  A board
    /// without a single empty cell satisfies the rule trivially.
    pub open spec fn connectivity_ok(self) -> bool {
        self.has_empty() ==> forall|r1: int, c1: int, r2: int, c2: int|
            #[trigger] self.nonwall(r1, c1) && #[trigger] self.nonwall(r2, c2) ==> self.reaches(
                r1,
                c1,
                r2,
                c2,
            )
    }

    /// Paths concatenate: a path to a middle coordinate followed by a path
    /// onward yields a path of the combined length.
    pub proof fn lemma_reach_trans(
        self,
        ar: int,
        ac: int,
        br: int,
        bc: int,
        cr: int,
        cc: int,
        n1: nat,
        n2: nat,
    )
        requires
            self.reach_n(ar, ac, br, bc, n1),
            self.reach_n(br, bc, cr, cc, n2),
        ensures
            self.reach_n(ar, ac, cr, cc, n1 + n2),
        decreases n1,
    {
        if n1 == 0 {
        } else {
            let (rm, cm) = choose|rm: int, cm: int|
                adjacent(ar, ac, rm, cm) && #[trigger] self.nonwall(rm, cm) && self.reach_n(
                    rm,
                    cm,
                    br,
                    bc,
                    (n1 - 1) as nat,
                );
            self.lemma_reach_trans(rm, cm, br, bc, cr, cc, (n1 - 1) as nat, n2);
        }
    }

    /// A path from a non-wall cell can be walked backwards.
    pub proof fn lemma_reach_sym(self, ar: int, ac: int, br: int, bc: int, n: nat)
        requires
            self.reach_n(ar, ac, br, bc, n),
            self.nonwall(ar, ac),
        ensures
            self.reaches(br, bc, ar, ac),
        decreases n,
    {
        if n == 0 {
            assert(self.reach_n(br, bc, ar, ac, 0));
        } else {
            let (rm, cm) = choose|rm: int, cm: int|
                adjacent(ar, ac, rm, cm) && #[trigger] self.nonwall(rm, cm) && self.reach_n(
                    rm,
                    cm,
                    br,
                    bc,
                    (n - 1) as nat,
                );
            self.lemma_reach_sym(rm, cm, br, bc, (n - 1) as nat);
            let m = choose|m: nat| self.reach_n(br, bc, rm, cm, m);
            assert(self.reach_n(rm, cm, ar, ac, 1)) by {
                assert(adjacent(rm, cm, ar, ac) && self.nonwall(ar, ac) && self.reach_n(
                    ar,
                    ac,
                    ar,
                    ac,
                    0,
                ));
            }
            self.lemma_reach_trans(br, bc, rm, cm, ar, ac, m, 1);
        }
    }

    /// A cell reached from elsewhere has at least one on-board non-wall
    /// neighbour (the last cell the path came through).
    pub proof fn lemma_reach_entry(self, ar: int, ac: int, br: int, bc: int, n: nat)
        requires
            self.reach_n(ar, ac, br, bc, n),
            self.nonwall(ar, ac),
            (ar, ac) != (br, bc),
        ensures
            self.nonwall(br - 1, bc) || self.nonwall(br, bc - 1) || self.nonwall(br, bc + 1)
                || self.nonwall(br + 1, bc),
        decreases n,
    {
        if n == 0 {
        } else {
            let (rm, cm) = choose|rm: int, cm: int|
                adjacent(ar, ac, rm, cm) && #[trigger] self.nonwall(rm, cm) && self.reach_n(
                    rm,
                    cm,
                    br,
                    bc,
                    (n - 1) as nat,
                );
            if rm == br && cm == bc {
                assert(adjacent(br, bc, ar, ac));
            } else {
                self.lemma_reach_entry(rm, cm, br, bc, (n - 1) as nat);
            }
        }
    }

    /// Every cell reachable from a marked non-wall cell is marked, provided
    /// the marks are closed under stepping to adjacent non-wall cells.
    pub proof fn lemma_closed_covers_reachable(
        self,
        marks: Seq<bool>,
        r0: int,
        c0: int,
        r: int,
        c: int,
        n: nat,
    )
        requires
            self.wf(),
            marks.len() == BOARD_SIZE * BOARD_SIZE,
            self.nonwall(r0, c0),
            mark_at(marks, r0, c0),
            forall|ar: int, ac: int, br: int, bc: int|
                self.nonwall(ar, ac) && #[trigger] mark_at(marks, ar, ac) && adjacent(
                    ar,
                    ac,
                    br,
                    bc,
                ) && #[trigger] self.nonwall(br, bc) ==> mark_at(marks, br, bc),
            self.reach_n(r0, c0, r, c, n),
        ensures
            mark_at(marks, r, c),
        decreases n,
    {
        if n == 0 {
        } else {
            let (rm, cm) = choose|rm: int, cm: int|
                adjacent(r0, c0, rm, cm) && #[trigger] self.nonwall(rm, cm) && self.reach_n(
                    rm,
                    cm,
                    r,
                    c,
                    (n - 1) as nat,
                );
            assert(mark_at(marks, rm, cm));
            self.lemma_closed_covers_reachable(marks, rm, cm, r, c, (n - 1) as nat);
        }
    }

    /// If every mark sits on a non-wall cell, the marks are no more numerous
    /// than the non-wall cells; if in addition every non-wall cell is
    /// marked, the two counts agree.
    pub proof fn lemma_marks_versus_nonwall(self, marks: Seq<bool>, n: int)
        requires
            self.wf(),
            marks.len() == BOARD_SIZE * BOARD_SIZE,
            n <= BOARD_SIZE * BOARD_SIZE,
            forall|k: int| 0 <= k < marks.len() && #[trigger] marks[k] ==> self.cells[k]
                != Cell::Wall,
        ensures
            marks_set_upto(marks, n) <= self.nonwall_count_upto(n),
            (forall|k: int| 0 <= k < n && #[trigger] self.cells[k] != Cell::Wall ==> marks[k])
                ==> marks_set_upto(marks, n) == self.nonwall_count_upto(n),
        decreases n,
    {
        if n <= 0 {
        } else {
            self.lemma_marks_versus_nonwall(marks, n - 1);
        }
    }

    /// If some non-wall cell among the first `n` is unmarked, the marks are
    /// strictly fewer than the non-wall cells.
    pub proof fn lemma_marks_strictly_fewer(self, marks: Seq<bool>, j: int, n: int)
        requires
            self.wf(),
            marks.len() == BOARD_SIZE * BOARD_SIZE,
            n <= BOARD_SIZE * BOARD_SIZE,
            0 <= j < n,
            self.cells[j] != Cell::Wall,
            !marks[j],
            forall|k: int| 0 <= k < marks.len() && #[trigger] marks[k] ==> self.cells[k]
                != Cell::Wall,
        ensures
            marks_set_upto(marks, n) < self.nonwall_count_upto(n),
        decreases n,
    {
        if j == n - 1 {
            self.lemma_marks_versus_nonwall(marks, n - 1);
        } else {
            self.lemma_marks_strictly_fewer(marks, j, n - 1);
        }
    }
}

/// Some entry of the work stack holds the coordinate.
pub open spec fn stack_has(st: Seq<(Index, Index)>, r: int, c: int) -> bool {
    exists|j: int| 0 <= j < st.len() && #[trigger] st[j] == ((r as Index), (c as Index))
}

/// Entry `j` of the work stack holds an on-board non-wall cell reachable
/// from the flood-fill origin.
pub open spec fn stack_entry_ok(bv: BoardView, st: Seq<(Index, Index)>, r0: int, c0: int, j: int) -> bool {
    bv.nonwall(st[j].0 as int, st[j].1 as int) && bv.reaches(r0, c0, st[j].0 as int, st[j].1 as int)
}

impl Board {
    /// Finds the first empty cell in row-major order.
    fn first_empty(&self) -> (res: Option<(Index, Index)>)
        requires
            self@.wf(),
        ensures
            res matches Some(p) ==> in_bounds(p.0 as int, p.1 as int) && self@.cell_in(
                p.0 as int,
                p.1 as int,
            ) == Cell::Empty,
            res is None ==> !self@.has_empty(),
    {
        let mut r: usize = 0;
        while r < BOARD_SIZE
            invariant
                self@.wf(),
                r <= BOARD_SIZE,
                forall|rr: int, cc: int|
                    0 <= rr < r && 0 <= cc < BOARD_SIZE ==> #[trigger] self@.cell_in(rr, cc)
                        != Cell::Empty,
            decreases BOARD_SIZE - r,
        {
            let mut c: usize = 0;
            while c < BOARD_SIZE
                invariant
                    self@.wf(),
                    r < BOARD_SIZE,
                    c <= BOARD_SIZE,
                    forall|rr: int, cc: int|
                        0 <= rr < r && 0 <= cc < BOARD_SIZE ==> #[trigger] self@.cell_in(rr, cc)
                            != Cell::Empty,
                    forall|cc: int| 0 <= cc < c ==> #[trigger] self@.cell_in(r as int, cc)
                        != Cell::Empty,
                decreases BOARD_SIZE - c,
            {
                if self.cells[r * BOARD_SIZE + c] == Cell::Empty {
                    return Some((r as Index, c as Index));
                }
                c = c + 1;
            }
            r = r + 1;
        }
        None
    }

    /// Pushes the coordinate on the flood-fill work stack when it is an
    /// on-board non-wall cell, and leaves the stack unchanged otherwise.
    fn push_if_open(&self, st: &mut Vec<(Index, Index)>, nr: Index, nc: Index, origin: Ghost<(int, int)>)
        requires
            self@.wf(),
            self@.nonwall(nr as int, nc as int) ==> self@.reaches(
                origin@.0,
                origin@.1,
                nr as int,
                nc as int,
            ),
            forall|j: int| 0 <= j < old(st)@.len() ==> #[trigger] stack_entry_ok(
                self@,
                old(st)@,
                origin@.0,
                origin@.1,
                j,
            ),
        ensures
            forall|j: int| 0 <= j < final(st)@.len() ==> #[trigger] stack_entry_ok(
                self@,
                final(st)@,
                origin@.0,
                origin@.1,
                j,
            ),
            forall|rr: int, cc: int| #[trigger] stack_has(old(st)@, rr, cc) ==> stack_has(
                final(st)@,
                rr,
                cc,
            ),
            self@.nonwall(nr as int, nc as int) ==> stack_has(final(st)@, nr as int, nc as int),
            !self@.nonwall(nr as int, nc as int) ==> final(st)@ == old(st)@,
            final(st)@.len() >= old(st)@.len(),
    {
        if self.at(nr, nc) != Cell::Wall {
            st.push((nr, nc));
            proof {
                assert(st@[st@.len() - 1] == (nr, nc));
                assert(stack_has(st@, nr as int, nc as int));
                assert forall|j: int| 0 <= j < st@.len() implies #[trigger] stack_entry_ok(
                    self@,
                    st@,
                    origin@.0,
                    origin@.1,
                    j,
                ) by {
                    if j < st@.len() - 1 {
                        assert(st@[j] == old(st)@[j]);
                        assert(stack_entry_ok(self@, old(st)@, origin@.0, origin@.1, j));
                    } else {
                        assert(st@[j] == (nr, nc));
                    }
                }
                assert forall|rr: int, cc: int| #[trigger] stack_has(old(st)@, rr, cc) implies
                    stack_has(st@, rr, cc) by {
                    let j = choose|j: int|
                        0 <= j < old(st)@.len() && #[trigger] old(st)@[j] == ((rr as Index), (
                        cc as Index));
                    assert(st@[j] == old(st)@[j]);
                }
            }
        }
    }

    /// Flood fill over the non-wall cells from the first empty cell, then a
    /// comparison of the number of reached cells with the number of all
    /// non-wall cells: equality means a single connected component.
    #[verifier::rlimit(100)]
    pub(crate) fn connected(&self) -> (b: bool)
        requires
            self@.wf(),
        ensures
            b == self@.connectivity_ok(),
    {
        let start = self.first_empty();
        let (r0, c0) = match start {
            None => {
                return true;
            },
            Some(p) => p,
        };
        let mut seen: Vec<bool> = Vec::new();
        let mut i: usize = 0;
        while i < BOARD_SIZE * BOARD_SIZE
            invariant
                seen@.len() == i,
                i <= BOARD_SIZE * BOARD_SIZE,
                forall|k: int| 0 <= k < i ==> !seen@[k],
            decreases BOARD_SIZE * BOARD_SIZE - i,
        {
            seen.push(false);
            i = i + 1;
        }
        proof {
            lemma_marks_none_set(seen@, (BOARD_SIZE * BOARD_SIZE) as int);
        }
        let mut stack: Vec<(Index, Index)> = Vec::new();
        proof {
            assert(self@.reach_n(r0 as int, c0 as int, r0 as int, c0 as int, 0));
        }
        stack.push((r0, c0));
        proof {
            assert(stack@[0] == (r0, c0));
            assert(stack_has(stack@, r0 as int, c0 as int));
            assert(stack_entry_ok(self@, stack@, r0 as int, c0 as int, 0));
        }
        let mut count: u32 = 0;
        while stack.len() > 0
            invariant
                self@.wf(),
                seen@.len() == BOARD_SIZE * BOARD_SIZE,
                self@.nonwall(r0 as int, c0 as int),
                self@.cell_in(r0 as int, c0 as int) == Cell::Empty,
                count == marks_set_upto(seen@, (BOARD_SIZE * BOARD_SIZE) as int),
                forall|j: int| 0 <= j < stack@.len() ==> #[trigger] stack_entry_ok(
                    self@,
                    stack@,
                    r0 as int,
                    c0 as int,
                    j,
                ),
                forall|r: int, c: int|
                    in_bounds(r, c) && #[trigger] mark_at(seen@, r, c) ==> self@.nonwall(r, c)
                        && self@.reaches(r0 as int, c0 as int, r, c),
                forall|ar: int, ac: int, br: int, bc: int|
                    self@.nonwall(ar, ac) && #[trigger] mark_at(seen@, ar, ac) && adjacent(
                        ar,
                        ac,
                        br,
                        bc,
                    ) && #[trigger] self@.nonwall(br, bc) ==> mark_at(seen@, br, bc) || stack_has(
                        stack@,
                        br,
                        bc,
                    ),
                mark_at(seen@, r0 as int, c0 as int) || stack_has(stack@, r0 as int, c0 as int),
            decreases
                    BOARD_SIZE * BOARD_SIZE - marks_set_upto(seen@, (BOARD_SIZE * BOARD_SIZE) as int),
                    stack@.len(),
        {
            let ghost stack_old = stack@;
            let ghost seen_old = seen@;
            let ghost origin = (r0 as int, c0 as int);
            let p = stack.pop().unwrap();
            let (r, c) = p;
            proof {
                assert(stack_entry_ok(self@, stack_old, r0 as int, c0 as int, stack_old.len() - 1));
                lemma_marks_set_bound(seen@, (BOARD_SIZE * BOARD_SIZE) as int);
                assert forall|j: int| 0 <= j < stack@.len() implies #[trigger] stack_entry_ok(
                    self@,
                    stack@,
                    r0 as int,
                    c0 as int,
                    j,
                ) by {
                    assert(stack@[j] == stack_old[j]);
                    assert(stack_entry_ok(self@, stack_old, r0 as int, c0 as int, j));
                }
            }
            let ghost stack_popped = stack@;
            let ki = (r as usize) * BOARD_SIZE + (c as usize);
            if !seen[ki] {
                seen[ki] = true;
                proof {
                    lemma_marks_set_update(seen_old, ki as int, (BOARD_SIZE * BOARD_SIZE) as int);
                    lemma_marks_set_bound(seen@, (BOARD_SIZE * BOARD_SIZE) as int);
                }
                count = count + 1;
                proof {
                    if self@.nonwall(r as int - 1, c as int) {
                        self@.lemma_step_extends(origin.0, origin.1, r as int, c as int, r as int - 1, c as int);
                    }
                    if self@.nonwall(r as int, c as int - 1) {
                        self@.lemma_step_extends(origin.0, origin.1, r as int, c as int, r as int, c as int - 1);
                    }
                    if self@.nonwall(r as int, c as int + 1) {
                        self@.lemma_step_extends(origin.0, origin.1, r as int, c as int, r as int, c as int + 1);
                    }
                    if self@.nonwall(r as int + 1, c as int) {
                        self@.lemma_step_extends(origin.0, origin.1, r as int, c as int, r as int + 1, c as int);
                    }
                }
                self.push_if_open(&mut stack, r - 1, c, Ghost(origin));
                self.push_if_open(&mut stack, r, c - 1, Ghost(origin));
                self.push_if_open(&mut stack, r, c + 1, Ghost(origin));
                self.push_if_open(&mut stack, r + 1, c, Ghost(origin));
                proof {
                    assert forall|rr: int, cc: int|
                        in_bounds(rr, cc) && #[trigger] mark_at(seen@, rr, cc) implies
                        self@.nonwall(rr, cc) && self@.reaches(r0 as int, c0 as int, rr, cc) by {
                        if rr == r as int && cc == c as int {
                        } else {
                            assert(mark_at(seen_old, rr, cc));
                        }
                    }
                    assert forall|ar: int, ac: int, br: int, bc: int|
                        self@.nonwall(ar, ac) && #[trigger] mark_at(seen@, ar, ac) && adjacent(
                            ar,
                            ac,
                            br,
                            bc,
                        ) && #[trigger] self@.nonwall(br, bc) implies mark_at(seen@, br, bc)
                        || stack_has(stack@, br, bc) by {
                        if ar == r as int && ac == c as int {
                            assert(stack_has(stack@, br, bc));
                        } else {
                            assert(mark_at(seen_old, ar, ac));
                            if !mark_at(seen_old, br, bc) {
                                let j = choose|j: int|
                                    0 <= j < stack_old.len() && #[trigger] stack_old[j] == (br as Index, bc as Index);
                                if j < stack_old.len() - 1 {
                                    assert(stack_popped[j] == stack_old[j]);
                                    assert(stack_has(stack_popped, br, bc));
                                    assert(stack_has(stack@, br, bc));
                                } else {
                                    assert(br == r as int && bc == c as int);
                                    assert(mark_at(seen@, br, bc));
                                }
                            }
                        }
                    }
                    assert(mark_at(seen@, r0 as int, c0 as int) || stack_has(
                        stack@,
                        r0 as int,
                        c0 as int,
                    )) by {
                        if !mark_at(seen@, r0 as int, c0 as int) {
                            assert(!mark_at(seen_old, r0 as int, c0 as int));
                            let j = choose|j: int|
                                0 <= j < stack_old.len() && #[trigger] stack_old[j] == ((
                                r0 as int) as Index, (c0 as int) as Index);
                            if j < stack_old.len() - 1 {
                                assert(stack_popped[j] == stack_old[j]);
                                assert(stack_has(stack_popped, r0 as int, c0 as int));
                                assert(stack_has(stack@, r0 as int, c0 as int));
                            } else {
                                assert(r0 as int == r as int && c0 as int == c as int);
                                assert(mark_at(seen@, r0 as int, c0 as int));
                            }
                        }
                    }
                }
            } else {
                proof {
                    assert forall|ar: int, ac: int, br: int, bc: int|
                        self@.nonwall(ar, ac) && #[trigger] mark_at(seen@, ar, ac) && adjacent(
                            ar,
                            ac,
                            br,
                            bc,
                        ) && #[trigger] self@.nonwall(br, bc) implies mark_at(seen@, br, bc)
                        || stack_has(stack@, br, bc) by {
                        if !mark_at(seen@, br, bc) {
                            let j = choose|j: int|
                                0 <= j < stack_old.len() && #[trigger] stack_old[j] == (br as Index, bc as Index);
                            if j < stack_old.len() - 1 {
                                assert(stack@[j] == stack_old[j]);
                                assert(stack_has(stack@, br, bc));
                            } else {
                                assert(mark_at(seen@, br, bc));
                            }
                        }
                    }
                    assert(mark_at(seen@, r0 as int, c0 as int) || stack_has(
                        stack@,
                        r0 as int,
                        c0 as int,
                    )) by {
                        if !mark_at(seen@, r0 as int, c0 as int) {
                            let j = choose|j: int|
                                0 <= j < stack_old.len() && #[trigger] stack_old[j] == ((
                                r0 as int) as Index, (c0 as int) as Index);
                            if j < stack_old.len() - 1 {
                                assert(stack@[j] == stack_old[j]);
                                assert(stack_has(stack@, r0 as int, c0 as int));
                            } else {
                                assert(mark_at(seen@, r0 as int, c0 as int));
                            }
                        }
                    }
                }
            }
        }
        let mut total: u32 = 0;
        let mut k2: usize = 0;
        while k2 < BOARD_SIZE * BOARD_SIZE
            invariant
                self@.wf(),
                k2 <= BOARD_SIZE * BOARD_SIZE,
                total == self@.nonwall_count_upto(k2 as int),
                total <= k2,
            decreases BOARD_SIZE * BOARD_SIZE - k2,
        {
            if self.cells[k2] != Cell::Wall {
                total = total + 1;
            }
            k2 = k2 + 1;
        }
        let res = count == total;
        proof {
            let bv = self@;
            let r0i = r0 as int;
            let c0i = c0 as int;
            let size = (BOARD_SIZE * BOARD_SIZE) as int;
            assert forall|k: int| 0 <= k < size && #[trigger] seen@[k] implies bv.cells[k]
                != Cell::Wall by {
                let r = k / 8;
                let c = k % 8;
                assert(8 * r + c == k);
                assert(in_bounds(r, c));
                assert(mark_at(seen@, r, c));
            }
            if count == total {
                assert forall|r: int, c: int| bv.nonwall(r, c) implies mark_at(seen@, r, c) by {
                    if !mark_at(seen@, r, c) {
                        bv.lemma_marks_strictly_fewer(seen@, r * 8 + c, size);
                    }
                }
                assert forall|r1: int, c1: int, r2: int, c2: int|
                    #[trigger] bv.nonwall(r1, c1) && #[trigger] bv.nonwall(r2, c2) implies
                    bv.reaches(r1, c1, r2, c2) by {
                    assert(mark_at(seen@, r1, c1));
                    assert(mark_at(seen@, r2, c2));
                    let n1 = choose|n: nat| bv.reach_n(r0i, c0i, r1, c1, n);
                    bv.lemma_reach_sym(r0i, c0i, r1, c1, n1);
                    let m1 = choose|m: nat| bv.reach_n(r1, c1, r0i, c0i, m);
                    let n2 = choose|n: nat| bv.reach_n(r0i, c0i, r2, c2, n);
                    bv.lemma_reach_trans(r1, c1, r0i, c0i, r2, c2, m1, n2);
                }
                assert(bv.connectivity_ok());
            } else {
                bv.lemma_marks_versus_nonwall(seen@, size);
                assert(!(forall|k: int|
                    0 <= k < size && #[trigger] bv.cells[k] != Cell::Wall ==> seen@[k]));
                let k = choose|k: int|
                    !(0 <= k < size && #[trigger] bv.cells[k] != Cell::Wall ==> seen@[k]);
                let r = k / 8;
                let c = k % 8;
                assert(8 * r + c == k);
                assert(bv.nonwall(r, c));
                assert(!mark_at(seen@, r, c));
                assert(!bv.reaches(r0i, c0i, r, c)) by {
                    if bv.reaches(r0i, c0i, r, c) {
                        let n = choose|n: nat| bv.reach_n(r0i, c0i, r, c, n);
                        bv.lemma_closed_covers_reachable(seen@, r0i, c0i, r, c, n);
                    }
                }
                assert(bv.has_empty()) by {
                    assert(in_bounds(r0i, c0i) && bv.cell_in(r0i, c0i) == Cell::Empty);
                }
                assert(!bv.connectivity_ok());
            }
        }
        res
    }
}

impl BoardView {
    /// One more step extends reachability from the origin to an adjacent
    /// non-wall cell.
    pub proof fn lemma_step_extends(self, r0: int, c0: int, r: int, c: int, nr: int, nc: int)
        requires
            self.reaches(r0, c0, r, c),
            adjacent(r, c, nr, nc),
            self.nonwall(nr, nc),
        ensures
            self.reaches(r0, c0, nr, nc),
    {
        let n1 = choose|n: nat| self.reach_n(r0, c0, r, c, n);
        assert(self.reach_n(nr, nc, nr, nc, 0));
        assert(self.reach_n(r, c, nr, nc, 1));
        self.lemma_reach_trans(r0, c0, r, c, nr, nc, n1, 1);
    }
}

/// A sequence of unset marks has none set.
pub proof fn lemma_marks_none_set(s: Seq<bool>, n: int)
    requires
        forall|k: int| 0 <= k < n ==> !s[k],
    ensures
        marks_set_upto(s, n) == 0,
    decreases n,
{
    if n <= 0 {
    } else {
        lemma_marks_none_set(s, n - 1);
    }
}

/// The number of set marks never exceeds the prefix length.
pub proof fn lemma_marks_set_bound(s: Seq<bool>, n: int)
    ensures
        0 <= marks_set_upto(s, n) <= if n <= 0 {
            0int
        } else {
            n
        },
    decreases n,
{
    if n <= 0 {
    } else {
        lemma_marks_set_bound(s, n - 1);
    }
}

/// Setting one unset mark raises the count of the whole sequence by one.
pub proof fn lemma_marks_set_update(s: Seq<bool>, k: int, n: int)
    requires
        0 <= k < s.len(),
        n <= s.len(),
        !s[k],
    ensures
        k < n ==> marks_set_upto(s.update(k, true), n) == marks_set_upto(s, n) + 1,
        n <= k ==> marks_set_upto(s.update(k, true), n) == marks_set_upto(s, n),
    decreases n,
{
    if n <= 0 {
    } else {
        lemma_marks_set_update(s, k, n - 1);
    }
}

} // verus!
