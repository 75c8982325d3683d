use vstd::prelude::*;
use crate::board::Board;
use crate::count::{lemma_sum_square_at_most_cells, lemma_sum_square_one, lemma_sum_square_zero, sum_square};
use crate::piece::{Piece, PieceType, Player};

verus! {

/// Squares `a` and `b` share a side.
pub open spec fn adjacent(a: (int, int), b: (int, int)) -> bool {
    ||| a.0 == b.0 && (a.1 == b.1 + 1 || b.1 == a.1 + 1)
    ||| a.1 == b.1 && (a.0 == b.0 + 1 || b.0 == a.0 + 1)
}

/// The `i`-th and next squares of `path` share a side.
pub open spec fn step_ok(path: Seq<(int, int)>, i: int) -> bool {
    adjacent(path[i], path[i + 1])
}

/// The mark at (`r`, `c`) of a grid of marks.
pub open spec fn mark(m: Seq<Vec<bool>>, r: int, c: int) -> bool {
    m[r]@[c]
}

/// `m` is an `n` by `n` grid of marks.
pub open spec fn grid_ok(m: Seq<Vec<bool>>, n: int) -> bool {
    &&& m.len() == n
    &&& forall|r: int| 0 <= r < n ==> (#[trigger] m[r])@.len() == n
}

/// A square next to (`r`, `c`) on an `n` by `n` grid is marked.
pub open spec fn marked_neighbour(m: Seq<Vec<bool>>, n: int, r: int, c: int) -> bool {
    ||| r > 0 && mark(m, r - 1, c)
    ||| r + 1 < n && mark(m, r + 1, c)
    ||| c > 0 && mark(m, r, c - 1)
    ||| c + 1 < n && mark(m, r, c + 1)
}

/// The `j`-th square of the side a road ends on: the bottom row when
/// `vertical`, the right column otherwise.
pub open spec fn end_cell(n: int, vertical: bool, j: int) -> (int, int) {
    if vertical { (n - 1, j) } else { (j, n - 1) }
}

/// The `j`-th square of the end side is marked.
pub open spec fn end_marked(m: Seq<Vec<bool>>, n: int, vertical: bool, j: int) -> bool {
    mark(m, end_cell(n, vertical, j).0, end_cell(n, vertical, j).1)
}

/// The number of marked squares.
pub open spec fn mark_total(m: Seq<Vec<bool>>, n: int) -> int {
    sum_square(|r: int, c: int| if mark(m, r, c) { 1int } else { 0int }, n)
}

impl Board {
    /// `path` is a non-empty chain of squares on the board, each sharing a
    /// side with the next, all counting for a road of `p`.
    pub open spec fn is_road_path(&self, p: Player, path: Seq<(int, int)>) -> bool {
        &&& path.len() > 0
        &&& forall|i: int| #![trigger path[i]] 0 <= i < path.len() ==> self.in_bounds(path[i].0, path[i].1)
            && self.road_square(path[i].0, path[i].1, p)
        &&& forall|i: int| 0 <= i < path.len() - 1 ==> #[trigger] step_ok(path, i)
    }

    /// `cell` is on the side a road starts from: the top row when `vertical`,
    /// the left column otherwise.
    pub open spec fn on_start_side(&self, vertical: bool, cell: (int, int)) -> bool {
        if vertical { cell.0 == 0 } else { cell.1 == 0 }
    }

    /// `cell` is on the opposite side: the bottom row when `vertical`, the
    /// right column otherwise.
    pub open spec fn on_end_side(&self, vertical: bool, cell: (int, int)) -> bool {
        if vertical { cell.0 == self.size - 1 } else { cell.1 == self.size - 1 }
    }

    /// A chain of `p`'s road squares leads from the start side to `cell`.
    pub open spec fn reaches(&self, p: Player, vertical: bool, cell: (int, int)) -> bool {
        exists|path: Seq<(int, int)>| #[trigger] self.is_road_path(p, path) && self.on_start_side(vertical, path[0])
            && path.last() == cell
    }

    /// A chain of `p`'s road squares joins the start side to the opposite side.
    pub open spec fn road_between(&self, p: Player, vertical: bool) -> bool {
        exists|path: Seq<(int, int)>| #[trigger] self.is_road_path(p, path) && self.on_start_side(vertical, path[0])
            && self.on_end_side(vertical, path.last())
    }

    /// `p` has a road: a chain of its flat stones and capstones, each sharing a side with the
    /// next, joining the top row to the bottom row or the left column to the
    /// right column.
    pub open spec fn has_road(&self, p: Player) -> bool {
        self.road_between(p, true) || self.road_between(p, false)
    }

    /// Every road square of `p` on the start side, or next to a marked square, is
    /// marked.
    pub open spec fn marks_closed(&self, p: Player, vertical: bool, m: Seq<Vec<bool>>) -> bool {
        forall|r: int, c: int| #![trigger self.road_square(r, c, p)]
            self.in_bounds(r, c) && self.road_square(r, c, p) && (self.on_start_side(vertical, (r, c))
                || marked_neighbour(m, self.size as int, r, c)) ==> mark(m, r, c)
    }

    /// Every marked square is reached by a chain from the start side.
    pub open spec fn marks_reached(&self, p: Player, vertical: bool, m: Seq<Vec<bool>>) -> bool {
        forall|r: int, c: int| #![trigger mark(m, r, c)]
            self.in_bounds(r, c) && mark(m, r, c) ==> self.reaches(p, vertical, (r, c))
    }

    /// Whether `player` has a road: a chain of its flat stones and capstones, each sharing a
    /// side with the next, from the top row to the bottom row or from the
    /// left column to the right column.
    pub fn check_road_win(&self, player: Player) -> (b: bool)
        requires
            self.wf(),
        ensures
            b == self.has_road(player),
    {
        self.connects(player, false) || self.connects(player, true)
    }

    /// Whether a chain of `player`'s road squares joins the two sides: top and
    /// bottom when `vertical`, left and right otherwise. Marks every road square
    /// reached from the start side, sweeping the board until a sweep marks
    /// nothing new, then looks at the opposite side.
    fn connects(&self, player: Player, vertical: bool) -> (b: bool)
        requires
            self.wf(),
        ensures
            b == self.road_between(player, vertical),
    {
        let n = self.size;
        if n == 0 {
            proof {
                if self.road_between(player, vertical) {
                    let path = choose|path: Seq<(int, int)>| #[trigger] self.is_road_path(player, path)
                        && self.on_start_side(vertical, path[0]) && self.on_end_side(vertical, path.last());
                    assert(self.in_bounds(path[0].0, path[0].1));
                }
            }
            return false;
        }
        let mut marks: Vec<Vec<bool>> = Vec::new();
        let mut i: usize = 0;
        while i < n
            invariant
                i <= n,
                marks@.len() == i,
                forall|r: int| 0 <= r < i ==> (#[trigger] marks@[r])@.len() == n,
                forall|r: int, c: int| 0 <= r < i && 0 <= c < n ==> !mark(marks@, r, c),
            decreases n - i,
        {
            let mut row: Vec<bool> = Vec::new();
            let mut j: usize = 0;
            while j < n
                invariant
                    j <= n,
                    row@.len() == j,
                    forall|c: int| 0 <= c < j ==> !row@[c],
                decreases n - j,
            {
                row.push(false);
                j = j + 1;
            }
            let ghost prev = marks@;
            marks.push(row);
            assert forall|r: int, c: int| 0 <= r < i + 1 && 0 <= c < n implies !mark(marks@, r, c) by {
                if r < i {
                    assert(!mark(prev, r, c));
                    assert(marks@[r] == prev[r]);
                } else {
                    assert(marks@[r]@ == row@);
                    assert(!row@[c]);
                }
            }
            i = i + 1;
        }
        proof {
            lemma_sum_square_zero(|r: int, c: int| if mark(marks@, r, c) { 1int } else { 0int }, n as int);
        }
        let mut done = false;
        while !done
            invariant
                self.wf(),
                n == self.size,
                n > 0,
                grid_ok(marks@, n as int),
                self.marks_reached(player, vertical, marks@),
                0 <= mark_total(marks@, n as int) <= n * n,
                done ==> self.marks_closed(player, vertical, marks@),
            decreases n * n - mark_total(marks@, n as int) + (if done { 0int } else { 1int }),
        {
            let ghost before = marks@;
            let mut changed = false;
            let mut r: usize = 0;
            while r < n
                invariant
                    self.wf(),
                    n == self.size,
                    n > 0,
                    r <= n,
                    grid_ok(marks@, n as int),
                    self.marks_reached(player, vertical, marks@),
                    !changed ==> marks@ == before,
                    changed ==> mark_total(marks@, n as int) > mark_total(before, n as int),
                    mark_total(marks@, n as int) >= mark_total(before, n as int),
                    !changed ==> forall|r2: int, c2: int| #![trigger self.road_square(r2, c2, player)]
                        0 <= r2 < r && 0 <= c2 < n && self.road_square(r2, c2, player)
                        && (self.on_start_side(vertical, (r2, c2)) || marked_neighbour(marks@, n as int, r2, c2))
                        ==> mark(marks@, r2, c2),
                decreases n - r,
            {
                let mut c: usize = 0;
                while c < n
                    invariant
                        self.wf(),
                        n == self.size,
                        n > 0,
                        r < n,
                        c <= n,
                        grid_ok(marks@, n as int),
                        self.marks_reached(player, vertical, marks@),
                        !changed ==> marks@ == before,
                        changed ==> mark_total(marks@, n as int) > mark_total(before, n as int),
                        mark_total(marks@, n as int) >= mark_total(before, n as int),
                        !changed ==> forall|r2: int, c2: int| #![trigger self.road_square(r2, c2, player)]
                            0 <= r2 < n && 0 <= c2 < n && (r2 < r || (r2 == r && c2 < c)) && self.road_square(r2, c2, player)
                            && (self.on_start_side(vertical, (r2, c2)) || marked_neighbour(marks@, n as int, r2, c2))
                            ==> mark(marks@, r2, c2),
                    decreases n - c,
                {
                    let start = if vertical { r == 0 } else { c == 0 };
                    if !marks[r][c] && self.is_road_square(r, c, player)
                        && (start || has_marked_neighbour(&marks, n, r, c)) {
                        proof {
                            self.lemma_new_mark_reached(player, vertical, marks@, r as int, c as int);
                        }
                        let ghost prev = marks@;
                        marks[r][c] = true;
                        proof {
                            assert forall|r2: int, c2: int| 0 <= r2 < n && 0 <= c2 < n && !(r2 == r && c2 == c)
                                implies #[trigger] mark(marks@, r2, c2) == mark(prev, r2, c2) by {
                                if r2 == r {
                                    assert(marks@[r2]@[c2] == prev[r2]@[c2]);
                                } else {
                                    assert(marks@[r2] == prev[r2]);
                                }
                            }
                            assert(grid_ok(marks@, n as int)) by {
                                assert forall|r2: int| 0 <= r2 < n implies (#[trigger] marks@[r2])@.len() == n by {
                                    if r2 != r {
                                        assert(marks@[r2] == prev[r2]);
                                    }
                                }
                            }
                            let f = |r2: int, c2: int| if mark(prev, r2, c2) { 1int } else { 0int };
                            let g = |r2: int, c2: int| if mark(marks@, r2, c2) { 1int } else { 0int };
                            assert forall|r2: int, c2: int| 0 <= r2 < n && 0 <= c2 < n && !(r2 == r && c2 == c)
                                implies #[trigger] f(r2, c2) == g(r2, c2) by {
                                assert(mark(marks@, r2, c2) == mark(prev, r2, c2));
                            }
                            lemma_sum_square_one(f, g, n as int, r as int, c as int);
                            assert forall|r2: int, c2: int| self.in_bounds(r2, c2) && #[trigger] mark(marks@, r2, c2)
                                implies self.reaches(player, vertical, (r2, c2)) by {
                                if !(r2 == r && c2 == c) {
                                    assert(mark(prev, r2, c2));
                                }
                            }
                        }
                        changed = true;
                    }
                    c = c + 1;
                }
                r = r + 1;
            }
            proof {
                lemma_sum_square_at_most_cells(|r2: int, c2: int| if mark(marks@, r2, c2) { 1int } else { 0int }, n as int);
            }
            if !changed {
                done = true;
            }
        }
        let mut k: usize = 0;
        while k < n
            invariant
                self.wf(),
                n == self.size,
                n > 0,
                k <= n,
                grid_ok(marks@, n as int),
                self.marks_reached(player, vertical, marks@),
                self.marks_closed(player, vertical, marks@),
                forall|j: int| 0 <= j < k ==> !(#[trigger] end_marked(marks@, n as int, vertical, j)),
            decreases n - k,
        {
            let (r, c) = if vertical { (n - 1, k) } else { (k, n - 1) };
            if marks[r][c] {
                proof {
                    assert(end_cell(n as int, vertical, k as int) == (r as int, c as int));
                    assert(mark(marks@, r as int, c as int));
                    assert(self.reaches(player, vertical, (r as int, c as int)));
                    let path = choose|path: Seq<(int, int)>| #[trigger] self.is_road_path(player, path)
                        && self.on_start_side(vertical, path[0]) && path.last() == (r as int, c as int);
                    assert(self.on_end_side(vertical, path.last()));
                }
                return true;
            }
            assert(end_cell(n as int, vertical, k as int) == (r as int, c as int));
            k = k + 1;
        }
        proof {
            if self.road_between(player, vertical) {
                let path = choose|path: Seq<(int, int)>| #[trigger] self.is_road_path(player, path)
                    && self.on_start_side(vertical, path[0]) && self.on_end_side(vertical, path.last());
                self.lemma_path_marked(player, vertical, marks@, path, path.len() - 1);
                let last = path.last();
                assert(path[path.len() - 1] == last);
                let j = if vertical { last.1 } else { last.0 };
                assert(end_marked(marks@, n as int, vertical, j));
            }
        }
        false
    }

    /// A road square of `p` on the start side, or next to a square that a chain
    /// already reaches, is reached by a chain too.
    proof fn lemma_new_mark_reached(&self, p: Player, vertical: bool, m: Seq<Vec<bool>>, r: int, c: int)
        requires
            self.wf(),
            grid_ok(m, self.size as int),
            self.in_bounds(r, c),
            self.road_square(r, c, p),
            self.on_start_side(vertical, (r, c)) || marked_neighbour(m, self.size as int, r, c),
            self.marks_reached(p, vertical, m),
        ensures
            self.reaches(p, vertical, (r, c)),
    {
        let n = self.size as int;
        if self.on_start_side(vertical, (r, c)) {
            let path = seq![(r, c)];
            assert(path[0] == (r, c));
            assert(self.is_road_path(p, path));
        } else {
            let nb = if r > 0 && mark(m, r - 1, c) {
                (r - 1, c)
            } else if r + 1 < n && mark(m, r + 1, c) {
                (r + 1, c)
            } else if c > 0 && mark(m, r, c - 1) {
                (r, c - 1)
            } else {
                (r, c + 1)
            };
            assert(mark(m, nb.0, nb.1));
            assert(self.reaches(p, vertical, nb));
            let path = choose|path: Seq<(int, int)>| #[trigger] self.is_road_path(p, path)
                && self.on_start_side(vertical, path[0]) && path.last() == nb;
            let longer = path.push((r, c));
            assert forall|i: int| 0 <= i < longer.len() - 1 implies #[trigger] step_ok(longer, i) by {
                if i < path.len() - 1 {
                    assert(step_ok(path, i));
                } else {
                    assert(longer[i] == nb);
                }
            }
            assert forall|i: int| #![trigger longer[i]] 0 <= i < longer.len() implies self.in_bounds(longer[i].0, longer[i].1)
                && self.road_square(longer[i].0, longer[i].1, p) by {
                if i < path.len() {
                    assert(longer[i] == path[i]);
                }
            }
            assert(self.is_road_path(p, longer));
            assert(longer[0] == path[0]);
            assert(longer.last() == (r, c));
        }
    }

    /// When the marks are closed, every square of a chain from the start
    /// side is marked.
    proof fn lemma_path_marked(&self, p: Player, vertical: bool, m: Seq<Vec<bool>>, path: Seq<(int, int)>, k: int)
        requires
            self.wf(),
            grid_ok(m, self.size as int),
            self.marks_closed(p, vertical, m),
            self.is_road_path(p, path),
            self.on_start_side(vertical, path[0]),
            0 <= k < path.len(),
        ensures
            mark(m, path[k].0, path[k].1),
        decreases k,
    {
        let cell = path[k];
        assert(self.in_bounds(cell.0, cell.1) && self.road_square(cell.0, cell.1, p));
        if k > 0 {
            self.lemma_path_marked(p, vertical, m, path, k - 1);
            assert(step_ok(path, k - 1));
            assert(marked_neighbour(m, self.size as int, cell.0, cell.1));
        }
    }
}

/// Whether a square next to (`r`, `c`) is marked.
fn has_marked_neighbour(marks: &Vec<Vec<bool>>, n: usize, r: usize, c: usize) -> (b: bool)
    requires
        grid_ok(marks@, n as int),
        r < n,
        c < n,
    ensures
        b == marked_neighbour(marks@, n as int, r as int, c as int),
{
    (r > 0 && marks[r - 1][c]) || (r + 1 < n && marks[r + 1][c]) || (c > 0 && marks[r][c - 1]) || (c + 1 < n
        && marks[r][c + 1])
}

/// Boards of one size on which the same squares count for a road of `p`
/// agree on whether `p` has a road.
proof fn lemma_same_road_squares(b1: Board, b2: Board, p: Player)
    requires
        b1.size == b2.size,
        forall|r: int, c: int| b1.in_bounds(r, c) ==> (#[trigger] b1.road_square(r, c, p)) == b2.road_square(r, c, p),
    ensures
        b1.has_road(p) == b2.has_road(p),
{
    assert forall|path: Seq<(int, int)>| #[trigger] b1.is_road_path(p, path) implies b2.is_road_path(p, path) by {
        assert forall|i: int| #![trigger path[i]] 0 <= i < path.len() implies b2.in_bounds(path[i].0, path[i].1)
            && b2.road_square(path[i].0, path[i].1, p) by {
            assert(b1.in_bounds(path[i].0, path[i].1));
        }
    }
    assert forall|path: Seq<(int, int)>| #[trigger] b2.is_road_path(p, path) implies b1.is_road_path(p, path) by {
        assert forall|i: int| #![trigger path[i]] 0 <= i < path.len() implies b1.in_bounds(path[i].0, path[i].1)
            && b1.road_square(path[i].0, path[i].1, p) by {
            assert(b2.in_bounds(path[i].0, path[i].1));
        }
    }
    assert forall|v: bool| b1.road_between(p, v) implies #[trigger] b2.road_between(p, v) by {
        let path = choose|path: Seq<(int, int)>| #[trigger] b1.is_road_path(p, path) && b1.on_start_side(v, path[0])
            && b1.on_end_side(v, path.last());
        assert(b2.is_road_path(p, path));
    }
    assert forall|v: bool| b2.road_between(p, v) implies #[trigger] b1.road_between(p, v) by {
        let path = choose|path: Seq<(int, int)>| #[trigger] b2.is_road_path(p, path) && b2.on_start_side(v, path[0])
            && b2.on_end_side(v, path.last());
        assert(b1.is_road_path(p, path));
    }
    assert(b1.road_between(p, true) == b2.road_between(p, true));
    assert(b1.road_between(p, false) == b2.road_between(p, false));
}

/// A standing stone is a wall, not part of a road: placing one on an empty
/// square neither makes nor breaks a road for either side.
pub proof fn lemma_standing_stone_makes_no_road(old: Board, new: Board, row: int, col: int, owner: Player, q: Player)
    requires
        old.wf(),
        old.in_bounds(row, col),
        old.cell(row, col).len() == 0,
        new.is_placed(old, row, col, Piece { player: owner, piece_type: PieceType::Standing }),
    ensures
        new.has_road(q) == old.has_road(q),
{
    assert forall|r: int, c: int| old.in_bounds(r, c) implies (#[trigger] old.road_square(r, c, q)) == new.road_square(r, c, q) by {
        if !(r == row && c == col) {
            assert(new.cell(r, c) == old.cell(r, c));
        } else {
            assert(new.cell(r, c) =~= seq![Piece { player: owner, piece_type: PieceType::Standing }]);
        }
    }
    lemma_same_road_squares(old, new, q);
}

/// A capstone counts for a road as a flat stone does: placing a capstone or
/// a flat stone of the same side on the same empty square gives both sides
/// the same roads.
pub proof fn lemma_capstone_counts_like_a_flat(old: Board, with_flat: Board, with_cap: Board, row: int, col: int, owner: Player, q: Player)
    requires
        old.wf(),
        old.in_bounds(row, col),
        with_flat.is_placed(old, row, col, Piece { player: owner, piece_type: PieceType::Flat }),
        with_cap.is_placed(old, row, col, Piece { player: owner, piece_type: PieceType::Capstone }),
    ensures
        with_flat.has_road(q) == with_cap.has_road(q),
{
    assert forall|r: int, c: int| with_flat.in_bounds(r, c) implies (#[trigger] with_flat.road_square(r, c, q))
        == with_cap.road_square(r, c, q) by {
        if !(r == row && c == col) {
            assert(with_flat.cell(r, c) == old.cell(r, c));
            assert(with_cap.cell(r, c) == old.cell(r, c));
        }
    }
    lemma_same_road_squares(with_flat, with_cap, q);
}

} // verus!
