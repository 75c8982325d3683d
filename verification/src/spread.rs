use vstd::prelude::*;
use crate::board::{Board, Direction};
use crate::game::Game;
use crate::piece::{PieceType, Player};
use crate::stack::seq_blocking;

verus! {

/// The square `i` steps from (`r`, `c`) in direction `d`.
pub open spec fn step_cell(r: int, c: int, d: Direction, i: int) -> (int, int) {
    match d {
        Direction::North => (r - i, c),
        Direction::South => (r + i, c),
        Direction::East => (r, c + i),
        Direction::West => (r, c - i),
    }
}

/// `cell` is one of the `m` squares after (`r`, `c`) in direction `d`.
pub open spec fn in_spread(r: int, c: int, d: Direction, m: int, cell: (int, int)) -> bool {
    match d {
        Direction::North => cell.1 == c && r - m <= cell.0 <= r - 1,
        Direction::South => cell.1 == c && r + 1 <= cell.0 <= r + m,
        Direction::East => cell.0 == r && c + 1 <= cell.1 <= c + m,
        Direction::West => cell.0 == r && c - m <= cell.1 <= c - 1,
    }
}

/// The first `k` drops added up.
pub open spec fn drops_sum(ds: Seq<usize>, k: int) -> int
    decreases k,
{
    if k <= 0 {
        0
    } else {
        drops_sum(ds, k - 1) + ds[k - 1]
    }
}

/// Every drop leaves at least one stone.
pub open spec fn drops_positive(ds: Seq<usize>) -> bool {
    forall|i: int| 0 <= i < ds.len() ==> #[trigger] ds[i] >= 1
}

/// Partial sums of positive drops grow with the number of drops.
pub proof fn lemma_drops_sum_grows(ds: Seq<usize>, i: int, j: int)
    requires
        drops_positive(ds),
        0 <= i <= j <= ds.len(),
    ensures
        drops_sum(ds, i) + (j - i) <= drops_sum(ds, j),
    decreases j - i,
{
    if i < j {
        lemma_drops_sum_grows(ds, i, j - 1);
        assert(ds[j - 1] >= 1);
    }
}

impl Board {
    /// Why carrying `count` stones from (`r`, `c`) in direction `d`, leaving
    /// `ds[0]` on the first square, `ds[1]` on the next and so on, is
    /// refused, or `None` when it is allowed.
    pub open spec fn spread_error(&self, r: int, c: int, d: Direction, count: int, ds: Seq<usize>) -> Option<Seq<char>> {
        let m = ds.len() as int;
        if m == 0 || !drops_positive(ds) || drops_sum(ds, m) != count {
            Some("Invalid drop counts"@)
        } else if !self.in_bounds(r, c) || !self.in_bounds(step_cell(r, c, d, m).0, step_cell(r, c, d, m).1) {
            Some("Position out of bounds"@)
        } else if self.cell(r, c).len() == 0 {
            Some("No stack to move"@)
        } else if exists|i: int| 1 <= i <= m && seq_blocking(#[trigger] self.cell(step_cell(r, c, d, i).0, step_cell(r, c, d, i).1)) {
            Some("Cannot move onto a blocking piece"@)
        } else if count > self.cell(r, c).len() {
            Some("Not enough pieces in stack to move"@)
        } else if count > self.size {
            Some("Cannot move more pieces than board size"@)
        } else {
            None
        }
    }

    /// `self` is `old` after the top `count` stones of (`r`, `c`) were
    /// carried in direction `d`, the bottom `ds[0]` of them left on the first
    /// square, the next `ds[1]` on the second, and so on; the hands are
    /// unchanged.
    pub open spec fn is_spread(&self, old: Board, r: int, c: int, d: Direction, count: int, ds: Seq<usize>) -> bool {
        let h = old.cell(r, c).len() as int;
        let carried = old.cell(r, c).subrange(h - count, h);
        let m = ds.len() as int;
        &&& self.size == old.size
        &&& self.wf()
        &&& self.cell(r, c) == old.cell(r, c).subrange(0, h - count)
        &&& forall|i: int| 1 <= i <= m ==> #[trigger] self.cell(step_cell(r, c, d, i).0, step_cell(r, c, d, i).1)
            == old.cell(step_cell(r, c, d, i).0, step_cell(r, c, d, i).1) + carried.subrange(drops_sum(ds, i - 1), drops_sum(ds, i))
        &&& forall|r2: int, c2: int| #![trigger self.cell(r2, c2)]
            old.in_bounds(r2, c2) && !(r2 == r && c2 == c) && !in_spread(r, c, d, m, (r2, c2))
                ==> self.cell(r2, c2) == old.cell(r2, c2)
        &&& self.white_pieces == old.white_pieces
        &&& self.black_pieces == old.black_pieces
        &&& self.white_caps == old.white_caps
        &&& self.black_caps == old.black_caps
    }
}

/// The square `i` steps from (`row`, `col`) in direction `d`.
fn step_square(row: usize, col: usize, d: Direction, i: usize) -> (s: (usize, usize))
    requires
        0 <= step_cell(row as int, col as int, d, i as int).0 <= usize::MAX,
        0 <= step_cell(row as int, col as int, d, i as int).1 <= usize::MAX,
    ensures
        s.0 as int == step_cell(row as int, col as int, d, i as int).0,
        s.1 as int == step_cell(row as int, col as int, d, i as int).1,
{
    match d {
        Direction::North => (row - i, col),
        Direction::South => (row + i, col),
        Direction::East => (row, col + i),
        Direction::West => (row, col - i),
    }
}

impl Board {
    /// Carries the top `count` stones of (`row`, `col`) in `direction`,
    /// leaving `drops[0]` of them (the bottom ones) on the first square,
    /// the next `drops[1]` on the second, and so on. On refusal the board is
    /// left as it was and the reason is returned.
    pub fn spread_stack(&mut self, row: usize, col: usize, direction: Direction, count: usize, drops: &Vec<usize>) -> (r: Result<(), &'static str>)
        requires
            old(self).wf(),
        ensures
            r is Ok <==> old(self).spread_error(row as int, col as int, direction, count as int, drops@) is None,
            r matches Err(m) ==> m@ == old(self).spread_error(row as int, col as int, direction, count as int, drops@)->0
                && *final(self) == *old(self),
            r is Ok ==> final(self).is_spread(*old(self), row as int, col as int, direction, count as int, drops@),
            r is Ok ==> forall|p: Player, k: PieceType| #[trigger] final(self).kind_total(p, k) == old(self).kind_total(p, k),
    {
        let ghost ds = drops@;
        let m = drops.len();
        if m == 0 {
            return Err("Invalid drop counts");
        }
        let mut total: usize = 0;
        let mut i: usize = 0;
        while i < m
            invariant
                m == ds.len(),
                ds == drops@,
                i <= m,
                total == drops_sum(ds, i as int),
                total <= count,
                forall|j: int| 0 <= j < i ==> #[trigger] ds[j] >= 1,
            decreases m - i,
        {
            if drops[i] == 0 || drops[i] > count - total {
                proof {
                    if drops_positive(ds) {
                        lemma_drops_sum_grows(ds, i + 1, m as int);
                    }
                }
                return Err("Invalid drop counts");
            }
            total = total + drops[i];
            i = i + 1;
        }
        if total != count {
            return Err("Invalid drop counts");
        }
        assert(drops_positive(ds));
        let n = self.size;
        if row >= n || col >= n {
            return Err("Position out of bounds");
        }
        let fits = match direction {
            Direction::North => m <= row,
            Direction::South => m < n - row,
            Direction::East => m < n - col,
            Direction::West => m <= col,
        };
        if !fits {
            return Err("Position out of bounds");
        }
        if self.spaces[row][col].is_empty() {
            return Err("No stack to move");
        }
        let mut k: usize = 1;
        while k <= m
            invariant
                self.wf(),
                *self == *old(self),
                n == self.size,
                m == ds.len(),
                ds == drops@,
                drops_positive(ds),
                drops_sum(ds, m as int) == count,
                self.cell(row as int, col as int).len() > 0,
                1 <= k <= m + 1,
                self.in_bounds(row as int, col as int),
                forall|j: int| 1 <= j <= m ==> self.in_bounds(#[trigger] step_cell(row as int, col as int, direction, j).0,
                    step_cell(row as int, col as int, direction, j).1),
                forall|j: int| 1 <= j < k ==> !seq_blocking(#[trigger] self.cell(step_cell(row as int, col as int, direction, j).0,
                    step_cell(row as int, col as int, direction, j).1)),
            decreases m + 1 - k,
        {
            let (tr, tc) = step_square(row, col, direction, k);
            if self.spaces[tr][tc].is_blocking() {
                assert(seq_blocking(self.cell(step_cell(row as int, col as int, direction, k as int).0,
                    step_cell(row as int, col as int, direction, k as int).1)));
                return Err("Cannot move onto a blocking piece");
            }
            k = k + 1;
        }
        let height = self.spaces[row][col].height();
        if count > height {
            return Err("Not enough pieces in stack to move");
        }
        if count > n {
            return Err("Cannot move more pieces than board size");
        }
        let ghost b0 = *self;
        let ghost h = height as int;
        let ghost carried = b0.cell(row as int, col as int).subrange(h - count, h);
        let (first_row, first_col) = step_square(row, col, direction, 1);
        let res = self.move_stack(row, col, first_row, first_col, count, direction);
        assert(res is Ok);
        assert(carried.subrange(drops_sum(ds, 0), count as int) =~= carried);
        let mut i: usize = 1;
        let mut settled: usize = 0;
        while i < m
            invariant
                self.wf(),
                b0.wf(),
                self.size == b0.size,
                n == b0.size,
                b0 == *old(self),
                m == ds.len(),
                ds == drops@,
                drops_positive(ds),
                drops_sum(ds, m as int) == count,
                count <= n,
                h == b0.cell(row as int, col as int).len(),
                count <= h,
                carried == b0.cell(row as int, col as int).subrange(h - count, h),
                1 <= i <= m,
                settled == drops_sum(ds, i - 1),
                self.white_pieces == b0.white_pieces,
                self.black_pieces == b0.black_pieces,
                self.white_caps == b0.white_caps,
                self.black_caps == b0.black_caps,
                forall|p: Player, k: PieceType| #[trigger] self.kind_total(p, k) == b0.kind_total(p, k),
                b0.in_bounds(row as int, col as int),
                forall|j: int| 1 <= j <= m ==> b0.in_bounds(#[trigger] step_cell(row as int, col as int, direction, j).0,
                    step_cell(row as int, col as int, direction, j).1),
                forall|j: int| 1 <= j <= m ==> !seq_blocking(#[trigger] b0.cell(step_cell(row as int, col as int, direction, j).0,
                    step_cell(row as int, col as int, direction, j).1)),
                self.cell(row as int, col as int) == b0.cell(row as int, col as int).subrange(0, h - count),
                forall|j: int| 1 <= j < i ==> #[trigger] self.cell(step_cell(row as int, col as int, direction, j).0,
                    step_cell(row as int, col as int, direction, j).1)
                    == b0.cell(step_cell(row as int, col as int, direction, j).0, step_cell(row as int, col as int, direction, j).1)
                    + carried.subrange(drops_sum(ds, j - 1), drops_sum(ds, j)),
                self.cell(step_cell(row as int, col as int, direction, i as int).0, step_cell(row as int, col as int, direction, i as int).1)
                    == b0.cell(step_cell(row as int, col as int, direction, i as int).0, step_cell(row as int, col as int, direction, i as int).1)
                    + carried.subrange(drops_sum(ds, i - 1), count as int),
                forall|r2: int, c2: int| #![trigger self.cell(r2, c2)]
                    b0.in_bounds(r2, c2) && !(r2 == row && c2 == col) && !in_spread(row as int, col as int, direction, i as int, (r2, c2))
                        ==> self.cell(r2, c2) == b0.cell(r2, c2),
            decreases m - i,
        {
            let ghost before = *self;
            proof {
                lemma_drops_sum_grows(ds, i as int, m as int);
                lemma_drops_sum_grows(ds, i - 1, i as int);
            }
            assert(b0.in_bounds(step_cell(row as int, col as int, direction, i as int).0,
                step_cell(row as int, col as int, direction, i as int).1));
            assert(b0.in_bounds(step_cell(row as int, col as int, direction, i + 1).0,
                step_cell(row as int, col as int, direction, i + 1).1));
            let (fr, fc) = step_square(row, col, direction, i);
            let (tr, tc) = step_square(row, col, direction, i + 1);
            let amount = count - settled - drops[i - 1];
            let ghost here = b0.cell(fr as int, fc as int);
            let ghost x = carried.subrange(drops_sum(ds, i - 1), count as int);
            assert(before.cell(fr as int, fc as int) == here + x);
            assert(!in_spread(row as int, col as int, direction, i as int, (tr as int, tc as int)));
            assert(before.cell(tr as int, tc as int) == b0.cell(tr as int, tc as int));
            let res = self.move_stack(fr, fc, tr, tc, amount, direction);
            assert(res is Ok);
            proof {
                let len = (here + x).len() as int;
                assert((here + x).subrange(0, len - amount) =~= here + carried.subrange(drops_sum(ds, i - 1), drops_sum(ds, i as int)));
                assert((here + x).subrange(len - amount, len) =~= carried.subrange(drops_sum(ds, i as int), count as int));
                assert forall|j: int| 1 <= j < i + 1 implies #[trigger] self.cell(step_cell(row as int, col as int, direction, j).0,
                    step_cell(row as int, col as int, direction, j).1)
                    == b0.cell(step_cell(row as int, col as int, direction, j).0, step_cell(row as int, col as int, direction, j).1)
                    + carried.subrange(drops_sum(ds, j - 1), drops_sum(ds, j)) by {
                    if j < i {
                        let cj = step_cell(row as int, col as int, direction, j);
                        assert(before.cell(cj.0, cj.1) == b0.cell(cj.0, cj.1) + carried.subrange(drops_sum(ds, j - 1), drops_sum(ds, j)));
                        assert(self.cell(cj.0, cj.1) == before.cell(cj.0, cj.1));
                    }
                }
                assert(self.cell(row as int, col as int) == before.cell(row as int, col as int));
                assert forall|r2: int, c2: int| #![trigger self.cell(r2, c2)]
                    b0.in_bounds(r2, c2) && !(r2 == row && c2 == col) && !in_spread(row as int, col as int, direction, i + 1, (r2, c2))
                    implies self.cell(r2, c2) == b0.cell(r2, c2) by {
                    assert(self.cell(r2, c2) == before.cell(r2, c2));
                }
            }
            settled = settled + drops[i - 1];
            i = i + 1;
        }
        proof {
            assert forall|j: int| 1 <= j <= m implies #[trigger] self.cell(step_cell(row as int, col as int, direction, j).0,
                step_cell(row as int, col as int, direction, j).1)
                == b0.cell(step_cell(row as int, col as int, direction, j).0, step_cell(row as int, col as int, direction, j).1)
                + carried.subrange(drops_sum(ds, j - 1), drops_sum(ds, j)) by {
                if j == m {
                    assert(drops_sum(ds, m as int) == count);
                }
            }
        }
        Ok(())
    }
}

impl Game {
    /// Carries the top `count` stones of (`row`, `col`) in `direction` for
    /// the side to move, dropping `drops[0]` on the first square, `drops[1]`
    /// on the next, and so on; then the turn passes as after any move. A
    /// refused spread leaves the game as it was and returns the reason.
    pub fn make_spread(&mut self, row: usize, col: usize, direction: Direction, count: usize, drops: &Vec<usize>) -> (r: Result<(), &'static str>)
        requires
            old(self).board.wf(),
            old(self).current_player == Player::Black ==> old(self).turn_number < usize::MAX,
        ensures
            r is Ok <==> old(self).board.spread_error(row as int, col as int, direction, count as int, drops@) is None,
            r matches Err(m) ==> m@ == old(self).board.spread_error(row as int, col as int, direction, count as int, drops@)->0
                && *final(self) == *old(self),
            r is Ok ==> final(self).board.is_spread(old(self).board, row as int, col as int, direction, count as int, drops@),
            r is Ok ==> forall|p: Player, k: PieceType| #[trigger] final(self).board.kind_total(p, k) == old(self).board.kind_total(p, k),
            r is Ok ==> final(self).turn_passed(*old(self)),
    {
        let mover = self.current_player;
        match self.board.spread_stack(row, col, direction, count, drops) {
            Err(m) => {
                return Err(m);
            },
            Ok(()) => {},
        }
        self.pass_turn(mover);
        Ok(())
    }
}

/// Carrying `count` stones in one drop to the next square is the same as
/// moving them there: it is refused exactly when the move is, with the
/// same reason, and when allowed it leaves the board as the move does.
pub proof fn lemma_single_drop_is_a_move(old: Board, new: Board, r: int, c: int, d: Direction, count: usize)
    requires
        old.wf(),
        count >= 1,
    ensures
        old.spread_error(r, c, d, count as int, seq![count])
            == old.move_error(r, c, step_cell(r, c, d, 1).0, step_cell(r, c, d, 1).1, count as int, d),
        old.spread_error(r, c, d, count as int, seq![count]) is None && new.is_spread(old, r, c, d, count as int, seq![count])
            ==> new.is_moved(old, r, c, step_cell(r, c, d, 1).0, step_cell(r, c, d, 1).1, count as int),
{
    let ds = seq![count];
    let t = step_cell(r, c, d, 1);
    assert(drops_sum(ds, 1) == count) by {
        assert(drops_sum(ds, 0) == 0);
    }
    assert(drops_positive(ds));
    assert(Board::direction_ok(r, c, t.0, t.1, d));
    let blocked = exists|i: int| 1 <= i <= 1 && seq_blocking(#[trigger] old.cell(step_cell(r, c, d, i).0, step_cell(r, c, d, i).1));
    if seq_blocking(old.cell(t.0, t.1)) {
        assert(blocked);
    }
    assert(blocked ==> seq_blocking(old.cell(t.0, t.1)));
    if old.spread_error(r, c, d, count as int, ds) is None && new.is_spread(old, r, c, d, count as int, ds) {
        let h = old.cell(r, c).len() as int;
        let carried = old.cell(r, c).subrange(h - count, h);
        assert(new.cell(t.0, t.1) == old.cell(t.0, t.1) + carried.subrange(drops_sum(ds, 0), drops_sum(ds, 1)));
        assert(carried.subrange(0, count as int) =~= carried);
        assert forall|r2: int, c2: int| #![trigger new.cell(r2, c2)]
            old.in_bounds(r2, c2) && !(r2 == r && c2 == c) && !(r2 == t.0 && c2 == t.1)
            implies new.cell(r2, c2) == old.cell(r2, c2) by {
            assert(!in_spread(r, c, d, 1, (r2, c2)));
        }
    }
}

} // verus!
