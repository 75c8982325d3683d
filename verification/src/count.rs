use vstd::prelude::*;

verus! {

/// `f(0) + f(1) + ... + f(n - 1)`.
pub open spec fn sum_range(f: spec_fn(int) -> int, n: int) -> int
    decreases n,
{
    if n <= 0 {
        0
    } else {
        sum_range(f, n - 1) + f(n - 1)
    }
}

/// The sum of `f(r, c)` over the `n` by `n` square.
pub open spec fn sum_square(f: spec_fn(int, int) -> int, n: int) -> int {
    sum_range(|r: int| sum_range(|c: int| f(r, c), n), n)
}

/// Sums of functions that agree on `0..n` are equal.
pub proof fn lemma_sum_range_same(f: spec_fn(int) -> int, g: spec_fn(int) -> int, n: int)
    requires
        forall|i: int| 0 <= i < n ==> #[trigger] f(i) == g(i),
    ensures
        sum_range(f, n) == sum_range(g, n),
    decreases n,
{
    if n > 0 {
        lemma_sum_range_same(f, g, n - 1);
    }
}

/// Changing one term changes the sum by the same amount.
pub proof fn lemma_sum_range_one(f: spec_fn(int) -> int, g: spec_fn(int) -> int, n: int, k: int)
    requires
        0 <= k < n,
        forall|i: int| 0 <= i < n && i != k ==> #[trigger] f(i) == g(i),
    ensures
        sum_range(g, n) - sum_range(f, n) == g(k) - f(k),
    decreases n,
{
    if k == n - 1 {
        lemma_sum_range_same(f, g, n - 1);
    } else {
        lemma_sum_range_one(f, g, n - 1, k);
    }
}

/// Changing one cell of the square changes its sum by the same amount.
pub proof fn lemma_sum_square_one(f: spec_fn(int, int) -> int, g: spec_fn(int, int) -> int, n: int, r0: int, c0: int)
    requires
        0 <= r0 < n,
        0 <= c0 < n,
        forall|r: int, c: int| 0 <= r < n && 0 <= c < n && !(r == r0 && c == c0) ==> #[trigger] f(r, c) == g(r, c),
    ensures
        sum_square(g, n) - sum_square(f, n) == g(r0, c0) - f(r0, c0),
{
    let rf = |r: int| sum_range(|c: int| f(r, c), n);
    let rg = |r: int| sum_range(|c: int| g(r, c), n);
    assert forall|r: int| 0 <= r < n && r != r0 implies #[trigger] rf(r) == rg(r) by {
        lemma_sum_range_same(|c: int| f(r, c), |c: int| g(r, c), n);
    }
    lemma_sum_range_one(|c: int| f(r0, c), |c: int| g(r0, c), n, c0);
    lemma_sum_range_one(rf, rg, n, r0);
}

/// Changing two cells of the square changes its sum by the two changes.
pub proof fn lemma_sum_square_two(
    f: spec_fn(int, int) -> int,
    g: spec_fn(int, int) -> int,
    n: int,
    r0: int,
    c0: int,
    r1: int,
    c1: int,
)
    requires
        0 <= r0 < n,
        0 <= c0 < n,
        0 <= r1 < n,
        0 <= c1 < n,
        !(r0 == r1 && c0 == c1),
        forall|r: int, c: int|
            0 <= r < n && 0 <= c < n && !(r == r0 && c == c0) && !(r == r1 && c == c1) ==> #[trigger] f(r, c) == g(r, c),
    ensures
        sum_square(g, n) - sum_square(f, n) == (g(r0, c0) - f(r0, c0)) + (g(r1, c1) - f(r1, c1)),
{
    let h = |r: int, c: int| if r == r0 && c == c0 { g(r, c) } else { f(r, c) };
    lemma_sum_square_one(f, h, n, r0, c0);
    lemma_sum_square_one(h, g, n, r1, c1);
}

/// A sum of zeros is zero.
pub proof fn lemma_sum_range_zero(f: spec_fn(int) -> int, n: int)
    requires
        forall|i: int| 0 <= i < n ==> #[trigger] f(i) == 0,
    ensures
        sum_range(f, n) == 0,
    decreases n,
{
    if n > 0 {
        lemma_sum_range_zero(f, n - 1);
    }
}

/// A square of zeros sums to zero.
pub proof fn lemma_sum_square_zero(f: spec_fn(int, int) -> int, n: int)
    requires
        forall|r: int, c: int| 0 <= r < n && 0 <= c < n ==> #[trigger] f(r, c) == 0,
    ensures
        sum_square(f, n) == 0,
{
    let rows = |r: int| sum_range(|c: int| f(r, c), n);
    assert forall|r: int| 0 <= r < n implies #[trigger] rows(r) == 0 by {
        lemma_sum_range_zero(|c: int| f(r, c), n);
    }
    lemma_sum_range_zero(rows, n);
}

/// A sum of `n` terms each between 0 and `k` lies between 0 and `n * k`.
pub proof fn lemma_sum_range_bounds(f: spec_fn(int) -> int, n: int, k: int)
    requires
        n >= 0,
        k >= 0,
        forall|i: int| 0 <= i < n ==> 0 <= #[trigger] f(i) <= k,
    ensures
        0 <= sum_range(f, n) <= n * k,
    decreases n,
{
    if n > 0 {
        lemma_sum_range_bounds(f, n - 1, k);
        assert((n - 1) * k + k == n * k) by (nonlinear_arith);
    }
}

/// A square of zeros and ones sums to at most its number of cells.
pub proof fn lemma_sum_square_at_most_cells(f: spec_fn(int, int) -> int, n: int)
    requires
        n >= 0,
        forall|r: int, c: int| 0 <= r < n && 0 <= c < n ==> 0 <= #[trigger] f(r, c) <= 1,
    ensures
        0 <= sum_square(f, n) <= n * n,
{
    let rows = |r: int| sum_range(|c: int| f(r, c), n);
    assert forall|r: int| 0 <= r < n implies 0 <= #[trigger] rows(r) <= n by {
        lemma_sum_range_bounds(|c: int| f(r, c), n, 1);
    }
    lemma_sum_range_bounds(rows, n, n);
}

} // verus!
