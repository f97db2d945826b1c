//! Finite sums over an index range, and the facts about them that the
//! conservation of agents rests on.
use vstd::prelude::*;

verus! {

/// `f(0) + f(1) + ... + f(n - 1)`.
pub open spec fn sum(n: int, f: spec_fn(int) -> int) -> int
    decreases n,
{
    if n <= 0 {
        0
    } else {
        sum(n - 1, f) + f(n - 1)
    }
}

/// Sums of functions that agree on the range are equal.
pub proof fn lemma_sum_ext(n: int, f: spec_fn(int) -> int, g: spec_fn(int) -> int)
    requires
        forall|i: int| 0 <= i < n ==> #[trigger] f(i) == g(i),
    ensures
        sum(n, f) == sum(n, g),
    decreases n,
{
    if n > 0 {
        lemma_sum_ext(n - 1, f, g);
    }
}

/// A sum of two functions is the sum of their sums.
pub proof fn lemma_sum_add(n: int, f: spec_fn(int) -> int, g: spec_fn(int) -> int)
    ensures
        sum(n, |i: int| f(i) + g(i)) == sum(n, f) + sum(n, g),
    decreases n,
{
    if n > 0 {
        lemma_sum_add(n - 1, f, g);
    }
}

/// A sum of non-negative terms is non-negative and bounds each of its terms.
pub proof fn lemma_sum_bounds_term(n: int, f: spec_fn(int) -> int, i: int)
    requires
        forall|j: int| 0 <= j < n ==> #[trigger] f(j) >= 0,
        0 <= i < n,
    ensures
        f(i) <= sum(n, f),
    decreases n,
{
    lemma_sum_nonneg(n - 1, f);
    if i < n - 1 {
        lemma_sum_bounds_term(n - 1, f, i);
    }
}

/// A sum of non-negative terms is non-negative.
pub proof fn lemma_sum_nonneg(n: int, f: spec_fn(int) -> int)
    requires
        forall|j: int| 0 <= j < n ==> #[trigger] f(j) >= 0,
    ensures
        sum(n, f) >= 0,
    decreases n,
{
    if n > 0 {
        lemma_sum_nonneg(n - 1, f);
    }
}

/// Changing one term by `d` changes the sum by `d`.
pub proof fn lemma_sum_bump(n: int, f: spec_fn(int) -> int, g: spec_fn(int) -> int, j: int, d: int)
    requires
        0 <= j < n,
        forall|i: int| 0 <= i < n && i != j ==> #[trigger] g(i) == f(i),
        g(j) == f(j) + d,
    ensures
        sum(n, g) == sum(n, f) + d,
    decreases n,
{
    if j < n - 1 {
        lemma_sum_bump(n - 1, f, g, j, d);
    } else {
        lemma_sum_ext(n - 1, f, g);
    }
}

/// A sum of zeros is zero.
pub proof fn lemma_sum_zero(n: int, f: spec_fn(int) -> int)
    requires
        forall|i: int| 0 <= i < n ==> #[trigger] f(i) == 0,
    ensures
        sum(n, f) == 0,
    decreases n,
{
    if n > 0 {
        lemma_sum_zero(n - 1, f);
    }
}

/// A sum over `a + b` terms splits into the first `a` and the next `b`.
pub proof fn lemma_sum_split(a: int, b: int, f: spec_fn(int) -> int)
    requires
        0 <= a,
        0 <= b,
    ensures
        sum(a + b, f) == sum(a, f) + sum(b, |x: int| f(a + x)),
    decreases b,
{
    if b > 0 {
        lemma_sum_split(a, b - 1, f);
    }
}

/// A sum over `rows * width` terms is the sum of its rows.
pub proof fn lemma_sum_rows(rows: int, width: int, f: spec_fn(int) -> int)
    requires
        0 <= rows,
        0 <= width,
    ensures
        sum(rows * width, f) == sum(rows, |y: int| sum(width, |x: int| f(y * width + x))),
    decreases rows,
{
    if rows > 0 {
        let r = rows - 1;
        let row = |y: int| sum(width, |x: int| f(y * width + x));
        lemma_sum_rows(r, width, f);
        assert(r * width + width == rows * width) by (nonlinear_arith)
            requires
                r == rows - 1,
        ;
        assert(r * width >= 0) by (nonlinear_arith)
            requires
                r >= 0,
                width >= 0,
        ;
        lemma_sum_split(r * width, width, f);
        lemma_sum_ext(width, |x: int| f(r * width + x), |x: int| f(r * width + x));
        assert(row(r) == sum(width, |x: int| f(r * width + x)));
        assert(sum(rows, row) == sum(r, row) + row(r));
        assert(sum(rows * width, f) == sum(r * width, f) + row(r));
    } else {
        assert(rows * width == 0) by (nonlinear_arith)
            requires
                rows == 0,
        ;
    }
}

/// Turning a ring of `n` terms by one step forward leaves the sum unchanged.
pub proof fn lemma_sum_rotate_forward(n: int, f: spec_fn(int) -> int)
    requires
        0 < n,
    ensures
        sum(n, |x: int| f(if x == n - 1 { 0 } else { x + 1 })) == sum(n, f),
{
    let g = |x: int| f(if x == n - 1 { 0 } else { x + 1 });
    lemma_sum_ext(n - 1, g, |x: int| f(1 + x));
    lemma_sum_split(1, n - 1, f);
    assert(sum(0, f) == 0);
    assert(sum(1, f) == f(0));
}

/// Turning a ring of `n` terms by one step back leaves the sum unchanged.
pub proof fn lemma_sum_rotate_back(n: int, f: spec_fn(int) -> int)
    requires
        0 < n,
    ensures
        sum(n, |x: int| f(if x == 0 { n - 1 } else { x - 1 })) == sum(n, f),
{
    let g = |x: int| f(if x == 0 { n - 1 } else { x - 1 });
    lemma_sum_split(1, n - 1, g);
    assert(sum(0, g) == 0);
    assert(sum(1, g) == f(n - 1));
    lemma_sum_ext(n - 1, |x: int| g(1 + x), f);
}

} // verus!
