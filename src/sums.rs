use vstd::prelude::*;

verus! {

/// Sum of `f(0) + ... + f(n - 1)`.
pub open spec fn sum(n: nat, f: spec_fn(int) -> int) -> int
    decreases n,
{
    if n == 0 {
        0
    } else {
        sum((n - 1) as nat, f) + f(n - 1)
    }
}

pub proof fn lemma_sum_ext(n: nat, f: spec_fn(int) -> int, g: spec_fn(int) -> int)
    requires
        forall|i: int| 0 <= i < n ==> #[trigger] f(i) == g(i),
    ensures
        sum(n, f) == sum(n, g),
    decreases n,
{
    if n > 0 {
        lemma_sum_ext((n - 1) as nat, f, g);
    }
}

pub proof fn lemma_sum_add(n: nat, f: spec_fn(int) -> int, g: spec_fn(int) -> int)
    ensures
        sum(n, |i: int| f(i) + g(i)) == sum(n, f) + sum(n, g),
    decreases n,
{
    if n > 0 {
        lemma_sum_add((n - 1) as nat, f, g);
    }
}

pub proof fn lemma_sum_scale(n: nat, c: int, f: spec_fn(int) -> int)
    ensures
        sum(n, |i: int| c * f(i)) == c * sum(n, f),
    decreases n,
{
    if n > 0 {
        lemma_sum_scale((n - 1) as nat, c, f);
        let s = sum((n - 1) as nat, f);
        let x = f(n - 1);
        assert(c * s + c * x == c * (s + x)) by (nonlinear_arith);
    }
}

pub proof fn lemma_sum_zero(n: nat, f: spec_fn(int) -> int)
    requires
        forall|i: int| 0 <= i < n ==> #[trigger] f(i) == 0,
    ensures
        sum(n, f) == 0,
    decreases n,
{
    if n > 0 {
        lemma_sum_zero((n - 1) as nat, f);
    }
}

/// A sum in which only the term at `j` can be nonzero equals that term.
pub proof fn lemma_sum_single(n: nat, j: int, f: spec_fn(int) -> int)
    requires
        0 <= j < n,
        forall|i: int| 0 <= i < n && i != j ==> #[trigger] f(i) == 0,
    ensures
        sum(n, f) == f(j),
    decreases n,
{
    if j == n - 1 {
        lemma_sum_zero((n - 1) as nat, f);
    } else {
        lemma_sum_single((n - 1) as nat, j, f);
    }
}

/// The order of a double sum can be exchanged.
pub proof fn lemma_sum_swap(n: nat, m: nat, f: spec_fn(int, int) -> int)
    ensures
        sum(n, |i: int| sum(m, |j: int| f(i, j))) == sum(m, |j: int| sum(n, |i: int| f(i, j))),
    decreases n,
{
    if n > 0 {
        let n1 = (n - 1) as nat;
        lemma_sum_swap(n1, m, f);
        let g = |j: int| sum(n1, |i: int| f(i, j));
        let h = |j: int| f(n1 as int, j);
        let col = |j: int| sum(n, |i: int| f(i, j));
        let row = |i: int| sum(m, |j: int| f(i, j));
        lemma_sum_add(m, g, h);
        assert forall|j: int| 0 <= j < m implies #[trigger] col(j) == g(j) + h(j) by {
            assert(sum(n, |i: int| f(i, j)) == sum(n1, |i: int| f(i, j)) + f(n1 as int, j));
        }
        lemma_sum_ext(m, col, |j: int| g(j) + h(j));
        assert(sum(n, row) == sum(n1, row) + row(n1 as int));
        assert(sum(m, col) == sum(m, g) + sum(m, h));
        lemma_sum_ext(m, h, |j: int| f(n1 as int, j));
        assert(row(n1 as int) == sum(m, h));
        assert(sum(n1, row) == sum(m, g));
        assert(sum(n, row) == sum(m, col));
    } else {
        lemma_sum_zero(m, |j: int| sum(n, |i: int| f(i, j)));
    }
}

} // verus!
