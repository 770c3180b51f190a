use vstd::prelude::*;

use crate::geometry::{dot, dot_fits, fits_i64, ints, zeros, Vector, Vector3D, Vector4D};
use crate::numeric::{abs, div_trunc, lemma_mul_abs_le, quotient};
use crate::sums::{lemma_sum_add, lemma_sum_ext, lemma_sum_scale, lemma_sum_single, lemma_sum_swap, lemma_sum_zero, sum};

verus! {

/// `m` has `r` rows of `c` entries each.
pub open spec fn is_grid(m: Seq<Seq<int>>, r: nat, c: nat) -> bool {
    &&& m.len() == r
    &&& forall|i: int| 0 <= i < r ==> (#[trigger] m[i]).len() == c
}

pub open spec fn column(m: Seq<Seq<int>>, j: int) -> Seq<int> {
    Seq::new(m.len(), |k: int| m[k][j])
}

/// The product of `a` and `b`, where `b` has `n` columns.
pub open spec fn mat_mul(a: Seq<Seq<int>>, b: Seq<Seq<int>>, n: nat) -> Seq<Seq<int>> {
    Seq::new(a.len(), |i: int| Seq::new(n, |j: int| dot(a[i], column(b, j))))
}

/// The product of the matrix `a` and the column vector `v`.
pub open spec fn mat_vec(a: Seq<Seq<int>>, v: Seq<int>) -> Seq<int> {
    Seq::new(a.len(), |i: int| dot(a[i], v))
}

pub open spec fn identity(n: nat) -> Seq<Seq<int>> {
    Seq::new(n, |i: int| Seq::new(n, |j: int| if i == j { 1int } else { 0int }))
}

/// The square matrix with `d` on its diagonal and zeros elsewhere.
pub open spec fn diag(d: Seq<int>) -> Seq<Seq<int>> {
    Seq::new(d.len(), |i: int| Seq::new(d.len(), |j: int| if i == j { d[i] } else { 0int }))
}

pub open spec fn zero_grid(r: nat, c: nat) -> Seq<Seq<int>> {
    Seq::new(r, |i: int| zeros(c))
}

/// The transpose of `a`, which has `c` columns.
pub open spec fn transpose(a: Seq<Seq<int>>, c: nat) -> Seq<Seq<int>> {
    Seq::new(c, |j: int| column(a, j))
}

/// The point `v` in homogeneous coordinates: a column with a final 1.
pub open spec fn homogeneous(v: Seq<int>) -> Seq<Seq<int>> {
    Seq::new(v.len() + 1, |i: int| if i < v.len() { seq![v[i]] } else { seq![1int] })
}

/// The perspective divide of a column: every row but the last divided by the last.
pub open spec fn dehomogenize(m: Seq<Seq<int>>) -> Seq<int> {
    Seq::new((m.len() - 1) as nat, |i: int| div_trunc(m[i][0], m[m.len() - 1][0]))
}

/// `p * x - f * y`, elementwise.
pub open spec fn row_combo(p: int, x: Seq<int>, f: int, y: Seq<int>) -> Seq<int> {
    Seq::new(x.len(), |k: int| p * x[k] - f * y[k])
}

/// A row `[l | r]` of the augmented matrix for `a` keeps `l == r * a`.
pub open spec fn tracks(row: Seq<int>, a: Seq<Seq<int>>, n: nat) -> bool {
    &&& row.len() == 2 * n
    &&& forall|j: int|
        0 <= j < n ==> #[trigger] row[j] == dot(row.subrange(n as int, 2 * n as int), column(a, j))
}

proof fn lemma_dot_combo(p: int, x: Seq<int>, f: int, y: Seq<int>, z: Seq<int>)
    requires
        x.len() == y.len(),
        x.len() == z.len(),
    ensures
        dot(row_combo(p, x, f, y), z) == p * dot(x, z) - f * dot(y, z),
{
    let n = x.len();
    let c = row_combo(p, x, f, y);
    let gx = |k: int| x[k] * z[k];
    let gy = |k: int| y[k] * z[k];
    lemma_sum_scale(n, p, gx);
    lemma_sum_scale(n, -f, gy);
    let fa = |k: int| p * gx(k);
    let fb = |k: int| -f * gy(k);
    lemma_sum_add(n, fa, fb);
    assert forall|k: int| 0 <= k < n implies #[trigger] (c[k] * z[k]) == fa(k) + fb(k) by {
        let (a, b, w) = (x[k], y[k], z[k]);
        assert((p * a - f * b) * w == p * (a * w) + -f * (b * w)) by (nonlinear_arith);
    }
    lemma_sum_ext(n, |k: int| c[k] * z[k], |k: int| fa(k) + fb(k));
    assert(dot(x, z) == sum(n, gx));
    assert(dot(y, z) == sum(n, gy));
    assert(dot(c, z) == sum(n, |k: int| c[k] * z[k]));
    let sy = sum(n, gy);
    assert(-f * sy == -(f * sy)) by (nonlinear_arith);
}

proof fn lemma_tracks_combo(p: int, x: Seq<int>, f: int, y: Seq<int>, a: Seq<Seq<int>>, n: nat)
    requires
        tracks(x, a, n),
        tracks(y, a, n),
        is_grid(a, n, n),
    ensures
        tracks(row_combo(p, x, f, y), a, n),
{
    let c = row_combo(p, x, f, y);
    let (xr, yr) = (x.subrange(n as int, 2 * n as int), y.subrange(n as int, 2 * n as int));
    assert(c.subrange(n as int, 2 * n as int) =~= row_combo(p, xr, f, yr));
    assert forall|j: int| 0 <= j < n implies #[trigger] c[j] == dot(
        c.subrange(n as int, 2 * n as int),
        column(a, j),
    ) by {
        lemma_dot_combo(p, xr, f, yr, column(a, j));
        assert(x[j] == dot(xr, column(a, j)));
        assert(y[j] == dot(yr, column(a, j)));
    }
}

/// The dot product with a zero sequence is zero.
proof fn lemma_dot_zero(x: Seq<int>, z: Seq<int>)
    requires
        forall|k: int| 0 <= k < x.len() ==> z[k] == 0,
    ensures
        dot(x, z) == 0,
{
    lemma_sum_zero(x.len(), |k: int| x[k] * z[k]);
}

/// `p * x - f * y` elementwise, or `None` where a value leaves `i64`.
fn combine_rows(p: i64, x: &Vec<i64>, f: i64, y: &Vec<i64>) -> (r: Option<Vec<i64>>)
    requires
        x@.len() == y@.len(),
    ensures
        r is Some ==> ints(r->0@) == row_combo(p as int, ints(x@), f as int, ints(y@)),
        (forall|k: int|
            0 <= k < x@.len() ==> fits_i64(p * #[trigger] x@[k]) && fits_i64(f * y@[k]) && fits_i64(
                p * x@[k] - f * y@[k],
            )) ==> r is Some,
{
    let mut out: Vec<i64> = Vec::new();
    let mut k: usize = 0;
    while k < x.len()
        invariant
            x@.len() == y@.len(),
            k <= x@.len(),
            out@.len() == k,
            forall|m: int| 0 <= m < k ==> out@[m] as int == p * x@[m] - f * y@[m],
        decreases x@.len() - k,
    {
        let a = match p.checked_mul(x[k]) {
            Some(v) => v,
            None => {
                assert(!fits_i64(p * x@[k as int]));
                return None;
            },
        };
        let b = match f.checked_mul(y[k]) {
            Some(v) => v,
            None => {
                assert(!fits_i64(f * y@[k as int]));
                return None;
            },
        };
        let d = match a.checked_sub(b) {
            Some(v) => v,
            None => {
                assert(!fits_i64(p * x@[k as int] - f * y@[k as int]));
                return None;
            },
        };
        out.push(d);
        k = k + 1;
    }
    assert(ints(out@) =~= row_combo(p as int, ints(x@), f as int, ints(y@)));
    Some(out)
}

fn magnitude(x: i64) -> (r: u64)
    ensures
        r as int == abs(x as int),
{
    if x >= 0 {
        x as u64
    } else {
        (-(x as i128)) as u64
    }
}

/// `v` is a nonzero solution of `a * v == 0`: the columns of `a` are
/// linearly dependent, so the square matrix `a` has no inverse.
pub open spec fn null_vector(a: Seq<Seq<int>>, n: nat, v: Seq<int>) -> bool {
    &&& v.len() == n
    &&& v != zeros(n)
    &&& mat_vec(a, v) == zeros(a.len())
}

/// Every row of `m` is orthogonal to `v`.
pub open spec fn kills(m: Seq<Seq<int>>, v: Seq<int>) -> bool {
    forall|k: int| 0 <= k < m.len() ==> #[trigger] dot(m[k], v) == 0
}

/// A bound on the entries after `k` elimination steps that start from
/// entries bounded by `b`: a step forms `p * x - f * y` from four entries.
pub open spec fn growth(b: int, k: nat) -> int
    decreases k,
{
    if k == 0 {
        b
    } else {
        2 * growth(b, (k - 1) as nat) * growth(b, (k - 1) as nat)
    }
}

/// `b` bounds every entry of the `n` by `n` matrix `a`, and elimination
/// started from entries bounded by `b` stays within `i64`.
pub open spec fn admissible(a: Seq<Seq<int>>, n: nat, b: int) -> bool {
    &&& b >= 1
    &&& growth(b, n) <= i64::MAX
    &&& forall|i: int, j: int| 0 <= i < n && 0 <= j < n ==> abs(#[trigger] a[i][j]) <= b
}

/// The left halves of the augmented rows.
pub open spec fn left_of(rows: Seq<Vec<i64>>, n: nat) -> Seq<Seq<int>> {
    Seq::new(rows.len(), |k: int| ints(rows[k]@).subrange(0, n as int))
}

pub open spec fn prod(d: Seq<int>, n: nat) -> int
    decreases n,
{
    if n == 0 {
        1
    } else {
        prod(d, (n - 1) as nat) * d[n - 1]
    }
}

/// The product of `d[0..n]` without the factor at `j`.
pub open spec fn prod_except(d: Seq<int>, n: nat, j: int) -> int
    decreases n,
{
    if n == 0 {
        1
    } else {
        prod_except(d, (n - 1) as nat, j) * (if j == n - 1 { 1 } else { d[n - 1] })
    }
}

proof fn lemma_prod(d: Seq<int>, n: nat, j: int)
    ensures
        j >= n ==> prod_except(d, n, j) == prod(d, n),
        0 <= j < n ==> d[j] * prod_except(d, n, j) == prod(d, n),
        (forall|k: int| 0 <= k < n ==> #[trigger] d[k] != 0) ==> prod(d, n) != 0,
    decreases n,
{
    if n > 0 {
        let m = (n - 1) as nat;
        lemma_prod(d, m, j);
        let (pe, pr, x) = (prod_except(d, m, j), prod(d, m), d[n - 1]);
        if 0 <= j < m {
            assert(d[j] * (pe * x) == (d[j] * pe) * x) by (nonlinear_arith);
        }
        if j == m {
            assert(d[j] * pe == pe * d[j]) by (nonlinear_arith);
        }
        if forall|k: int| 0 <= k < n ==> #[trigger] d[k] != 0 {
            assert(d[n - 1] != 0);
            assert(pr * x != 0) by (nonlinear_arith)
                requires pr != 0, x != 0;
        }
    }
}

proof fn lemma_growth(b: int, k: nat, n: nat)
    requires
        b >= 1,
        k <= n,
    ensures
        1 <= growth(b, k) <= growth(b, n),
        growth(b, k) * growth(b, k) <= growth(b, (k + 1) as nat),
        growth(b, k) <= growth(b, (k + 1) as nat),
    decreases n,
{
    if k < n {
        lemma_growth(b, k, (n - 1) as nat);
        let g = growth(b, (n - 1) as nat);
        assert(g <= 2 * g * g) by (nonlinear_arith)
            requires g >= 1;
    } else if n > 0 {
        lemma_growth(b, (n - 1) as nat, (n - 1) as nat);
    }
    let g = growth(b, k);
    assert(g * g <= 2 * g * g) by (nonlinear_arith);
    assert(g <= 2 * g * g) by (nonlinear_arith)
        requires g >= 1;
}

/// A sum whose terms vanish except at `i1` and `i2` is the sum of those two.
proof fn lemma_sum_two(n: nat, f: spec_fn(int) -> int, i1: int, i2: int)
    requires
        0 <= i1 < n,
        0 <= i2 < n,
        i1 != i2,
        forall|k: int| 0 <= k < n && k != i1 && k != i2 ==> #[trigger] f(k) == 0,
    ensures
        sum(n, f) == f(i1) + f(i2),
{
    let g = |k: int| if k == i1 { f(k) } else { 0 };
    let h = |k: int| if k == i1 { 0 } else { f(k) };
    lemma_sum_add(n, g, h);
    lemma_sum_ext(n, f, |k: int| g(k) + h(k));
    lemma_sum_single(n, i1, g);
    lemma_sum_single(n, i2, h);
}

/// Once a column of the left half has no pivot left, the left half, and so
/// `a`, has a null vector built from the diagonal found so far.
proof fn lemma_null_vector(l: Seq<Seq<int>>, a: Seq<Seq<int>>, n: nat, col: int)
    requires
        0 <= col < n,
        is_grid(l, n, n),
        forall|k: int, j: int| 0 <= k < n && 0 <= j < col && k != j ==> (#[trigger] l[k][j]) == 0,
        forall|j: int| 0 <= j < col ==> (#[trigger] l[j][j]) != 0,
        forall|k: int| col <= k < n ==> (#[trigger] l[k][col]) == 0,
        forall|v: Seq<int>| v.len() == n && #[trigger] kills(l, v) ==> kills(a, v),
        a.len() == n,
    ensures
        exists|v: Seq<int>| #[trigger] null_vector(a, n, v),
{
    let d = Seq::new(n, |j: int| l[j][j]);
    let pc = prod(d, col as nat);
    let v = Seq::new(
        n,
        |m: int| if m < col { l[m][col] * prod_except(d, col as nat, m) } else if m == col { -pc } else { 0 },
    );
    lemma_prod(d, col as nat, col);
    assert(pc != 0);
    assert forall|k: int| 0 <= k < n implies #[trigger] dot(l[k], v) == 0 by {
        let t = |m: int| l[k][m] * v[m];
        assert(dot(l[k], v) == sum(n, t));
        if k < col {
            lemma_prod(d, col as nat, k);
            assert forall|m: int| 0 <= m < n && m != k && m != col implies #[trigger] t(m) == 0 by {
                if m < col {
                    assert(l[k][m] == 0);
                }
            }
            lemma_sum_two(n, t, k, col);
            let (x, y, q) = (l[k][k], l[k][col], prod_except(d, col as nat, k));
            assert(x * (y * q) + y * (-(x * q)) == 0) by (nonlinear_arith);
        } else {
            assert forall|m: int| 0 <= m < n implies #[trigger] t(m) == 0 by {
                if m < col {
                    assert(l[k][m] == 0);
                }
            }
            lemma_sum_zero(n, t);
        }
    }
    assert(kills(l, v));
    assert(kills(a, v));
    assert(v[col] != 0);
    assert(v != zeros(n));
    assert(mat_vec(a, v) =~= zeros(a.len()));
    assert(null_vector(a, n, v));
}

/// Every entry of `r` lies within `g` of zero.
pub open spec fn within(r: Seq<i64>, g: int) -> bool {
    forall|j: int| 0 <= j < r.len() ==> abs(#[trigger] r[j] as int) <= g
}

proof fn lemma_kills_combo(rows: Seq<Vec<i64>>, i: int, col: int, row: Vec<i64>, p: int, f: int, n: nat)
    requires
        0 <= i < rows.len(),
        0 <= col < rows.len(),
        i != col,
        p != 0,
        rows[i]@.len() == 2 * n,
        rows[col]@.len() == 2 * n,
        ints(row@) == row_combo(p, ints(rows[i]@), f, ints(rows[col]@)),
    ensures
        forall|v: Seq<int>|
            v.len() == n && #[trigger] kills(left_of(rows.update(i, row), n), v) ==> kills(
                left_of(rows, n),
                v,
            ),
{
    let l = left_of(rows, n);
    let l2 = left_of(rows.update(i, row), n);
    assert forall|v: Seq<int>| v.len() == n && #[trigger] kills(l2, v) implies kills(l, v) by {
        assert(l2[col] == l[col]);
        assert(dot(l2[col], v) == 0);
        assert(l2[i] =~= row_combo(p, l[i], f, l[col]));
        lemma_dot_combo(p, l[i], f, l[col], v);
        assert(dot(l2[i], v) == 0);
        let t = dot(l[i], v);
        assert(t == 0) by (nonlinear_arith)
            requires p * t - f * 0 == 0, p != 0;
        assert forall|k: int| 0 <= k < l.len() implies #[trigger] dot(l[k], v) == 0 by {
            if k != i {
                assert(l2[k] == l[k]);
            }
        }
    }
}

proof fn lemma_kills_swap(rows: Seq<Vec<i64>>, i: int, j: int, n: nat)
    requires
        0 <= i < rows.len(),
        0 <= j < rows.len(),
    ensures
        forall|v: Seq<int>|
            #[trigger] kills(left_of(rows.update(i, rows[j]).update(j, rows[i]), n), v) ==> kills(
                left_of(rows, n),
                v,
            ),
{
    let l = left_of(rows, n);
    let sw = rows.update(i, rows[j]).update(j, rows[i]);
    let l2 = left_of(sw, n);
    assert forall|v: Seq<int>| #[trigger] kills(l2, v) implies kills(l, v) by {
        assert forall|k: int| 0 <= k < l.len() implies #[trigger] dot(l[k], v) == 0 by {
            if k == i {
                assert(l[k] == l2[j]);
            } else if k == j {
                assert(l[k] == l2[i]);
            } else {
                assert(l[k] == l2[k]);
            }
        }
    }
}

/// One elimination step from entries within `growth(b, k)` stays within
/// `growth(b, k + 1)`, and so within `i64`.
proof fn lemma_step_fits(
    x: Seq<i64>,
    y: Seq<i64>,
    p: i64,
    f: i64,
    b: int,
    k: nat,
    n: nat,
    i: int,
    col: int,
)
    requires
        b >= 1,
        k < n,
        growth(b, n) <= i64::MAX,
        x.len() == y.len(),
        within(x, growth(b, k)),
        within(y, growth(b, k)),
        abs(p as int) <= growth(b, k),
        abs(f as int) <= growth(b, k),
    ensures
        forall|j: int|
            0 <= j < x.len() ==> fits_i64(p * #[trigger] x[j]) && fits_i64(f * y[j]) && fits_i64(
                p * x[j] - f * y[j],
            ),
        forall|j: int|
            0 <= j < x.len() ==> abs(p * #[trigger] x[j] - f * y[j]) <= growth(b, (k + 1) as nat),
{
    lemma_growth(b, k, n);
    lemma_growth(b, (k + 1) as nat, n);
    let g = growth(b, k);
    assert(growth(b, (k + 1) as nat) == 2 * g * g);
    assert forall|j: int| 0 <= j < x.len() implies fits_i64(p * #[trigger] x[j]) && fits_i64(
        f * y[j],
    ) && fits_i64(p * x[j] - f * y[j]) && abs(p * x[j] - f * y[j]) <= growth(b, (k + 1) as nat) by {
        assert(abs(x[j] as int) <= g);
        assert(abs(y[j] as int) <= g);
        lemma_mul_abs_le(p as int, x[j] as int, g, g);
        lemma_mul_abs_le(f as int, y[j] as int, g, g);
        assert(g * g + g * g == 2 * g * g) by (nonlinear_arith);
    }
}

proof fn lemma_step_within(x: Seq<i64>, y: Seq<i64>, row: Seq<i64>, p: i64, f: i64, g: int)
    requires
        x.len() == y.len(),
        ints(row) == row_combo(p as int, ints(x), f as int, ints(y)),
        forall|j: int| 0 <= j < x.len() ==> abs(p * #[trigger] x[j] - f * y[j]) <= g,
    ensures
        within(row, g),
{
    assert(ints(row).len() == row.len());
    assert(ints(x).len() == x.len());
    assert forall|j: int| 0 <= j < row.len() implies abs(#[trigger] row[j] as int) <= g by {
        assert(ints(row)[j] == row_combo(p as int, ints(x), f as int, ints(y))[j]);
        assert(ints(row)[j] == row[j] as int);
        assert(ints(x)[j] == x[j] as int);
        assert(ints(y)[j] == y[j] as int);
        assert(row[j] as int == p * x[j] - f * y[j]);
        assert(abs(p * x[j] - f * y[j]) <= g);
    }
}

proof fn lemma_combo_clears(
    x: Seq<i64>,
    y: Seq<i64>,
    row: Seq<i64>,
    p: int,
    f: int,
    i: int,
    col: int,
)
    requires
        x.len() == y.len(),
        0 <= col < x.len(),
        ints(row) == row_combo(p, ints(x), f, ints(y)),
        forall|j: int| 0 <= j < col ==> y[j] == 0,
        forall|j: int| 0 <= j < col && j != i ==> x[j] == 0,
        x[col] == f,
        y[col] == p,
    ensures
        row[col] == 0,
        forall|j: int| 0 <= j < col ==> #[trigger] row[j] == (if i == j { p * x[j] } else { 0 }),
{
    assert(ints(row).len() == row.len());
    assert(ints(row)[col] == p * f - f * p);
    assert(p * f - f * p == 0) by (nonlinear_arith);
    assert forall|j: int| 0 <= j < col implies #[trigger] row[j] == (if i == j { p * x[j] } else { 0 }) by {
        assert(ints(row)[j] == p * x[j] - f * y[j]);
        assert(y[j] == 0);
        if i != j {
            assert(x[j] == 0);
        }
    }
}

/// A dense grid of `i64` entries with a fixed number of rows and columns.
pub struct Matrix {
    matrix: Vec<Vec<i64>>,
    rows: usize,
    cols: usize,
}

impl View for Matrix {
    type V = Seq<Seq<int>>;

    closed spec fn view(&self) -> Seq<Seq<int>> {
        Seq::new(self.matrix@.len(), |i: int| ints(self.matrix@[i]@))
    }
}

impl Matrix {
    pub closed spec fn wf(&self) -> bool {
        &&& self.matrix@.len() == self.rows
        &&& forall|i: int| 0 <= i < self.rows ==> (#[trigger] self.matrix@[i])@.len() == self.cols
    }

    /// A well-formed matrix's view is a grid of its dimensions whose entries
    /// are `i64` values.
    pub proof fn lemma_wf(&self)
        requires
            self.wf(),
        ensures
            is_grid(self@, self.rows_spec(), self.cols_spec()),
            forall|i: int, j: int|
                0 <= i < self.rows_spec() && 0 <= j < self.cols_spec() ==> fits_i64(
                    #[trigger] self@[i][j],
                ),
    {
    }

    pub closed spec fn rows_spec(&self) -> nat {
        self.rows as nat
    }

    pub closed spec fn cols_spec(&self) -> nat {
        self.cols as nat
    }

    /// The `rows` by `cols` matrix of zeros.
    pub fn new(rows: usize, cols: usize) -> (r: Matrix)
        ensures
            r.wf(),
            r.rows_spec() == rows,
            r.cols_spec() == cols,
            r@ == zero_grid(rows as nat, cols as nat),
    {
        let mut matrix: Vec<Vec<i64>> = Vec::new();
        let mut i: usize = 0;
        while i < rows
            invariant
                i <= rows,
                matrix@.len() == i,
                forall|k: int| 0 <= k < i ==> ints((#[trigger] matrix@[k])@) == zeros(cols as nat),
                forall|k: int| 0 <= k < i ==> (#[trigger] matrix@[k])@.len() == cols,
            decreases rows - i,
        {
            let z = Vector::zero(cols);
            proof {
                z.lemma_view();
            }
            matrix.push(z.vec);
            i = i + 1;
        }
        let r = Matrix { matrix, rows, cols };
        assert(r@ =~= zero_grid(rows as nat, cols as nat));
        r
    }

    pub fn nrows(&self) -> (r: usize)
        requires
            self.wf(),
        ensures
            r == self.rows_spec(),
    {
        self.matrix.len()
    }

    pub fn ncols(&self) -> (r: usize)
        ensures
            r == self.cols_spec(),
    {
        self.cols
    }

    /// The entry in row `i`, column `j`.
    pub fn get(&self, i: usize, j: usize) -> (r: i64)
        requires
            self.wf(),
            i < self.rows_spec(),
            j < self.cols_spec(),
        ensures
            r as int == self@[i as int][j as int],
    {
        self.matrix[i][j]
    }

    /// Replaces the entry in row `i`, column `j`.
    pub fn set(&mut self, i: usize, j: usize, value: i64)
        requires
            old(self).wf(),
            i < old(self).rows_spec(),
            j < old(self).cols_spec(),
        ensures
            final(self).wf(),
            final(self).rows_spec() == old(self).rows_spec(),
            final(self).cols_spec() == old(self).cols_spec(),
            final(self)@ == old(self)@.update(
                i as int,
                old(self)@[i as int].update(j as int, value as int),
            ),
    {
        let ghost before = self.matrix@;
        let mut row: Vec<i64> = Vec::new();
        self.matrix.set_and_swap(i, &mut row);
        assert(row@ == before[i as int]@);
        row.set(j, value);
        assert(ints(row@) =~= ints(before[i as int]@).update(j as int, value as int));
        self.matrix.set_and_swap(i, &mut row);
        assert(self.matrix@ == before.update(i as int, self.matrix@[i as int]));
        assert(self@ =~= old(self)@.update(
            i as int,
            old(self)@[i as int].update(j as int, value as int),
        ));
    }

    /// Row `i` as a vector.
    pub fn row(&self, i: usize) -> (r: Vector)
        requires
            self.wf(),
            i < self.rows_spec(),
        ensures
            r@ == self@[i as int],
    {
        Vector::new(self.matrix[i].clone())
    }

    /// Column `j` as a vector.
    pub fn col(&self, j: usize) -> (r: Vector)
        requires
            self.wf(),
            j < self.cols_spec(),
        ensures
            r@ == column(self@, j as int),
    {
        let mut vec: Vec<i64> = Vec::new();
        let mut i: usize = 0;
        while i < self.rows
            invariant
                self.wf(),
                j < self.cols,
                i <= self.rows,
                vec@.len() == i,
                forall|k: int| 0 <= k < i ==> vec@[k] as int == self@[k][j as int],
            decreases self.rows - i,
        {
            vec.push(self.matrix[i][j]);
            i = i + 1;
        }
        let r = Vector::new(vec);
        assert(r@ =~= column(self@, j as int));
        r
    }

    /// Replaces column `j` with `v`.
    pub fn set_col(&mut self, j: usize, v: &Vector)
        requires
            old(self).wf(),
            j < old(self).cols_spec(),
            v@.len() == old(self).rows_spec(),
        ensures
            final(self).wf(),
            final(self).rows_spec() == old(self).rows_spec(),
            final(self).cols_spec() == old(self).cols_spec(),
            final(self)@.len() == old(self)@.len(),
            forall|i: int|
                0 <= i < old(self)@.len() ==> (#[trigger] final(self)@[i]) == old(self)@[i].update(
                    j as int,
                    v@[i],
                ),
    {
        let mut i: usize = 0;
        while i < self.rows
            invariant
                self.wf(),
                self.rows == old(self).rows,
                self.cols == old(self).cols,
                j < self.cols,
                v@.len() == self.rows,
                i <= self.rows,
                self@.len() == old(self)@.len(),
                forall|k: int|
                    0 <= k < i ==> (#[trigger] self@[k]) == old(self)@[k].update(j as int, v@[k]),
                forall|k: int| i <= k < self.rows ==> (#[trigger] self@[k]) == old(self)@[k],
            decreases self.rows - i,
        {
            let x = v.index(i);
            self.set(i, j, x);
            i = i + 1;
        }
    }

    /// The transpose: row `j` of the result is column `j` of this matrix.
    pub fn trunspose(&self) -> (r: Matrix)
        requires
            self.wf(),
        ensures
            r.wf(),
            r.rows_spec() == self.cols_spec(),
            r.cols_spec() == self.rows_spec(),
            r@ == transpose(self@, self.cols_spec()),
    {
        let mut matrix: Vec<Vec<i64>> = Vec::new();
        let mut j: usize = 0;
        while j < self.cols
            invariant
                self.wf(),
                j <= self.cols,
                matrix@.len() == j,
                forall|k: int| 0 <= k < j ==> (#[trigger] matrix@[k])@.len() == self.rows,
                forall|k: int| 0 <= k < j ==> ints((#[trigger] matrix@[k])@) == column(self@, k),
            decreases self.cols - j,
        {
            let c = self.col(j);
            proof {
                c.lemma_view();
            }
            matrix.push(c.vec);
            j = j + 1;
        }
        let r = Matrix { matrix, rows: self.cols, cols: self.rows };
        assert(r@ =~= transpose(self@, self.cols_spec()));
        r
    }

    /// The `n` by `n` identity matrix.
    pub fn identity(n: usize) -> (r: Matrix)
        ensures
            r.wf(),
            r.rows_spec() == n,
            r.cols_spec() == n,
            r@ == identity(n as nat),
    {
        let mut m = Matrix::new(n, n);
        let mut i: usize = 0;
        while i < n
            invariant
                m.wf(),
                m.rows_spec() == n,
                m.cols_spec() == n,
                i <= n,
                m@.len() == n,
                forall|k: int| 0 <= k < n ==> (#[trigger] m@[k]).len() == n,
                forall|a: int, b: int|
                    0 <= a < n && 0 <= b < n ==> (#[trigger] m@[a][b]) == if a == b && a < i {
                        1int
                    } else {
                        0int
                    },
            decreases n - i,
        {
            m.set(i, i, 1);
            i = i + 1;
        }
        assert(m@ =~= identity(n as nat)) by {
            assert forall|a: int| 0 <= a < n implies #[trigger] m@[a] =~= identity(n as nat)[a] by {}
        }
        m
    }

    /// The matrix product; the inner dimensions must agree.
    pub fn mul(&self, other: &Matrix) -> (r: Matrix)
        requires
            self.wf(),
            other.wf(),
            self.cols_spec() == other.rows_spec(),
            forall|i: int, j: int|
                0 <= i < self.rows_spec() && 0 <= j < other.cols_spec() ==> dot_fits(
                    #[trigger] self@[i],
                    #[trigger] column(other@, j),
                ),
        ensures
            r.wf(),
            r.rows_spec() == self.rows_spec(),
            r.cols_spec() == other.cols_spec(),
            r@ == mat_mul(self@, other@, other.cols_spec()),
    {
        let mut cols: Vec<Vector> = Vec::new();
        let mut j: usize = 0;
        while j < other.cols
            invariant
                other.wf(),
                j <= other.cols,
                cols@.len() == j,
                forall|k: int| 0 <= k < j ==> (#[trigger] cols@[k])@ == column(other@, k),
            decreases other.cols - j,
        {
            cols.push(other.col(j));
            j = j + 1;
        }
        let mut matrix: Vec<Vec<i64>> = Vec::new();
        let mut i: usize = 0;
        while i < self.rows
            invariant
                self.wf(),
                other.wf(),
                self.cols == other.rows,
                forall|i: int, j: int|
                    0 <= i < self.rows_spec() && 0 <= j < other.cols_spec() ==> dot_fits(
                        #[trigger] self@[i],
                        #[trigger] column(other@, j),
                    ),
                cols@.len() == other.cols,
                forall|k: int| 0 <= k < other.cols ==> (#[trigger] cols@[k])@ == column(other@, k),
                i <= self.rows,
                matrix@.len() == i,
                forall|k: int| 0 <= k < i ==> (#[trigger] matrix@[k])@.len() == other.cols,
                forall|k: int|
                    0 <= k < i ==> ints((#[trigger] matrix@[k])@) == mat_mul(
                        self@,
                        other@,
                        other.cols_spec(),
                    )[k],
            decreases self.rows - i,
        {
            let a = self.row(i);
            let mut row: Vec<i64> = Vec::new();
            let mut j: usize = 0;
            while j < other.cols
                invariant
                    self.wf(),
                    other.wf(),
                    self.cols == other.rows,
                    i < self.rows,
                    a@ == self@[i as int],
                    forall|i: int, j: int|
                        0 <= i < self.rows_spec() && 0 <= j < other.cols_spec() ==> dot_fits(
                            #[trigger] self@[i],
                            #[trigger] column(other@, j),
                        ),
                    cols@.len() == other.cols,
                    forall|k: int|
                        0 <= k < other.cols ==> (#[trigger] cols@[k])@ == column(other@, k),
                    j <= other.cols,
                    row@.len() == j,
                    forall|k: int|
                        0 <= k < j ==> row@[k] as int == dot(self@[i as int], column(other@, k)),
                decreases other.cols - j,
            {
                assert(dot_fits(self@[i as int], column(other@, j as int)));
                let x = a.dot(&cols[j]);
                row.push(x);
                j = j + 1;
            }
            assert(ints(row@) =~= mat_mul(self@, other@, other.cols_spec())[i as int]);
            matrix.push(row);
            i = i + 1;
        }
        let r = Matrix { matrix, rows: self.rows, cols: other.cols };
        assert(r@ =~= mat_mul(self@, other@, other.cols_spec()));
        r
    }

    /// The matrix product, or `None` when an entry's computation leaves `i64`.
    pub fn checked_mul(&self, other: &Matrix) -> (r: Option<Matrix>)
        requires
            self.wf(),
            other.wf(),
            self.cols_spec() == other.rows_spec(),
        ensures
            r is Some <==> forall|i: int, j: int|
                0 <= i < self.rows_spec() && 0 <= j < other.cols_spec() ==> dot_fits(
                    #[trigger] self@[i],
                    #[trigger] column(other@, j),
                ),
            r is Some ==> {
                let m = r->0;
                &&& m.wf()
                &&& m.rows_spec() == self.rows_spec()
                &&& m.cols_spec() == other.cols_spec()
                &&& m@ == mat_mul(self@, other@, other.cols_spec())
            },
    {
        let mut i: usize = 0;
        while i < self.rows
            invariant
                self.wf(),
                other.wf(),
                self.cols == other.rows,
                i <= self.rows,
                forall|a: int, j: int|
                    0 <= a < i && 0 <= j < other.cols_spec() ==> dot_fits(
                        #[trigger] self@[a],
                        #[trigger] column(other@, j),
                    ),
            decreases self.rows - i,
        {
            let a = self.row(i);
            let mut j: usize = 0;
            while j < other.cols
                invariant
                    self.wf(),
                    other.wf(),
                    self.cols == other.rows,
                    i < self.rows,
                    a@ == self@[i as int],
                    j <= other.cols,
                    forall|a: int, j: int|
                        0 <= a < i && 0 <= j < other.cols_spec() ==> dot_fits(
                            #[trigger] self@[a],
                            #[trigger] column(other@, j),
                        ),
                    forall|k: int| 0 <= k < j ==> dot_fits(self@[i as int], #[trigger] column(other@, k)),
                decreases other.cols - j,
            {
                let c = other.col(j);
                if a.checked_dot(&c).is_none() {
                    return None;
                }
                j = j + 1;
            }
            i = i + 1;
        }
        Some(self.mul(other))
    }

    /// The product of this matrix and the column vector `v`.
    pub fn mul_vec(&self, v: &Vector) -> (r: Vector)
        requires
            self.wf(),
            v@.len() == self.cols_spec(),
            forall|i: int| 0 <= i < self.rows_spec() ==> dot_fits(#[trigger] self@[i], v@),
        ensures
            r@ == mat_vec(self@, v@),
    {
        let mut vec: Vec<i64> = Vec::new();
        let mut i: usize = 0;
        while i < self.rows
            invariant
                self.wf(),
                v@.len() == self.cols,
                forall|i: int| 0 <= i < self.rows_spec() ==> dot_fits(#[trigger] self@[i], v@),
                i <= self.rows,
                vec@.len() == i,
                forall|k: int| 0 <= k < i ==> vec@[k] as int == dot(self@[k], v@),
            decreases self.rows - i,
        {
            let a = self.row(i);
            vec.push(a.dot(v));
            i = i + 1;
        }
        let r = Vector::new(vec);
        assert(r@ =~= mat_vec(self@, v@));
        r
    }

    /// The inverse, scaled by columns: `(m, d)` with `self * m == diag(d)` and
    /// every `d[i]` nonzero, so `self`'s inverse is `m` with column `i` divided
    /// by `d[i]`. It is the transpose of the left inverse of the transpose.
    /// `None` only when `v * self == 0` for some nonzero `v` (the matrix is
    /// singular; a zero row is one case), or when no entry bound `b` has
    /// `growth(b, n)` within `i64`, as for `left_inverse`.
    pub fn inverse(&self) -> (r: Option<(Matrix, Vector)>)
        requires
            self.wf(),
            self.rows_spec() == self.cols_spec(),
            self.rows_spec() <= usize::MAX / 2,
        ensures
            r is Some ==> {
                let (m, d) = r->0;
                &&& m.wf()
                &&& m.rows_spec() == self.rows_spec()
                &&& m.cols_spec() == self.rows_spec()
                &&& d@.len() == self.rows_spec()
                &&& forall|i: int| 0 <= i < d@.len() ==> #[trigger] d@[i] != 0
                &&& mat_mul(self@, m@, self.rows_spec()) == diag(d@)
            },
            forall|i: int|
                0 <= i < self.rows_spec() && #[trigger] self@[i] == zeros(self.rows_spec()) ==> r is None,
            r is None ==> (exists|v: Seq<int>|
                #[trigger] null_vector(transpose(self@, self.rows_spec()), self.rows_spec(), v)) || !(
            exists|b: int| #[trigger] admissible(self@, self.rows_spec(), b)),
    {
        let t = self.trunspose();
        let ghost n = self.rows_spec();
        proof {
            assert forall|i: int| 0 <= i < n && #[trigger] self@[i] == zeros(n) implies column(
                t@,
                i,
            ) == zeros(n) by {
                assert(column(t@, i) =~= zeros(n));
            }
        }
        proof {
            assert forall|b: int| #[trigger] admissible(self@, n, b) implies admissible(t@, n, b) by {
                assert forall|i: int, j: int| 0 <= i < n && 0 <= j < n implies abs(
                    #[trigger] t@[i][j],
                ) <= b by {
                    assert(t@[i][j] == self@[j][i]);
                }
            }
        }
        match t.left_inverse() {
            None => None,
            Some((l, d)) => {
                let m = l.trunspose();
                proof {
                    lemma_transpose_product(self@, l@, d@, n);
                }
                Some((m, d))
            },
        }
    }

    /// Gauss-Jordan elimination with partial pivoting on `[self | I]`, kept in
    /// integers: rows are combined as `p * row - f * pivot_row` instead of
    /// being divided. The result `(m, d)` has `m * self == diag(d)` with every
    /// `d[i]` nonzero, so `self`'s inverse is `m` with row `i` divided by
    /// `d[i]`. `None` only when a pivot column holds only zeros, and then
    /// `self * v == 0` for some nonzero `v` (the matrix is singular), or when
    /// no entry bound `b` has `growth(b, n)` within `i64` (so an intermediate
    /// value may not fit): entries up to 8 in magnitude always fit for a
    /// 4 by 4 matrix, up to 128 for a 3 by 3 one.
    pub fn left_inverse(&self) -> (r: Option<(Matrix, Vector)>)
        requires
            self.wf(),
            self.rows_spec() == self.cols_spec(),
            self.rows_spec() <= usize::MAX / 2,
        ensures
            r is Some ==> {
                let (m, d) = r->0;
                &&& m.wf()
                &&& m.rows_spec() == self.rows_spec()
                &&& m.cols_spec() == self.rows_spec()
                &&& d@.len() == self.rows_spec()
                &&& forall|i: int| 0 <= i < d@.len() ==> #[trigger] d@[i] != 0
                &&& mat_mul(m@, self@, self.rows_spec()) == diag(d@)
            },
            forall|c: int|
                0 <= c < self.rows_spec() && #[trigger] column(self@, c) == zeros(self.rows_spec())
                    ==> r is None,
            r is None ==> (exists|v: Seq<int>| #[trigger] null_vector(self@, self.rows_spec(), v))
                || !(exists|b: int| #[trigger] admissible(self@, self.rows_spec(), b)),
    {
        let n = self.rows;
        let ghost a = self@;
        let ghost nn = n as nat;
        // The augmented matrix [self | identity].
        let mut aug: Vec<Vec<i64>> = Vec::new();
        let mut i: usize = 0;
        while i < n
            invariant
                self.wf(),
                n == self.rows,
                n == self.cols,
                n <= usize::MAX / 2,
                a == self@,
                nn == n,
                i <= n,
                aug@.len() == i,
                forall|k: int| 0 <= k < i ==> tracks(ints((#[trigger] aug@[k])@), a, nn),
                forall|k: int| 0 <= k < i ==> #[trigger] ints(aug@[k]@).subrange(0, nn as int) == a[k],
                forall|b: int|
                    #[trigger] admissible(a, nn, b) ==> forall|k: int|
                        0 <= k < i ==> #[trigger] within(aug@[k]@, b),
            decreases n - i,
        {
            let mut row = self.matrix[i].clone();
            let mut j: usize = 0;
            while j < n
                invariant
                    self.wf(),
                    n == self.rows,
                    n == self.cols,
                    n <= usize::MAX / 2,
                    i < n,
                    j <= n,
                    row@.len() == n + j,
                    forall|k: int| 0 <= k < n ==> row@[k] == self.matrix@[i as int]@[k],
                    forall|k: int|
                        n <= k < n + j ==> #[trigger] row@[k] == (if k == n + i { 1i64 } else { 0i64 }),
                decreases n - j,
            {
                row.push(if j == i { 1 } else { 0 });
                j = j + 1;
            }
            proof {
                let rv = ints(row@);
                let e = rv.subrange(n as int, 2 * n as int);
                assert forall|k: int| 0 <= k < n && k != i implies e[k] == 0 by {
                    assert(row@[n + k] == 0);
                }
                assert forall|c: int| 0 <= c < n implies #[trigger] rv[c] == dot(e, column(a, c)) by {
                    lemma_sum_single(nn, i as int, |k: int| e[k] * column(a, c)[k]);
                }
                assert(rv.subrange(0, nn as int) =~= a[i as int]);
                assert forall|b: int| #[trigger] admissible(a, nn, b) implies within(row@, b) by {
                    assert forall|j: int| 0 <= j < row@.len() implies abs(#[trigger] row@[j] as int) <= b by {
                        if j < n {
                            assert(a[i as int][j] == row@[j]);
                        }
                    }
                }
            }
            aug.push(row);
            i = i + 1;
        }
        assert(left_of(aug@, nn) =~= a) by {
            assert forall|k: int| 0 <= k < n implies #[trigger] left_of(aug@, nn)[k] == a[k] by {
                assert(ints(aug@[k]@).subrange(0, nn as int) == a[k]);
            }
        }
        let mut col: usize = 0;
        while col < n
            invariant
                self.wf(),
                n == self.rows,
                n == self.cols,
                a == self@,
                nn == n,
                is_grid(a, nn, nn),
                col <= n,
                n <= usize::MAX / 2,
                aug@.len() == n,
                forall|k: int| 0 <= k < n ==> (#[trigger] aug@[k])@.len() == 2 * n,
                forall|k: int| 0 <= k < n ==> tracks(ints((#[trigger] aug@[k])@), a, nn),
                forall|k: int, j: int|
                    0 <= k < n && 0 <= j < col && k != j ==> (#[trigger] aug@[k]@[j]) == 0,
                forall|j: int| 0 <= j < col ==> (#[trigger] aug@[j]@[j]) != 0,
                forall|v: Seq<int>|
                    v.len() == nn && #[trigger] kills(left_of(aug@, nn), v) ==> kills(a, v),
                forall|b: int|
                    #[trigger] admissible(a, nn, b) ==> forall|k: int|
                        0 <= k < n ==> #[trigger] within(aug@[k]@, growth(b, col as nat)),
            decreases n - col,
        {
            // Choose the row at or below `col` with the largest entry in column `col`.
            let mut pivot_row: usize = col;
            let mut best: u64 = magnitude(aug[col][col]);
            let mut k: usize = col + 1;
            while k < n
                invariant
                    aug@.len() == n,
                    forall|k: int| 0 <= k < n ==> (#[trigger] aug@[k])@.len() == 2 * n,
                    forall|k: int| 0 <= k < n ==> tracks(ints((#[trigger] aug@[k])@), a, nn),
                    col < n,
                    col < k <= n,
                    col <= pivot_row < n,
                    best as int == abs(aug@[pivot_row as int]@[col as int] as int),
                    forall|q: int| col <= q < k ==> abs(#[trigger] aug@[q]@[col as int] as int) <= best,
                decreases n - k,
            {
                assert(ints(aug@[k as int]@).len() == 2 * nn);
                let m = magnitude(aug[k][col]);
                if m > best {
                    pivot_row = k;
                    best = m;
                }
                k = k + 1;
            }
            if best == 0 {
                proof {
                    let l = left_of(aug@, nn);
                    assert forall|q: int, j: int| 0 <= q < n && 0 <= j < n implies #[trigger] l[q][j]
                        == aug@[q]@[j] by {
                        assert(ints(aug@[q]@).len() == 2 * nn);
                    }
                    assert forall|q: int| 0 <= q < n implies (#[trigger] l[q]).len() == nn by {
                        assert(ints(aug@[q]@).len() == 2 * nn);
                    }
                    assert forall|q: int| col <= q < n implies (#[trigger] l[q][col as int]) == 0 by {
                        assert(l[q][col as int] == aug@[q]@[col as int]);
                    }
                    lemma_null_vector(l, a, nn, col as int);
                }
                return None;
            }
            assert(ints(aug@[col as int]@).len() == 2 * nn);
            assert(ints(aug@[pivot_row as int]@).len() == 2 * nn);
            if pivot_row != col {
                let ghost before = aug@;
                let mut tmp: Vec<i64> = Vec::new();
                aug.set_and_swap(col, &mut tmp);
                aug.set_and_swap(pivot_row, &mut tmp);
                aug.set_and_swap(col, &mut tmp);
                proof {
                    let sw = before.update(col as int, before[pivot_row as int]).update(
                        pivot_row as int,
                        before[col as int],
                    );
                    assert(aug@ =~= sw);
                    lemma_kills_swap(before, col as int, pivot_row as int, nn);
                    assert forall|b: int| #[trigger] admissible(a, nn, b) implies forall|k: int|
                        0 <= k < n ==> #[trigger] within(aug@[k]@, growth(b, col as nat)) by {
                        assert forall|k: int| 0 <= k < n implies #[trigger] within(
                            aug@[k]@,
                            growth(b, col as nat),
                        ) by {
                            if k == col {
                                assert(within(before[pivot_row as int]@, growth(b, col as nat)));
                            } else if k == pivot_row {
                                assert(within(before[col as int]@, growth(b, col as nat)));
                            } else {
                                assert(within(before[k]@, growth(b, col as nat)));
                            }
                        }
                    }
                }
            }
            let p = aug[col][col];
            proof {
                assert forall|b: int| #[trigger] admissible(a, nn, b) implies forall|k: int|
                    0 <= k < n ==> #[trigger] within(aug@[k]@, growth(b, (col + 1) as nat)) by {
                    lemma_growth(b, col as nat, nn);
                    assert forall|k: int| 0 <= k < n implies #[trigger] within(
                        aug@[k]@,
                        growth(b, (col + 1) as nat),
                    ) by {
                        assert(within(aug@[k]@, growth(b, col as nat)));
                    }
                }
            }
            let mut i: usize = 0;
            while i < n
                invariant
                    self.wf(),
                    a == self@,
                    nn == n,
                    is_grid(a, nn, nn),
                    col < n,
                    i <= n,
                    n <= usize::MAX / 2,
                    aug@.len() == n,
                    forall|k: int| 0 <= k < n ==> (#[trigger] aug@[k])@.len() == 2 * n,
                    p != 0,
                    aug@[col as int]@[col as int] == p,
                    forall|k: int| 0 <= k < n ==> tracks(ints((#[trigger] aug@[k])@), a, nn),
                    forall|k: int, j: int|
                        0 <= k < n && 0 <= j < col && k != j ==> (#[trigger] aug@[k]@[j]) == 0,
                    forall|j: int| 0 <= j < col ==> (#[trigger] aug@[j]@[j]) != 0,
                    forall|k: int| 0 <= k < i && k != col ==> (#[trigger] aug@[k]@[col as int]) == 0,
                    forall|v: Seq<int>|
                        v.len() == nn && #[trigger] kills(left_of(aug@, nn), v) ==> kills(a, v),
                    forall|b: int|
                        #[trigger] admissible(a, nn, b) ==> forall|k: int|
                            0 <= k < n ==> #[trigger] within(aug@[k]@, growth(b, (col + 1) as nat)),
                    forall|b: int|
                        #[trigger] admissible(a, nn, b) ==> forall|k: int|
                            (i <= k < n || k == col) ==> #[trigger] within(aug@[k]@, growth(b, col as nat)),
                decreases n - i,
            {
                if i != col {
                    let f = aug[i][col];
                    if f != 0 {
                        assert(ints(aug@[i as int]@).len() == 2 * nn);
                        assert(ints(aug@[col as int]@).len() == 2 * nn);
                        let combined = combine_rows(p, &aug[i], f, &aug[col]);
                        match combined {
                            None => {
                                proof {
                                    if exists|b: int| #[trigger] admissible(a, nn, b) {
                                        let b = choose|b: int| #[trigger] admissible(a, nn, b);
                                        assert(within(aug@[col as int]@, growth(b, col as nat)));
                                        assert(within(aug@[i as int]@, growth(b, col as nat)));
                                        assert(abs(aug@[col as int]@[col as int] as int) <= growth(b, col as nat));
                                        assert(abs(aug@[i as int]@[col as int] as int) <= growth(b, col as nat));
                                        lemma_step_fits(aug@[i as int]@, aug@[col as int]@, p, f, b, col as nat, nn, i as int, col as int);
                                    }
                                }
                                return None;
                            },
                            Some(row) => {
                                let ghost old_aug = aug@;
                                proof {
                                    lemma_tracks_combo(
                                        p as int,
                                        ints(old_aug[i as int]@),
                                        f as int,
                                        ints(old_aug[col as int]@),
                                        a,
                                        nn,
                                    );
                                    let x = old_aug[i as int]@;
                                    let y = old_aug[col as int]@;
                                    assert forall|j: int| 0 <= j < col implies y[j] == 0 by {
                                        assert(old_aug[col as int]@[j] == 0);
                                    }
                                    assert forall|j: int| 0 <= j < col && j != i implies x[j] == 0 by {
                                        assert(old_aug[i as int]@[j] == 0);
                                    }
                                    lemma_combo_clears(x, y, row@, p as int, f as int, i as int, col as int);
                                    if (i as int) < (col as int) {
                                        let xi = x[i as int] as int;
                                        assert(xi != 0);
                                        assert(p * xi != 0) by (nonlinear_arith)
                                            requires p != 0, xi != 0;
                                    }
                                }
                                proof {
                                    lemma_kills_combo(old_aug, i as int, col as int, row, p as int, f as int, nn);
                                    assert forall|b: int| #[trigger] admissible(a, nn, b) implies within(
                                        row@,
                                        growth(b, (col + 1) as nat),
                                    ) by {
                                        assert(within(old_aug[col as int]@, growth(b, col as nat)));
                                        assert(within(old_aug[i as int]@, growth(b, col as nat)));
                                        assert(abs(old_aug[col as int]@[col as int] as int) <= growth(b, col as nat));
                                        assert(abs(old_aug[i as int]@[col as int] as int) <= growth(b, col as nat));
                                        lemma_step_fits(old_aug[i as int]@, old_aug[col as int]@, p, f, b, col as nat, nn, i as int, col as int);
                                        lemma_step_within(old_aug[i as int]@, old_aug[col as int]@, row@, p, f, growth(b, (col + 1) as nat));
                                    }
                                }
                                aug.set(i, row);
                            },
                        }
                    }
                }
                i = i + 1;
            }
            let ghost c1 = (col + 1) as nat;
            col = col + 1;
            proof {
                assert(col as nat == c1);
            }
        }
        // Split off the right half and the diagonal.
        let mut matrix: Vec<Vec<i64>> = Vec::new();
        let mut d: Vec<i64> = Vec::new();
        let mut i: usize = 0;
        while i < n
            invariant
                a == self@,
                nn == n,
                is_grid(a, nn, nn),
                n <= usize::MAX / 2,
                aug@.len() == n,
                forall|k: int| 0 <= k < n ==> (#[trigger] aug@[k])@.len() == 2 * n,
                forall|k: int| 0 <= k < n ==> tracks(ints((#[trigger] aug@[k])@), a, nn),
                forall|k: int, j: int|
                    0 <= k < n && 0 <= j < n && k != j ==> (#[trigger] aug@[k]@[j]) == 0,
                forall|j: int| 0 <= j < n ==> (#[trigger] aug@[j]@[j]) != 0,
                i <= n,
                matrix@.len() == i,
                d@.len() == i,
                forall|k: int| 0 <= k < i ==> (#[trigger] matrix@[k])@.len() == n,
                forall|k: int|
                    0 <= k < i ==> ints((#[trigger] matrix@[k])@) == ints(aug@[k]@).subrange(
                        n as int,
                        2 * n as int,
                    ),
                forall|k: int| 0 <= k < i ==> (#[trigger] d@[k]) == aug@[k]@[k],
            decreases n - i,
        {
            assert(ints(aug@[i as int]@).len() == 2 * nn);
            let mut right: Vec<i64> = Vec::new();
            let mut j: usize = n;
            while j < 2 * n
                invariant
                    aug@.len() == n,
                    n <= usize::MAX / 2,
                    i < n,
                    aug@[i as int]@.len() == 2 * n,
                    n <= j <= 2 * n,
                    right@.len() == j - n,
                    forall|k: int| 0 <= k < j - n ==> #[trigger] right@[k] == aug@[i as int]@[n + k],
                decreases 2 * n - j,
            {
                right.push(aug[i][j]);
                j = j + 1;
            }
            assert(ints(right@) =~= ints(aug@[i as int]@).subrange(n as int, 2 * n as int));
            matrix.push(right);
            d.push(aug[i][i]);
            i = i + 1;
        }
        let m = Matrix { matrix, rows: n, cols: n };
        let dv = Vector::new(d);
        proof {
            dv.lemma_view();
            assert forall|k: int, j: int| 0 <= k < n && 0 <= j < n implies mat_mul(m@, a, nn)[k][j]
                == diag(dv@)[k][j] by {
                assert(tracks(ints(aug@[k]@), a, nn));
                assert(m@[k] == ints(aug@[k]@).subrange(n as int, 2 * n as int));
                assert(ints(aug@[k]@)[j] == aug@[k]@[j]);
            }
            assert forall|k: int| 0 <= k < n implies #[trigger] mat_mul(m@, a, nn)[k] =~= diag(
                dv@,
            )[k] by {}
            assert(mat_mul(m@, a, nn) =~= diag(dv@));
            assert forall|c: int| 0 <= c < n implies #[trigger] column(a, c) != zeros(nn) by {
                if column(a, c) == zeros(nn) {
                    lemma_dot_zero(m@[c], column(a, c));
                    assert(mat_mul(m@, a, nn)[c][c] == diag(dv@)[c][c]);
                }
            }
        }
        Some((m, dv))
    }

    /// The point `v` as a homogeneous column: its coordinates, then 1.
    pub fn from(v: &Vector) -> (r: Matrix)
        requires
            v@.len() < usize::MAX,
        ensures
            r.wf(),
            r.rows_spec() == v@.len() + 1,
            r.cols_spec() == 1,
            r@ == homogeneous(v@),
    {
        let n = v.len();
        let mut matrix: Vec<Vec<i64>> = Vec::new();
        let mut i: usize = 0;
        while i < n
            invariant
                n == v@.len(),
                i <= n,
                matrix@.len() == i,
                forall|k: int| 0 <= k < i ==> (#[trigger] matrix@[k])@.len() == 1,
                forall|k: int| 0 <= k < i ==> ints((#[trigger] matrix@[k])@) == seq![v@[k]],
            decreases n - i,
        {
            let row = vec![v.index(i)];
            assert(ints(row@) =~= seq![v@[i as int]]);
            matrix.push(row);
            i = i + 1;
        }
        let last = vec![1i64];
        assert(ints(last@) =~= seq![1int]);
        matrix.push(last);
        let r = Matrix { matrix, rows: n + 1, cols: 1 };
        assert(r@ =~= homogeneous(v@));
        r
    }
}

impl Vector {
    /// The perspective divide of a homogeneous column: each row but the last
    /// divided by the last, rounded toward zero.
    pub fn from(m: &Matrix) -> (r: Vector)
        requires
            m.wf(),
            m.cols_spec() == 1,
            m.rows_spec() >= 1,
            m@[m@.len() - 1][0] != 0,
            forall|i: int|
                0 <= i < m@.len() - 1 ==> !(#[trigger] m@[i][0] == i64::MIN && m@[m@.len() - 1][0]
                    == -1),
        ensures
            r@ == dehomogenize(m@),
    {
        let n = m.rows - 1;
        let w = m.matrix[n][0];
        let mut vec: Vec<i64> = Vec::new();
        let mut i: usize = 0;
        while i < n
            invariant
                m.wf(),
                m.cols == 1,
                n == m.rows - 1,
                w as int == m@[n as int][0],
                w != 0,
                forall|i: int|
                    0 <= i < m@.len() - 1 ==> !(#[trigger] m@[i][0] == i64::MIN && m@[m@.len()
                        - 1][0] == -1),
                i <= n,
                vec@.len() == i,
                forall|k: int| 0 <= k < i ==> vec@[k] as int == div_trunc(m@[k][0], w as int),
            decreases n - i,
        {
            let x = m.matrix[i][0];
            assert(!(m@[i as int][0] == i64::MIN && w == -1));
            vec.push(quotient(x, w));
            i = i + 1;
        }
        let r = Vector::new(vec);
        assert(r@ =~= dehomogenize(m@));
        r
    }
}

impl Vector3D<i64> {
    /// The perspective divide of a 4-row homogeneous column.
    pub fn from(m: &Matrix) -> (r: Vector3D<i64>)
        requires
            m.wf(),
            m.cols_spec() == 1,
            m.rows_spec() == 4,
            m@[3][0] != 0,
            forall|i: int|
                0 <= i < 3 ==> !(#[trigger] m@[i][0] == i64::MIN && m@[3][0] == -1),
        ensures
            r.coords() == dehomogenize(m@),
    {
        let v = Vector::from(m);
        let r = Vector3D { x: v.index(0), y: v.index(1), z: v.index(2) };
        assert(r.coords() =~= dehomogenize(m@));
        r
    }
}

impl Vector4D<i64> {
    /// The perspective divide of a 5-row homogeneous column.
    pub fn from(m: &Matrix) -> (r: Vector4D<i64>)
        requires
            m.wf(),
            m.cols_spec() == 1,
            m.rows_spec() == 5,
            m@[4][0] != 0,
            forall|i: int|
                0 <= i < 4 ==> !(#[trigger] m@[i][0] == i64::MIN && m@[4][0] == -1),
        ensures
            r.coords() == dehomogenize(m@),
    {
        let v = Vector::from(m);
        let r = Vector4D { x: v.index(0), y: v.index(1), z: v.index(2), t: v.index(3) };
        assert(r.coords() =~= dehomogenize(m@));
        r
    }
}

/// From `l * transpose(a) == diag(d)` follows `a * transpose(l) == diag(d)`.
proof fn lemma_transpose_product(a: Seq<Seq<int>>, l: Seq<Seq<int>>, d: Seq<int>, n: nat)
    requires
        is_grid(a, n, n),
        is_grid(l, n, n),
        d.len() == n,
        mat_mul(l, transpose(a, n), n) == diag(d),
    ensures
        mat_mul(a, transpose(l, n), n) == diag(d),
{
    let t = transpose(a, n);
    let lt = transpose(l, n);
    assert forall|i: int, j: int| 0 <= i < n && 0 <= j < n implies #[trigger] mat_mul(a, lt, n)[i][j]
        == diag(d)[i][j] by {
        assert(mat_mul(l, t, n)[j][i] == diag(d)[j][i]);
        assert forall|k: int| 0 <= k < n implies #[trigger] (a[i][k] * column(lt, j)[k]) == l[j][k]
            * column(t, i)[k] by {
            let (x, y) = (a[i][k], l[j][k]);
            assert(x * y == y * x) by (nonlinear_arith);
        }
        lemma_sum_ext(n, |k: int| a[i][k] * column(lt, j)[k], |k: int| l[j][k] * column(t, i)[k]);
    }
    assert forall|i: int| 0 <= i < n implies #[trigger] mat_mul(a, lt, n)[i] =~= diag(d)[i] by {}
    assert(mat_mul(a, lt, n) =~= diag(d));
}

/// Multiplying by the identity on the right leaves a matrix unchanged, and
/// the identity times a vector is that vector.
pub proof fn law_identity(m: Seq<Seq<int>>, r: nat, n: nat, v: Seq<int>)
    requires
        is_grid(m, r, n),
        v.len() == n,
    ensures
        mat_mul(m, identity(n), n) == m,
        mat_vec(identity(n), v) == v,
{
    let id = identity(n);
    assert forall|i: int, j: int| 0 <= i < r && 0 <= j < n implies dot(m[i], column(id, j))
        == m[i][j] by {
        lemma_sum_single(n, j, |k: int| m[i][k] * column(id, j)[k]);
    }
    assert forall|i: int| 0 <= i < r implies #[trigger] mat_mul(m, id, n)[i] =~= m[i] by {}
    assert(mat_mul(m, id, n) =~= m);
    assert forall|i: int| 0 <= i < n implies #[trigger] mat_vec(id, v)[i] == v[i] by {
        lemma_sum_single(n, i, |k: int| id[i][k] * v[k]);
    }
    assert(mat_vec(id, v) =~= v);
}

proof fn lemma_mul_assoc_entry(
    a: Seq<Seq<int>>,
    b: Seq<Seq<int>>,
    c: Seq<Seq<int>>,
    p: nat,
    q: nat,
    s: nat,
    i: int,
    l: int,
)
    requires
        0 <= i < a.len(),
        0 <= l < s,
        is_grid(a, a.len(), p),
        is_grid(b, p, q),
        is_grid(c, q, s),
    ensures
        dot(mat_mul(a, b, q)[i], column(c, l)) == dot(a[i], column(mat_mul(b, c, s), l)),
{
    let ab = mat_mul(a, b, q);
    let bc = mat_mul(b, c, s);
    let f = |k: int, j: int| a[i][j] * (b[j][k] * c[k][l]);
    // Left side: distribute each c[k][l] into the inner sum.
    assert forall|k: int| 0 <= k < q implies #[trigger] (ab[i][k] * c[k][l]) == sum(
        p,
        |j: int| f(k, j),
    ) by {
        let g = |j: int| a[i][j] * b[j][k];
        lemma_sum_scale(p, c[k][l], g);
        assert forall|j: int| 0 <= j < p implies c[k][l] * #[trigger] g(j) == f(k, j) by {
            let (x, y, z) = (a[i][j], b[j][k], c[k][l]);
            assert(z * (x * y) == x * (y * z)) by (nonlinear_arith);
        }
        lemma_sum_ext(p, |j: int| c[k][l] * g(j), |j: int| f(k, j));
        assert(a[i].len() == p);
        lemma_sum_ext(p, |j: int| a[i][j] * column(b, k)[j], g);
        assert(ab[i][k] == sum(p, g));
    }
    lemma_sum_ext(q, |k: int| ab[i][k] * column(c, l)[k], |k: int| sum(p, |j: int| f(k, j)));
    lemma_sum_swap(q, p, f);
    // Right side: factor a[i][j] out of the inner sum.
    assert forall|j: int| 0 <= j < p implies #[trigger] (a[i][j] * bc[j][l]) == sum(
        q,
        |k: int| f(k, j),
    ) by {
        let g = |k: int| b[j][k] * c[k][l];
        lemma_sum_scale(q, a[i][j], g);
        lemma_sum_ext(q, |k: int| a[i][j] * g(k), |k: int| f(k, j));
        assert(b[j].len() == q);
        lemma_sum_ext(q, |k: int| b[j][k] * column(c, l)[k], g);
        assert(bc[j][l] == sum(q, g));
    }
    lemma_sum_ext(p, |j: int| a[i][j] * column(bc, l)[j], |j: int| sum(q, |k: int| f(k, j)));
}

/// Matrix multiplication is associative.
pub proof fn law_mul_assoc(
    a: Seq<Seq<int>>,
    b: Seq<Seq<int>>,
    c: Seq<Seq<int>>,
    r: nat,
    p: nat,
    q: nat,
    s: nat,
)
    requires
        is_grid(a, r, p),
        is_grid(b, p, q),
        is_grid(c, q, s),
    ensures
        mat_mul(mat_mul(a, b, q), c, s) == mat_mul(a, mat_mul(b, c, s), s),
{
    let lhs = mat_mul(mat_mul(a, b, q), c, s);
    let rhs = mat_mul(a, mat_mul(b, c, s), s);
    assert forall|i: int| 0 <= i < r implies #[trigger] lhs[i] =~= rhs[i] by {
        assert forall|l: int| 0 <= l < s implies lhs[i][l] == rhs[i][l] by {
            lemma_mul_assoc_entry(a, b, c, p, q, s, i, l);
        }
    }
    assert(lhs =~= rhs);
}

} // verus!
