use vstd::prelude::*;

use vstd::arithmetic::div_mod::lemma_fundamental_div_mod_converse_div;

use crate::numeric::abs;
use crate::scene::COORD_LIMIT;

verus! {

/// How far the minor coordinate has moved after `k` steps along the major
/// axis of a line that runs `d` along the major axis and `e` along the minor
/// one: `k * e / d` rounded to nearest, halves rounded down.
pub open spec fn minor_offset(d: int, e: int, k: int) -> int {
    if d == 0 {
        0
    } else {
        (2 * e * k + d - 1) / (2 * d)
    }
}

/// The line is steeper than 45 degrees, so it is walked along `y`.
pub open spec fn steep(x0: int, y0: int, x1: int, y1: int) -> bool {
    abs(x0 - x1) < abs(y0 - y1)
}

/// Point `k` of the line from `(x0, y0)` to `(x1, y1)` (Bresenham's walk).
pub open spec fn line_point(x0: int, y0: int, x1: int, y1: int, k: int) -> (int, int) {
    let s = steep(x0, y0, x1, y1);
    // Endpoints with the major axis first.
    let (a0, b0, a1, b1) = if s { (y0, x0, y1, x1) } else { (x0, y0, x1, y1) };
    // Walk from the lower end of the major axis.
    let (a0, b0, a1, b1) = if a0 > a1 { (a1, b1, a0, b0) } else { (a0, b0, a1, b1) };
    let d = a1 - a0;
    let e = abs(b1 - b0);
    let step = if b1 > b0 { 1int } else { -1int };
    let major = a0 + k;
    let minor = b0 + step * minor_offset(d, e, k);
    if s { (minor, major) } else { (major, minor) }
}

/// The number of points on the line: one more than its extent along the major axis.
pub open spec fn line_len(x0: int, y0: int, x1: int, y1: int) -> nat {
    if steep(x0, y0, x1, y1) {
        (abs(y1 - y0) + 1) as nat
    } else {
        (abs(x1 - x0) + 1) as nat
    }
}

/// The pixels of the segment from `(x0, y0)` to `(x1, y1)`, one per step
/// along its major axis, by Bresenham's algorithm.
pub fn line_points(x0: i64, y0: i64, x1: i64, y1: i64) -> (r: Vec<(i64, i64)>)
    requires
        -COORD_LIMIT <= x0 <= COORD_LIMIT,
        -COORD_LIMIT <= y0 <= COORD_LIMIT,
        -COORD_LIMIT <= x1 <= COORD_LIMIT,
        -COORD_LIMIT <= y1 <= COORD_LIMIT,
    ensures
        r@.len() == line_len(x0 as int, y0 as int, x1 as int, y1 as int),
        forall|k: int|
            0 <= k < r@.len() ==> (#[trigger] r@[k]).0 as int == line_point(
                x0 as int,
                y0 as int,
                x1 as int,
                y1 as int,
                k,
            ).0 && r@[k].1 as int == line_point(x0 as int, y0 as int, x1 as int, y1 as int, k).1,
{
    let dx0 = if x0 > x1 { x0 - x1 } else { x1 - x0 };
    let dy0 = if y0 > y1 { y0 - y1 } else { y1 - y0 };
    let s = dx0 < dy0;
    let (mut a0, mut b0, mut a1, mut b1) = if s { (y0, x0, y1, x1) } else { (x0, y0, x1, y1) };
    if a0 > a1 {
        let (t0, t1) = (a0, b0);
        a0 = a1;
        b0 = b1;
        a1 = t0;
        b1 = t1;
    }
    let d = a1 - a0;
    let e = if b1 > b0 { b1 - b0 } else { b0 - b1 };
    let step: i64 = if b1 > b0 { 1 } else { -1 };
    assert(e <= d);
    let mut points: Vec<(i64, i64)> = Vec::new();
    let mut error: i64 = 0;
    let mut b = b0;
    let mut a = a0;
    let ghost mut m: int = 0;
    assert forall|k: int| #[trigger] line_point(x0 as int, y0 as int, x1 as int, y1 as int, k) == (
    if s {
        (b0 + step * minor_offset(d as int, e as int, k), a0 + k)
    } else {
        (a0 + k, b0 + step * minor_offset(d as int, e as int, k))
    }) by {}
    proof {
        if d > 0 {
            lemma_fundamental_div_mod_converse_div(d - 1, 2 * d, 0, d - 1);
        }
    }
    while a <= a1
        invariant
            s == steep(x0 as int, y0 as int, x1 as int, y1 as int),
            forall|k: int| #[trigger] line_point(x0 as int, y0 as int, x1 as int, y1 as int, k) == (
            if s {
                (b0 + step * minor_offset(d as int, e as int, k), a0 + k)
            } else {
                (a0 + k, b0 + step * minor_offset(d as int, e as int, k))
            }),
            d == a1 - a0,
            0 <= e <= d,
            d <= 2 * COORD_LIMIT,
            -COORD_LIMIT <= a0 <= a1 <= COORD_LIMIT,
            -COORD_LIMIT <= b0 <= COORD_LIMIT,
            a0 <= a <= a1 + 1,
            points@.len() == a - a0,
            error == 2 * e * (a - a0) - 2 * d * m,
            d == 0 || (-d < error <= d),
            d == 0 ==> m == 0,
            m == minor_offset(d as int, e as int, a - a0),
            step == 1 || step == -1,
            step == 1 ==> b == b0 + m,
            step == -1 ==> b == b0 - m,
            0 <= m <= a - a0,
            forall|k: int|
                0 <= k < points@.len() ==> (#[trigger] points@[k]).0 as int == line_point(
                    x0 as int,
                    y0 as int,
                    x1 as int,
                    y1 as int,
                    k,
                ).0 && points@[k].1 as int == line_point(
                    x0 as int,
                    y0 as int,
                    x1 as int,
                    y1 as int,
                    k,
                ).1,
        decreases a1 + 1 - a,
    {
        if s {
            points.push((b, a));
        } else {
            points.push((a, b));
        }
        let ghost k = a - a0;
        assert(2 * e * (k + 1) == 2 * e * k + 2 * e) by (nonlinear_arith);
        assert(2 * d * (m + 1) == 2 * d * m + 2 * d) by (nonlinear_arith);
        a = a + 1;
        error = error + 2 * e;
        if error > d {
            b = b + step;
            error = error - 2 * d;
            proof {
                m = m + 1;
            }
        }
        proof {
            if d > 0 {
                let n = 2 * e * (a - a0) + d - 1;
                let r = error + d - 1;
                assert(n == m * (2 * d) + r) by (nonlinear_arith)
                    requires
                        error == 2 * e * (a - a0) - 2 * d * m,
                        n == 2 * e * (a - a0) + d - 1,
                        r == error + d - 1,
                ;
                lemma_fundamental_div_mod_converse_div(n, 2 * d, m, r);
            }
        }
    }
    points
}

} // verus!
