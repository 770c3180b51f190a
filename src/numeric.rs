use vstd::prelude::*;

verus! {

/// The truncated square root of `n`: the `r` with `r * r <= n < (r + 1) * (r + 1)`.
pub open spec fn is_floor_sqrt(n: int, r: int) -> bool {
    &&& 0 <= r
    &&& r * r <= n
    &&& n < (r + 1) * (r + 1)
}

/// Relies on num::integer::sqrt, the truncated principal square root: its
/// documentation states `r² ≤ x < (r+1)²`; it does not panic on unsigned input.
#[verifier::external_body]
pub(crate) fn floor_sqrt(n: u64) -> (r: u64)
    ensures
        is_floor_sqrt(n as int, r as int),
{
    num::integer::sqrt(n)
}

pub open spec fn abs(a: int) -> int {
    if a >= 0 {
        a
    } else {
        -a
    }
}

/// Relies on num::cast from `i64` to `i32` (`NumCast::from`): `Some` exactly
/// when the value is representable in `i32`, and then the same value.
#[verifier::external_body]
pub(crate) fn narrow(x: i64) -> (r: Option<i32>)
    ensures
        r is Some <==> i32::MIN <= x <= i32::MAX,
        r is Some ==> r->0 as int == x as int,
{
    num::cast::<i64, i32>(x)
}

/// Rust's `/` on integers: the quotient rounded toward zero.
pub open spec fn div_trunc(a: int, b: int) -> int {
    if (a >= 0) == (b > 0) {
        abs(a) / abs(b)
    } else {
        -(abs(a) / abs(b))
    }
}

/// The truncated square root, defined by counting up from zero.
pub open spec fn isqrt(n: int) -> int
    decreases n,
{
    if n <= 0 {
        0
    } else {
        let r = isqrt(n - 1);
        if (r + 1) * (r + 1) <= n {
            r + 1
        } else {
            r
        }
    }
}

pub proof fn lemma_isqrt(n: int)
    requires
        n >= 0,
    ensures
        is_floor_sqrt(n, isqrt(n)),
    decreases n,
{
    if n > 0 {
        lemma_isqrt(n - 1);
        let r = isqrt(n - 1);
        if (r + 1) * (r + 1) <= n {
            assert(n < (r + 2) * (r + 2)) by (nonlinear_arith)
                requires
                    n - 1 < (r + 1) * (r + 1),
                    r >= 0,
            ;
        }
    }
}

/// The truncated square root is unique.
pub proof fn lemma_floor_sqrt_unique(n: int, r: int)
    requires
        is_floor_sqrt(n, r),
    ensures
        r == isqrt(n),
{
    lemma_isqrt(n);
    let s = isqrt(n);
    if r < s {
        assert((r + 1) * (r + 1) <= s * s) by (nonlinear_arith)
            requires
                0 <= r < s,
        ;
    } else if s < r {
        assert((s + 1) * (s + 1) <= r * r) by (nonlinear_arith)
            requires
                0 <= s < r,
        ;
    }
}

/// Rust's `a / b`, with its result stated through `div_trunc`.
pub fn quotient(a: i64, b: i64) -> (r: i64)
    requires
        b != 0,
        !(a == i64::MIN && b == -1),
    ensures
        r as int == div_trunc(a as int, b as int),
{
    let ua: i128 = if a >= 0 { a as i128 } else { -(a as i128) };
    let ub: i128 = if b >= 0 { b as i128 } else { -(b as i128) };
    let q: i128 = ua / ub;
    assert(q <= ua) by (nonlinear_arith)
        requires q == ua / ub, ua >= 0, ub >= 1;
    if (a >= 0) == (b > 0) {
        if q > i64::MAX as i128 {
            assert(ub == 1 && ua == 0x8000_0000_0000_0000) by (nonlinear_arith)
                requires q == ua / ub, ua <= 0x8000_0000_0000_0000, ub >= 1, q > 0x7fff_ffff_ffff_ffff,
                    ub <= 0x8000_0000_0000_0000;
        }
        q as i64
    } else {
        (-q) as i64
    }
}

/// A bound on each factor bounds the product.
pub proof fn lemma_mul_abs_le(a: int, b: int, x: int, y: int)
    requires
        abs(a) <= x,
        abs(b) <= y,
    ensures
        abs(a * b) <= x * y,
{
    assert(abs(a * b) == abs(a) * abs(b)) by (nonlinear_arith);
    assert(abs(a) * abs(b) <= x * y) by (nonlinear_arith)
        requires
            0 <= abs(a) <= x,
            0 <= abs(b) <= y,
    ;
}

} // verus!
