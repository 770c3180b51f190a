use vstd::prelude::*;

use crate::sums::sum;
use crate::numeric::{div_trunc, floor_sqrt, narrow, is_floor_sqrt, isqrt, lemma_floor_sqrt_unique};

verus! {

/// The sum of the first `k` products `a[i] * b[i]`.
pub open spec fn dot_upto(a: Seq<int>, b: Seq<int>, k: nat) -> int {
    sum(k, |i: int| a[i] * b[i])
}

/// Dot product of two sequences, over the length of the first.
pub open spec fn dot(a: Seq<int>, b: Seq<int>) -> int {
    dot_upto(a, b, a.len())
}

pub open spec fn vadd(a: Seq<int>, b: Seq<int>) -> Seq<int> {
    Seq::new(a.len(), |i: int| a[i] + b[i])
}

pub open spec fn vsub(a: Seq<int>, b: Seq<int>) -> Seq<int> {
    Seq::new(a.len(), |i: int| a[i] - b[i])
}

pub open spec fn vscale(a: Seq<int>, k: int) -> Seq<int> {
    Seq::new(a.len(), |i: int| a[i] * k)
}

pub open spec fn zeros(n: nat) -> Seq<int> {
    Seq::new(n, |i: int| 0)
}

/// The cross product of two three-element sequences.
pub open spec fn cross(a: Seq<int>, b: Seq<int>) -> Seq<int> {
    seq![
        a[1] * b[2] - a[2] * b[1],
        a[2] * b[0] - a[0] * b[2],
        a[0] * b[1] - a[1] * b[0],
    ]
}

/// The Euclidean length, truncated to an integer.
pub open spec fn norm(a: Seq<int>) -> int {
    isqrt(dot(a, a))
}

/// `a` scaled so that its length becomes `length`, each coordinate rounded
/// toward zero.
pub open spec fn normalized(a: Seq<int>, length: int) -> Seq<int> {
    Seq::new(a.len(), |i: int| div_trunc(a[i] * length, norm(a)))
}

pub open spec fn fits_i64(x: int) -> bool {
    i64::MIN <= x <= i64::MAX
}

/// Every running sum of the dot product of `a` and `b`, and every product in
/// it, is representable as an `i64`.
pub open spec fn dot_fits(a: Seq<int>, b: Seq<int>) -> bool {
    &&& forall|k: int| 0 <= k < a.len() ==> #[trigger] fits_i64(a[k] * b[k])
    &&& forall|k: nat| k <= a.len() ==> fits_i64(#[trigger] dot_upto(a, b, k))
}

/// A vector of `i64` coordinates; its dimension is its length.
pub struct Vector {
    pub(crate) vec: Vec<i64>,
}

impl View for Vector {
    type V = Seq<int>;

    closed spec fn view(&self) -> Seq<int> {
        ints(self.vec@)
    }
}

pub open spec fn ints(v: Seq<i64>) -> Seq<int> {
    v.map_values(|x: i64| x as int)
}

impl Vector {
    pub(crate) proof fn lemma_view(&self)
        ensures
            self@ == ints(self.vec@),
            self@.len() == self.vec@.len(),
    {
    }

    /// The coordinates are `i64` values.
    pub proof fn lemma_fits(&self)
        ensures
            forall|i: int| 0 <= i < self@.len() ==> fits_i64(#[trigger] self@[i]),
    {
    }

    pub fn new(vec: Vec<i64>) -> (r: Vector)
        ensures
            r@ == vec@.map_values(|x: i64| x as int),
    {
        Vector { vec }
    }

    /// The vector of `n` zeros.
    pub fn zero(n: usize) -> (r: Vector)
        ensures
            r@ == zeros(n as nat),
    {
        let mut vec: Vec<i64> = Vec::new();
        let mut i: usize = 0;
        while i < n
            invariant
                i <= n,
                vec@.len() == i,
                forall|k: int| 0 <= k < i ==> vec@[k] == 0,
            decreases n - i,
        {
            vec.push(0);
            i = i + 1;
        }
        let r = Vector { vec };
        assert(r@ =~= zeros(n as nat));
        r
    }

    /// The coordinates.
    pub fn to_vec(&self) -> (r: Vec<i64>)
        ensures
            ints(r@) == self@,
    {
        self.vec.clone()
    }

    pub fn len(&self) -> (r: usize)
        ensures
            r == self@.len(),
    {
        self.vec.len()
    }

    /// The coordinate at `index`.
    pub fn index(&self, index: usize) -> (r: i64)
        requires
            index < self@.len(),
        ensures
            r as int == self@[index as int],
    {
        self.vec[index]
    }

    /// Replaces the coordinate at `index`.
    pub fn set(&mut self, index: usize, value: i64)
        requires
            index < old(self)@.len(),
        ensures
            final(self)@ == old(self)@.update(index as int, value as int),
    {
        self.vec.set(index, value);
        assert(self@ =~= old(self)@.update(index as int, value as int));
    }

    /// Elementwise sum.
    pub fn add(&self, other: &Vector) -> (r: Vector)
        requires
            self@.len() == other@.len(),
            forall|i: int| 0 <= i < self@.len() ==> fits_i64(#[trigger] self@[i] + other@[i]),
        ensures
            r@ == vadd(self@, other@),
    {
        let n = self.vec.len();
        let mut vec: Vec<i64> = Vec::new();
        let mut i: usize = 0;
        while i < n
            invariant
                n == self@.len(),
                n == other@.len(),
                forall|i: int| 0 <= i < self@.len() ==> fits_i64(#[trigger] self@[i] + other@[i]),
                i <= n,
                vec@.len() == i,
                forall|k: int| 0 <= k < i ==> vec@[k] == self@[k] + other@[k],
            decreases n - i,
        {
            assert(fits_i64(self@[i as int] + other@[i as int]));
            vec.push(self.vec[i] + other.vec[i]);
            i = i + 1;
        }
        let r = Vector { vec };
        assert(r@ =~= vadd(self@, other@));
        r
    }

    /// Elementwise difference.
    pub fn sub(&self, other: &Vector) -> (r: Vector)
        requires
            self@.len() == other@.len(),
            forall|i: int| 0 <= i < self@.len() ==> fits_i64(#[trigger] self@[i] - other@[i]),
        ensures
            r@ == vsub(self@, other@),
    {
        let n = self.vec.len();
        let mut vec: Vec<i64> = Vec::new();
        let mut i: usize = 0;
        while i < n
            invariant
                n == self@.len(),
                n == other@.len(),
                forall|i: int| 0 <= i < self@.len() ==> fits_i64(#[trigger] self@[i] - other@[i]),
                i <= n,
                vec@.len() == i,
                forall|k: int| 0 <= k < i ==> vec@[k] == self@[k] - other@[k],
            decreases n - i,
        {
            assert(fits_i64(self@[i as int] - other@[i as int]));
            vec.push(self.vec[i] - other.vec[i]);
            i = i + 1;
        }
        let r = Vector { vec };
        assert(r@ =~= vsub(self@, other@));
        r
    }

    /// Every coordinate multiplied by `k`.
    pub fn mul(&self, k: i64) -> (r: Vector)
        requires
            forall|i: int| 0 <= i < self@.len() ==> fits_i64(#[trigger] self@[i] * k),
        ensures
            r@ == vscale(self@, k as int),
    {
        let n = self.vec.len();
        let mut vec: Vec<i64> = Vec::new();
        let mut i: usize = 0;
        while i < n
            invariant
                n == self@.len(),
                forall|i: int| 0 <= i < self@.len() ==> fits_i64(#[trigger] self@[i] * k),
                i <= n,
                vec@.len() == i,
                forall|k2: int| 0 <= k2 < i ==> vec@[k2] == self@[k2] * k,
            decreases n - i,
        {
            assert(fits_i64(self@[i as int] * k));
            vec.push(self.vec[i] * k);
            i = i + 1;
        }
        let r = Vector { vec };
        assert(r@ =~= vscale(self@, k as int));
        r
    }

    /// The dot product.
    pub fn dot(&self, other: &Vector) -> (r: i64)
        requires
            self@.len() == other@.len(),
            dot_fits(self@, other@),
        ensures
            r as int == dot(self@, other@),
    {
        let n = self.vec.len();
        let mut acc: i64 = 0;
        let mut i: usize = 0;
        while i < n
            invariant
                n == self@.len(),
                n == other@.len(),
                dot_fits(self@, other@),
                i <= n,
                acc as int == dot_upto(self@, other@, i as nat),
            decreases n - i,
        {
            assert(fits_i64(self@[i as int] * other@[i as int]));
            assert(fits_i64(dot_upto(self@, other@, (i + 1) as nat)));
            let p = self.vec[i] * other.vec[i];
            acc = acc + p;
            i = i + 1;
        }
        acc
    }

    /// The dot product, or `None` when a product or a running sum leaves `i64`.
    pub fn checked_dot(&self, other: &Vector) -> (r: Option<i64>)
        requires
            self@.len() == other@.len(),
        ensures
            r is Some <==> dot_fits(self@, other@),
            r is Some ==> r->0 as int == dot(self@, other@),
    {
        let n = self.vec.len();
        let mut acc: i64 = 0;
        let mut i: usize = 0;
        while i < n
            invariant
                n == self@.len(),
                n == other@.len(),
                i <= n,
                acc as int == dot_upto(self@, other@, i as nat),
                forall|k: int| 0 <= k < i ==> #[trigger] fits_i64(self@[k] * other@[k]),
                forall|k: nat| k <= i ==> fits_i64(#[trigger] dot_upto(self@, other@, k)),
            decreases n - i,
        {
            let p = match self.vec[i].checked_mul(other.vec[i]) {
                Some(p) => p,
                None => {
                    assert(!fits_i64(self@[i as int] * other@[i as int]));
                    return None;
                },
            };
            acc = match acc.checked_add(p) {
                Some(s) => s,
                None => {
                    assert(!fits_i64(dot_upto(self@, other@, (i + 1) as nat)));
                    return None;
                },
            };
            i = i + 1;
            assert forall|k: nat| k <= i implies fits_i64(#[trigger] dot_upto(self@, other@, k)) by {
                if k < i {
                }
            }
        }
        Some(acc)
    }

    /// The coordinates as `i32`, or `None` when one of them does not fit.
    pub fn cast(&self) -> (r: Option<Vec<i32>>)
        ensures
            r is Some <==> forall|i: int| 0 <= i < self@.len() ==> i32::MIN <= #[trigger] self@[i] <= i32::MAX,
            r is Some ==> r->0@.len() == self@.len(),
            r is Some ==> forall|i: int| 0 <= i < self@.len() ==> r->0@[i] as int == #[trigger] self@[i],
    {
        let mut out: Vec<i32> = Vec::new();
        let mut i: usize = 0;
        while i < self.vec.len()
            invariant
                i <= self@.len(),
                self@.len() == self.vec@.len(),
                out@.len() == i,
                forall|k: int| 0 <= k < i ==> i32::MIN <= #[trigger] self@[k] <= i32::MAX,
                forall|k: int| 0 <= k < i ==> out@[k] as int == #[trigger] self@[k],
            decreases self@.len() - i,
        {
            match narrow(self.vec[i]) {
                Some(x) => {
                    assert(self.vec@[i as int] as int == self@[i as int]);
                    out.push(x);
                },
                None => {
                    assert(self.vec@[i as int] as int == self@[i as int]);
                    assert(!(i32::MIN <= self@[i as int] <= i32::MAX));
                    return None;
                },
            }
            i = i + 1;
        }
        Some(out)
    }

    /// The cross product; defined for three dimensions.
    pub fn bitxor(&self, other: &Vector) -> (r: Vector)
        requires
            self@.len() == 3,
            other@.len() == 3,
            forall|i: int, j: int|
                0 <= i < 3 && 0 <= j < 3 ==> fits_i64(#[trigger] (self@[i] * other@[j])),
            forall|i: int, j: int|
                0 <= i < 3 && 0 <= j < 3 ==> fits_i64(
                    self@[i] * other@[j] - self@[j] * other@[i],
                ),
        ensures
            r@ == cross(self@, other@),
    {
        let a = &self.vec;
        let b = &other.vec;
        assert(fits_i64(self@[1] * other@[2] - self@[2] * other@[1]));
        assert(fits_i64(self@[2] * other@[0] - self@[0] * other@[2]));
        assert(fits_i64(self@[0] * other@[1] - self@[1] * other@[0]));
        let x = a[1] * b[2] - a[2] * b[1];
        let y = a[2] * b[0] - a[0] * b[2];
        let z = a[0] * b[1] - a[1] * b[0];
        let r = Vector { vec: vec![x, y, z] };
        assert(r@ =~= cross(self@, other@));
        r
    }

    /// The Euclidean length, truncated to an integer.
    pub fn norm(&self) -> (r: i64)
        requires
            dot_fits(self@, self@),
        ensures
            r as int == norm(self@),
            is_floor_sqrt(dot(self@, self@), r as int),
    {
        let s = self.dot(self);
        proof {
            lemma_dot_self_nonneg(self@, self@.len());
        }
        let r = floor_sqrt(s as u64);
        proof {
            lemma_floor_sqrt_unique(s as int, r as int);
            assert(r * r <= s) by (nonlinear_arith)
                requires r as int * r as int <= s as int;
        }
        assert(r <= i64::MAX) by (nonlinear_arith)
            requires r as int * r as int <= s as int, s <= i64::MAX;
        r as i64
    }

    /// The vector scaled to `length`: each coordinate times `length`, divided
    /// by the norm, rounded toward zero. The norm must be positive.
    pub fn normalize(&self, length: i64) -> (r: Vector)
        requires
            dot_fits(self@, self@),
            dot(self@, self@) > 0,
            forall|i: int| 0 <= i < self@.len() ==> fits_i64(#[trigger] self@[i] * length),
        ensures
            r@ == normalized(self@, length as int),
    {
        let n = self.norm();
        assert(n > 0) by (nonlinear_arith)
            requires dot(self@, self@) < (n + 1) * (n + 1), dot(self@, self@) > 0, n >= 0;
        let len = self.vec.len();
        let mut vec: Vec<i64> = Vec::new();
        let mut i: usize = 0;
        while i < len
            invariant
                len == self@.len(),
                n as int == norm(self@),
                n > 0,
                forall|i: int| 0 <= i < self@.len() ==> fits_i64(#[trigger] self@[i] * length),
                i <= len,
                vec@.len() == i,
                forall|k: int|
                    0 <= k < i ==> vec@[k] == div_trunc(self@[k] * length, norm(self@)),
            decreases len - i,
        {
            assert(fits_i64(self@[i as int] * length));
            let p = self.vec[i] * length;
            vec.push(p / n);
            i = i + 1;
        }
        let r = Vector { vec };
        assert(r@ =~= normalized(self@, length as int));
        r
    }

    /// The first `n` coordinates.
    pub fn proj(&self, n: usize) -> (r: Vector)
        requires
            n <= self@.len(),
        ensures
            r@ == self@.subrange(0, n as int),
    {
        let mut vec: Vec<i64> = Vec::new();
        let mut i: usize = 0;
        while i < n
            invariant
                n <= self@.len(),
                i <= n,
                vec@.len() == i,
                forall|k: int| 0 <= k < i ==> vec@[k] == self@[k],
            decreases n - i,
        {
            vec.push(self.vec[i]);
            i = i + 1;
        }
        let r = Vector { vec };
        assert(r@ =~= self@.subrange(0, n as int));
        r
    }

    /// The vector padded with `fill` up to `n` coordinates.
    pub fn embed(&self, n: usize, fill: i64) -> (r: Vector)
        requires
            n >= self@.len(),
        ensures
            r@.len() == n,
            r@.subrange(0, self@.len() as int) == self@,
            forall|i: int| self@.len() <= i < n ==> r@[i] == fill,
    {
        let mut vec: Vec<i64> = Vec::new();
        let mut i: usize = 0;
        let m = self.vec.len();
        while i < n
            invariant
                m == self@.len(),
                n >= m,
                i <= n,
                vec@.len() == i,
                forall|k: int| 0 <= k < i && k < m ==> vec@[k] == self@[k],
                forall|k: int| m <= k < i ==> vec@[k] == fill,
            decreases n - i,
        {
            if i < m {
                vec.push(self.vec[i]);
            } else {
                vec.push(fill);
            }
            i = i + 1;
        }
        let r = Vector { vec };
        assert(r@.subrange(0, self@.len() as int) =~= self@);
        r
    }
}

pub proof fn lemma_dot_self_nonneg(a: Seq<int>, k: nat)
    ensures
        dot_upto(a, a, k) >= 0,
    decreases k,
{
    if k > 0 {
        lemma_dot_self_nonneg(a, (k - 1) as nat);
        let x = a[k - 1];
        assert(x * x >= 0) by (nonlinear_arith);
    }
}

/// Adding the zero vector changes nothing, and a vector minus itself is zero.
pub proof fn law_additive_identity(v: Seq<int>)
    ensures
        vadd(v, zeros(v.len())) == v,
        vsub(v, v) == zeros(v.len()),
{
    assert(vadd(v, zeros(v.len())) =~= v);
    assert(vsub(v, v) =~= zeros(v.len()));
}

/// The cross product of two three-dimensional vectors is orthogonal to both.
pub proof fn law_cross_orthogonal(a: Seq<int>, b: Seq<int>)
    requires
        a.len() == 3,
        b.len() == 3,
    ensures
        dot(cross(a, b), a) == 0,
        dot(cross(a, b), b) == 0,
{
    let c = cross(a, b);
    reveal_with_fuel(sum, 4);
    assert(dot(c, a) == c[0] * a[0] + c[1] * a[1] + c[2] * a[2]);
    assert(dot(c, b) == c[0] * b[0] + c[1] * b[1] + c[2] * b[2]);
    lemma_cross_terms(a[0], a[1], a[2], b[0], b[1], b[2]);
}

proof fn lemma_cross_terms(a0: int, a1: int, a2: int, b0: int, b1: int, b2: int)
    ensures
        (a1 * b2 - a2 * b1) * a0 + (a2 * b0 - a0 * b2) * a1 + (a0 * b1 - a1 * b0) * a2 == 0,
        (a1 * b2 - a2 * b1) * b0 + (a2 * b0 - a0 * b2) * b1 + (a0 * b1 - a1 * b0) * b2 == 0,
{
    assert((a1 * b2 - a2 * b1) * a0 + (a2 * b0 - a0 * b2) * a1 + (a0 * b1 - a1 * b0) * a2 == 0)
        by (nonlinear_arith);
    assert((a1 * b2 - a2 * b1) * b0 + (a2 * b0 - a0 * b2) * b1 + (a0 * b1 - a1 * b0) * b2 == 0)
        by (nonlinear_arith);
}

/// A vector with 2 named coordinates.
#[derive(Clone, Copy, Debug)]
pub struct Vector2D<T> {
    pub x: T,
    pub y: T,
}

impl<T: Copy> Vector2D<T> {
    pub fn new(x: T, y: T) -> (r: Vector2D<T>)
        ensures
            r.x == x,
            r.y == y,
    {
        Vector2D { x, y }
    }

    pub fn x(self) -> (r: T)
        ensures
            r == self.x,
    {
        self.x
    }

    pub fn y(self) -> (r: T)
        ensures
            r == self.y,
    {
        self.y
    }
}

impl Vector2D<i64> {
    /// The coordinates as `i32`, or `None` when one of them does not fit.
    pub fn cast(self) -> (r: Option<Vector2D<i32>>)
        ensures
            r is Some <==> i32::MIN <= self.x <= i32::MAX && i32::MIN <= self.y <= i32::MAX,
            r is Some ==> r->0.x as int == self.x as int,
            r is Some ==> r->0.y as int == self.y as int,
    {
        let x = match narrow(self.x) {
            Some(v) => v,
            None => return None,
        };
        let y = match narrow(self.y) {
            Some(v) => v,
            None => return None,
        };
        Some(Vector2D { x, y })
    }

    /// The coordinates as a sequence.
    pub open spec fn coords(&self) -> Seq<int> {
        seq![self.x as int, self.y as int]
    }

    /// The coordinates as a general vector.
    pub fn to_vector(&self) -> (r: Vector)
        ensures
            r@ == self.coords(),
    {
        let r = Vector::new(vec![self.x, self.y]);
        assert(r@ =~= self.coords());
        r
    }

    pub fn add(self, other: Vector2D<i64>) -> (r: Vector2D<i64>)
        requires
            fits_i64(self.x + other.x),
            fits_i64(self.y + other.y),
        ensures
            r.coords() == vadd(self.coords(), other.coords()),
    {
        let r = Vector2D { x: self.x + other.x, y: self.y + other.y };
        assert(r.coords() =~= vadd(self.coords(), other.coords()));
        r
    }

    pub fn sub(self, other: Vector2D<i64>) -> (r: Vector2D<i64>)
        requires
            fits_i64(self.x - other.x),
            fits_i64(self.y - other.y),
        ensures
            r.coords() == vsub(self.coords(), other.coords()),
    {
        let r = Vector2D { x: self.x - other.x, y: self.y - other.y };
        assert(r.coords() =~= vsub(self.coords(), other.coords()));
        r
    }

    pub fn mul(self, k: i64) -> (r: Vector2D<i64>)
        requires
            fits_i64(self.x * k),
            fits_i64(self.y * k),
        ensures
            r.coords() == vscale(self.coords(), k as int),
    {
        let r = Vector2D { x: self.x * k, y: self.y * k };
        assert(r.coords() =~= vscale(self.coords(), k as int));
        r
    }
}

/// A vector with 3 named coordinates.
#[derive(Clone, Copy, Debug)]
pub struct Vector3D<T> {
    pub x: T,
    pub y: T,
    pub z: T,
}

impl<T: Copy> Vector3D<T> {
    pub fn new(x: T, y: T, z: T) -> (r: Vector3D<T>)
        ensures
            r.x == x,
            r.y == y,
            r.z == z,
    {
        Vector3D { x, y, z }
    }

    pub fn x(self) -> (r: T)
        ensures
            r == self.x,
    {
        self.x
    }

    pub fn y(self) -> (r: T)
        ensures
            r == self.y,
    {
        self.y
    }

    pub fn z(self) -> (r: T)
        ensures
            r == self.z,
    {
        self.z
    }

    /// The coordinate at `index`, counting from zero.
    fn _get_by_index(&self, index: usize) -> (r: T)
        requires
            index < 3,
        ensures
            index == 0 ==> r == self.x,
            index == 1 ==> r == self.y,
            index == 2 ==> r == self.z,
    {
        match index {
            0 => self.x,
            1 => self.y,
            _ => self.z,
        }
    }

    /// Replaces the coordinate at `index`, counting from zero.
    fn _get_by_index_mut(&mut self, index: usize, value: T)
        requires
            index < 3,
        ensures
            final(self).x == (if index == 0 { value } else { old(self).x }),
            final(self).y == (if index == 1 { value } else { old(self).y }),
            final(self).z == (if index == 2 { value } else { old(self).z }),
    {
        match index {
            0 => self.x = value,
            1 => self.y = value,
            _ => self.z = value,
        }
    }

    pub fn index(&self, index: usize) -> (r: T)
        requires
            index < 3,
        ensures
            index == 0 ==> r == self.x,
            index == 1 ==> r == self.y,
            index == 2 ==> r == self.z,
    {
        self._get_by_index(index)
    }

    pub fn index_mut(&mut self, index: usize, value: T)
        requires
            index < 3,
        ensures
            final(self).x == (if index == 0 { value } else { old(self).x }),
            final(self).y == (if index == 1 { value } else { old(self).y }),
            final(self).z == (if index == 2 { value } else { old(self).z }),
    {
        self._get_by_index_mut(index, value)
    }
}

impl Vector3D<i64> {
    /// The coordinates as `i32`, or `None` when one of them does not fit.
    pub fn cast(self) -> (r: Option<Vector3D<i32>>)
        ensures
            r is Some <==> i32::MIN <= self.x <= i32::MAX && i32::MIN <= self.y <= i32::MAX && i32::MIN <= self.z <= i32::MAX,
            r is Some ==> r->0.x as int == self.x as int,
            r is Some ==> r->0.y as int == self.y as int,
            r is Some ==> r->0.z as int == self.z as int,
    {
        let x = match narrow(self.x) {
            Some(v) => v,
            None => return None,
        };
        let y = match narrow(self.y) {
            Some(v) => v,
            None => return None,
        };
        let z = match narrow(self.z) {
            Some(v) => v,
            None => return None,
        };
        Some(Vector3D { x, y, z })
    }

    /// The coordinates as a sequence.
    pub open spec fn coords(&self) -> Seq<int> {
        seq![self.x as int, self.y as int, self.z as int]
    }

    /// The coordinates as a general vector.
    pub fn to_vector(&self) -> (r: Vector)
        ensures
            r@ == self.coords(),
    {
        let r = Vector::new(vec![self.x, self.y, self.z]);
        assert(r@ =~= self.coords());
        r
    }

    pub fn add(self, other: Vector3D<i64>) -> (r: Vector3D<i64>)
        requires
            fits_i64(self.x + other.x),
            fits_i64(self.y + other.y),
            fits_i64(self.z + other.z),
        ensures
            r.coords() == vadd(self.coords(), other.coords()),
    {
        let r = Vector3D { x: self.x + other.x, y: self.y + other.y, z: self.z + other.z };
        assert(r.coords() =~= vadd(self.coords(), other.coords()));
        r
    }

    pub fn sub(self, other: Vector3D<i64>) -> (r: Vector3D<i64>)
        requires
            fits_i64(self.x - other.x),
            fits_i64(self.y - other.y),
            fits_i64(self.z - other.z),
        ensures
            r.coords() == vsub(self.coords(), other.coords()),
    {
        let r = Vector3D { x: self.x - other.x, y: self.y - other.y, z: self.z - other.z };
        assert(r.coords() =~= vsub(self.coords(), other.coords()));
        r
    }

    pub fn mul(self, k: i64) -> (r: Vector3D<i64>)
        requires
            fits_i64(self.x * k),
            fits_i64(self.y * k),
            fits_i64(self.z * k),
        ensures
            r.coords() == vscale(self.coords(), k as int),
    {
        let r = Vector3D { x: self.x * k, y: self.y * k, z: self.z * k };
        assert(r.coords() =~= vscale(self.coords(), k as int));
        r
    }

    /// The Euclidean length, truncated to an integer.
    pub fn norm(self) -> (r: i64)
        requires
            dot_fits(self.coords(), self.coords()),
        ensures
            r as int == norm(self.coords()),
    {
        self.to_vector().norm()
    }

    /// The vector scaled to `length`, each coordinate rounded toward zero; the
    /// norm must be positive.
    pub fn normalize(self, length: i64) -> (r: Vector3D<i64>)
        requires
            dot_fits(self.coords(), self.coords()),
            dot(self.coords(), self.coords()) > 0,
            forall|i: int| 0 <= i < 3 ==> fits_i64(#[trigger] self.coords()[i] * length),
        ensures
            r.coords() == normalized(self.coords(), length as int),
    {
        let v = self.to_vector().normalize(length);
        let r = Vector3D { x: v.index(0), y: v.index(1), z: v.index(2) };
        assert(r.coords() =~= normalized(self.coords(), length as int));
        r
    }

    /// The cross product.
    pub fn bitxor(self, other: Vector3D<i64>) -> (r: Vector3D<i64>)
        requires
            forall|i: int, j: int|
                0 <= i < 3 && 0 <= j < 3 ==> fits_i64(#[trigger] (self.coords()[i] * other.coords()[j])),
            forall|i: int, j: int|
                0 <= i < 3 && 0 <= j < 3 ==> fits_i64(
                    self.coords()[i] * other.coords()[j] - self.coords()[j] * other.coords()[i],
                ),
        ensures
            r.coords() == cross(self.coords(), other.coords()),
    {
        let c = self.to_vector().bitxor(&other.to_vector());
        let r = Vector3D { x: c.index(0), y: c.index(1), z: c.index(2) };
        assert(r.coords() =~= cross(self.coords(), other.coords()));
        r
    }
}

/// A vector with 4 named coordinates.
#[derive(Clone, Copy, Debug)]
pub struct Vector4D<T> {
    pub x: T,
    pub y: T,
    pub z: T,
    pub t: T,
}

impl<T: Copy> Vector4D<T> {
    pub fn new(x: T, y: T, z: T, t: T) -> (r: Vector4D<T>)
        ensures
            r.x == x,
            r.y == y,
            r.z == z,
            r.t == t,
    {
        Vector4D { x, y, z, t }
    }

    pub fn x(self) -> (r: T)
        ensures
            r == self.x,
    {
        self.x
    }

    pub fn y(self) -> (r: T)
        ensures
            r == self.y,
    {
        self.y
    }

    pub fn z(self) -> (r: T)
        ensures
            r == self.z,
    {
        self.z
    }

    pub fn t(self) -> (r: T)
        ensures
            r == self.t,
    {
        self.t
    }

    /// The coordinate at `index`, counting from zero.
    fn _get_by_index(&self, index: usize) -> (r: T)
        requires
            index < 4,
        ensures
            index == 0 ==> r == self.x,
            index == 1 ==> r == self.y,
            index == 2 ==> r == self.z,
            index == 3 ==> r == self.t,
    {
        match index {
            0 => self.x,
            1 => self.y,
            2 => self.z,
            _ => self.t,
        }
    }

    /// Replaces the coordinate at `index`, counting from zero.
    fn _get_by_index_mut(&mut self, index: usize, value: T)
        requires
            index < 4,
        ensures
            final(self).x == (if index == 0 { value } else { old(self).x }),
            final(self).y == (if index == 1 { value } else { old(self).y }),
            final(self).z == (if index == 2 { value } else { old(self).z }),
            final(self).t == (if index == 3 { value } else { old(self).t }),
    {
        match index {
            0 => self.x = value,
            1 => self.y = value,
            2 => self.z = value,
            _ => self.t = value,
        }
    }

    pub fn index(&self, index: usize) -> (r: T)
        requires
            index < 4,
        ensures
            index == 0 ==> r == self.x,
            index == 1 ==> r == self.y,
            index == 2 ==> r == self.z,
            index == 3 ==> r == self.t,
    {
        self._get_by_index(index)
    }

    pub fn index_mut(&mut self, index: usize, value: T)
        requires
            index < 4,
        ensures
            final(self).x == (if index == 0 { value } else { old(self).x }),
            final(self).y == (if index == 1 { value } else { old(self).y }),
            final(self).z == (if index == 2 { value } else { old(self).z }),
            final(self).t == (if index == 3 { value } else { old(self).t }),
    {
        self._get_by_index_mut(index, value)
    }
}

impl Vector4D<i64> {
    /// The coordinates as `i32`, or `None` when one of them does not fit.
    pub fn cast(self) -> (r: Option<Vector4D<i32>>)
        ensures
            r is Some <==> i32::MIN <= self.x <= i32::MAX && i32::MIN <= self.y <= i32::MAX && i32::MIN <= self.z <= i32::MAX && i32::MIN <= self.t <= i32::MAX,
            r is Some ==> r->0.x as int == self.x as int,
            r is Some ==> r->0.y as int == self.y as int,
            r is Some ==> r->0.z as int == self.z as int,
            r is Some ==> r->0.t as int == self.t as int,
    {
        let x = match narrow(self.x) {
            Some(v) => v,
            None => return None,
        };
        let y = match narrow(self.y) {
            Some(v) => v,
            None => return None,
        };
        let z = match narrow(self.z) {
            Some(v) => v,
            None => return None,
        };
        let t = match narrow(self.t) {
            Some(v) => v,
            None => return None,
        };
        Some(Vector4D { x, y, z, t })
    }

    /// The coordinates as a sequence.
    pub open spec fn coords(&self) -> Seq<int> {
        seq![self.x as int, self.y as int, self.z as int, self.t as int]
    }

    /// The coordinates as a general vector.
    pub fn to_vector(&self) -> (r: Vector)
        ensures
            r@ == self.coords(),
    {
        let r = Vector::new(vec![self.x, self.y, self.z, self.t]);
        assert(r@ =~= self.coords());
        r
    }

    pub fn add(self, other: Vector4D<i64>) -> (r: Vector4D<i64>)
        requires
            fits_i64(self.x + other.x),
            fits_i64(self.y + other.y),
            fits_i64(self.z + other.z),
            fits_i64(self.t + other.t),
        ensures
            r.coords() == vadd(self.coords(), other.coords()),
    {
        let r = Vector4D { x: self.x + other.x, y: self.y + other.y, z: self.z + other.z, t: self.t + other.t };
        assert(r.coords() =~= vadd(self.coords(), other.coords()));
        r
    }

    pub fn sub(self, other: Vector4D<i64>) -> (r: Vector4D<i64>)
        requires
            fits_i64(self.x - other.x),
            fits_i64(self.y - other.y),
            fits_i64(self.z - other.z),
            fits_i64(self.t - other.t),
        ensures
            r.coords() == vsub(self.coords(), other.coords()),
    {
        let r = Vector4D { x: self.x - other.x, y: self.y - other.y, z: self.z - other.z, t: self.t - other.t };
        assert(r.coords() =~= vsub(self.coords(), other.coords()));
        r
    }

    pub fn mul(self, k: i64) -> (r: Vector4D<i64>)
        requires
            fits_i64(self.x * k),
            fits_i64(self.y * k),
            fits_i64(self.z * k),
            fits_i64(self.t * k),
        ensures
            r.coords() == vscale(self.coords(), k as int),
    {
        let r = Vector4D { x: self.x * k, y: self.y * k, z: self.z * k, t: self.t * k };
        assert(r.coords() =~= vscale(self.coords(), k as int));
        r
    }

    /// The Euclidean length, truncated to an integer.
    pub fn norm(self) -> (r: i64)
        requires
            dot_fits(self.coords(), self.coords()),
        ensures
            r as int == norm(self.coords()),
    {
        self.to_vector().norm()
    }

    /// The vector scaled to `length`, each coordinate rounded toward zero; the
    /// norm must be positive.
    pub fn normalize(self, length: i64) -> (r: Vector4D<i64>)
        requires
            dot_fits(self.coords(), self.coords()),
            dot(self.coords(), self.coords()) > 0,
            forall|i: int| 0 <= i < 4 ==> fits_i64(#[trigger] self.coords()[i] * length),
        ensures
            r.coords() == normalized(self.coords(), length as int),
    {
        let v = self.to_vector().normalize(length);
        let r = Vector4D { x: v.index(0), y: v.index(1), z: v.index(2), t: v.index(3) };
        assert(r.coords() =~= normalized(self.coords(), length as int));
        r
    }
}

} // verus!
