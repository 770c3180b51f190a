use vstd::prelude::*;

use crate::geometry::Vector;
use crate::numeric::{abs, div_trunc, lemma_mul_abs_le};

verus! {

/// Screen coordinates lie within this distance of the origin.
pub const COORD_LIMIT: i64 = 65536;

/// Depths lie within this distance of zero.
pub const DEPTH_LIMIT: i64 = 16777216;

/// Homogeneous `w` components lie in `1..=W_LIMIT`.
pub const W_LIMIT: i64 = 4096;

/// A triangle corner after the viewport transform: its pixel position, and
/// the clip-space depth `z` and homogeneous `w` it came from.
#[derive(Clone, Copy, Debug)]
pub struct ScreenVertex {
    pub x: i64,
    pub y: i64,
    pub z: i64,
    pub w: i64,
}

/// The fragment stage: what colour a covered pixel gets from its
/// perspective-corrected barycentric weights, or that it is discarded.
pub trait Shader {
    /// The colour for the weights `bar`, and whether the fragment is discarded.
    spec fn shade(&self, bar: Seq<int>) -> (u32, bool);

    fn fragment(&self, bar: &Vector) -> (r: (u32, bool))
        ensures
            r == self.shade(bar@),
    ;
}

pub open spec fn vertex_ok(v: ScreenVertex) -> bool {
    &&& -COORD_LIMIT <= v.x <= COORD_LIMIT
    &&& -COORD_LIMIT <= v.y <= COORD_LIMIT
    &&& -DEPTH_LIMIT <= v.z <= DEPTH_LIMIT
    &&& 1 <= v.w <= W_LIMIT
}

/// Twice the signed area of the triangle `p`, `a`, `b`.
pub open spec fn edge(a: ScreenVertex, b: ScreenVertex, px: int, py: int) -> int {
    (a.x - px) * (b.y - py) - (b.x - px) * (a.y - py)
}

/// Twice the signed area of the triangle.
pub open spec fn area(t: [ScreenVertex; 3]) -> int {
    edge(t[1], t[2], t[0].x as int, t[0].y as int)
}

/// The barycentric weights of pixel `(px, py)`, scaled by twice the area and
/// made non-negative inside the triangle whatever its orientation.
pub open spec fn screen_weights(t: [ScreenVertex; 3], px: int, py: int) -> Seq<int> {
    let (e0, e1, e2) = (edge(t[1], t[2], px, py), edge(t[2], t[0], px, py), edge(t[0], t[1], px, py));
    if area(t) > 0 {
        seq![e0, e1, e2]
    } else {
        seq![-e0, -e1, -e2]
    }
}

/// The pixel lies inside the (non-degenerate) triangle or on its edge.
pub open spec fn covered(t: [ScreenVertex; 3], px: int, py: int) -> bool {
    let s = screen_weights(t, px, py);
    area(t) != 0 && s[0] >= 0 && s[1] >= 0 && s[2] >= 0
}

/// The screen weights divided by each corner's `w`, all scaled by the product
/// of the three `w`: weights for interpolating clip-space attributes.
pub open spec fn perspective_weights(t: [ScreenVertex; 3], px: int, py: int) -> Seq<int> {
    let s = screen_weights(t, px, py);
    seq![s[0] * (t[1].w * t[2].w), s[1] * (t[2].w * t[0].w), s[2] * (t[0].w * t[1].w)]
}

pub open spec fn weight_sum(c: Seq<int>) -> int {
    c[0] + c[1] + c[2]
}

/// The interpolated depth of a covered pixel, rounded toward zero.
pub open spec fn fragment_depth(t: [ScreenVertex; 3], px: int, py: int) -> int {
    let c = perspective_weights(t, px, py);
    div_trunc(c[0] * t[0].z + c[1] * t[1].z + c[2] * t[2].z, weight_sum(c))
}

pub open spec fn in_box(t: [ScreenVertex; 3], width: int, height: int, px: int, py: int) -> bool {
    let lo_x = min3(t[0].x as int, t[1].x as int, t[2].x as int);
    let hi_x = max3(t[0].x as int, t[1].x as int, t[2].x as int);
    let lo_y = min3(t[0].y as int, t[1].y as int, t[2].y as int);
    let hi_y = max3(t[0].y as int, t[1].y as int, t[2].y as int);
    &&& 0 <= px < width
    &&& 0 <= py < height
    &&& lo_x <= px <= hi_x
    &&& lo_y <= py <= hi_y
}

pub open spec fn min3(a: int, b: int, c: int) -> int {
    if a <= b && a <= c {
        a
    } else if b <= c {
        b
    } else {
        c
    }
}

pub open spec fn max3(a: int, b: int, c: int) -> int {
    if a >= b && a >= c {
        a
    } else if b >= c {
        b
    } else {
        c
    }
}

/// The pixel passes coverage and the depth test against `old_depth`
/// (a larger depth is nearer).
pub open spec fn passes(
    t: [ScreenVertex; 3],
    width: int,
    height: int,
    px: int,
    py: int,
    old_depth: int,
) -> bool {
    &&& in_box(t, width, height, px, py)
    &&& covered(t, px, py)
    &&& fragment_depth(t, px, py) > old_depth
}

/// The pixel is written: it passes, and the shader keeps the fragment.
pub open spec fn writes<S: Shader>(
    t: [ScreenVertex; 3],
    shader: S,
    width: int,
    height: int,
    px: int,
    py: int,
    old_depth: int,
) -> bool {
    &&& passes(t, width, height, px, py, old_depth)
    &&& !shader.shade(perspective_weights(t, px, py)).1
}

/// The colour of pixel `(px, py)` after drawing, given its colour and depth before.
pub open spec fn color_after<S: Shader>(
    t: [ScreenVertex; 3],
    shader: S,
    width: int,
    height: int,
    px: int,
    py: int,
    old_color: u32,
    old_depth: int,
) -> u32 {
    if writes(t, shader, width, height, px, py, old_depth) {
        shader.shade(perspective_weights(t, px, py)).0
    } else {
        old_color
    }
}

/// The depth of pixel `(px, py)` after drawing, given its depth before.
pub open spec fn depth_after<S: Shader>(
    t: [ScreenVertex; 3],
    shader: S,
    width: int,
    height: int,
    px: int,
    py: int,
    old_depth: int,
) -> int {
    if writes(t, shader, width, height, px, py, old_depth) {
        fragment_depth(t, px, py)
    } else {
        old_depth
    }
}


/// The three edge values add up to twice the area.
proof fn lemma_edges_sum(t: [ScreenVertex; 3], px: int, py: int)
    ensures
        edge(t[1], t[2], px, py) + edge(t[2], t[0], px, py) + edge(t[0], t[1], px, py) == area(t),
{
    let (x0, y0, x1, y1, x2, y2) = (
        t[0].x as int,
        t[0].y as int,
        t[1].x as int,
        t[1].y as int,
        t[2].x as int,
        t[2].y as int,
    );
    lemma_area_identity(x0 - px, y0 - py, x1 - px, y1 - py, x2 - px, y2 - py);
}

proof fn lemma_area_identity(u0: int, v0: int, u1: int, v1: int, u2: int, v2: int)
    ensures
        (u1 - u0) * (v2 - v0) - (u2 - u0) * (v1 - v0) == (u1 * v2 - u2 * v1) + (u2 * v0 - u0 * v2)
            + (u0 * v1 - u1 * v0),
{
    assert((u1 - u0) * (v2 - v0) == u1 * v2 - u1 * v0 - u0 * v2 + u0 * v0) by (nonlinear_arith);
    assert((u2 - u0) * (v1 - v0) == u2 * v1 - u2 * v0 - u0 * v1 + u0 * v0) by (nonlinear_arith);
}

proof fn lemma_div_trunc_bound(n: int, c: int, z: int)
    requires
        c >= 1,
        z >= 0,
        abs(n) <= c * z,
    ensures
        abs(div_trunc(n, c)) <= z,
{
    let q = abs(n) / c;
    assert(q <= z) by (nonlinear_arith)
        requires
            q == abs(n) / c,
            c >= 1,
            abs(n) <= c * z,
            abs(n) >= 0,
    ;
    assert(q >= 0) by (nonlinear_arith)
        requires
            q == abs(n) / c,
            c >= 1,
            abs(n) >= 0,
    ;
}

/// A covered pixel's perspective weights and interpolated depth.
struct Fragment {
    bar: Vector,
    depth: i64,
}

/// The perspective weights and depth of a pixel, when the triangle covers it.
fn fragment_at(t: &[ScreenVertex; 3], px: i64, py: i64) -> (r: Option<Fragment>)
    requires
        vertex_ok(t[0]),
        vertex_ok(t[1]),
        vertex_ok(t[2]),
        -COORD_LIMIT <= px <= COORD_LIMIT,
        -COORD_LIMIT <= py <= COORD_LIMIT,
    ensures
        r is Some <==> covered(*t, px as int, py as int),
        r is Some ==> r->0.bar@ == perspective_weights(*t, px as int, py as int),
        r is Some ==> r->0.depth as int == fragment_depth(*t, px as int, py as int),
        r is Some ==> -DEPTH_LIMIT <= r->0.depth <= DEPTH_LIMIT,
{
    let ghost (ipx, ipy) = (px as int, py as int);
    let x0 = t[0].x as i128;
    let y0 = t[0].y as i128;
    let x1 = t[1].x as i128;
    let y1 = t[1].y as i128;
    let x2 = t[2].x as i128;
    let y2 = t[2].y as i128;
    let qx = px as i128;
    let qy = py as i128;
    proof {
        let l = 131072int;
        lemma_mul_abs_le(x1 - x0, y2 - y0, l, l);
        lemma_mul_abs_le(x2 - x0, y1 - y0, l, l);
        lemma_mul_abs_le(x1 - qx, y2 - qy, l, l);
        lemma_mul_abs_le(x2 - qx, y1 - qy, l, l);
        lemma_mul_abs_le(x2 - qx, y0 - qy, l, l);
        lemma_mul_abs_le(x0 - qx, y2 - qy, l, l);
        lemma_mul_abs_le(x0 - qx, y1 - qy, l, l);
        lemma_mul_abs_le(x1 - qx, y0 - qy, l, l);
    }
    let area = (x1 - x0) * (y2 - y0) - (x2 - x0) * (y1 - y0);
    if area == 0 {
        return None;
    }
    let e0 = (x1 - qx) * (y2 - qy) - (x2 - qx) * (y1 - qy);
    let e1 = (x2 - qx) * (y0 - qy) - (x0 - qx) * (y2 - qy);
    let e2 = (x0 - qx) * (y1 - qy) - (x1 - qx) * (y0 - qy);
    let s0 = if area > 0 { e0 } else { -e0 };
    let s1 = if area > 0 { e1 } else { -e1 };
    let s2 = if area > 0 { e2 } else { -e2 };
    assert(seq![s0 as int, s1 as int, s2 as int] =~= screen_weights(*t, ipx, ipy));
    if s0 < 0 || s1 < 0 || s2 < 0 {
        return None;
    }
    let w0 = t[0].w as i128;
    let w1 = t[1].w as i128;
    let w2 = t[2].w as i128;
    proof {
        let wl = 4096int;
        let sl = 34359738368int;
        lemma_mul_abs_le(w1 as int, w2 as int, wl, wl);
        lemma_mul_abs_le(w2 as int, w0 as int, wl, wl);
        lemma_mul_abs_le(w0 as int, w1 as int, wl, wl);
        assert(1 <= w1 * w2) by (nonlinear_arith)
            requires w1 >= 1, w2 >= 1;
        assert(1 <= w2 * w0) by (nonlinear_arith)
            requires w2 >= 1, w0 >= 1;
        assert(1 <= w0 * w1) by (nonlinear_arith)
            requires w0 >= 1, w1 >= 1;
        lemma_mul_abs_le(s0 as int, w1 * w2, sl, 16777216);
        lemma_mul_abs_le(s1 as int, w2 * w0, sl, 16777216);
        lemma_mul_abs_le(s2 as int, w0 * w1, sl, 16777216);
    }
    let c0 = s0 * (w1 * w2);
    let c1 = s1 * (w2 * w0);
    let c2 = s2 * (w0 * w1);
    let total = c0 + c1 + c2;
    proof {
        lemma_edges_sum(*t, ipx, ipy);
        assert(s0 + s1 + s2 == abs(area as int));
        assert(c0 >= s0) by (nonlinear_arith)
            requires c0 == s0 * (w1 * w2), s0 >= 0, w1 * w2 >= 1;
        assert(c1 >= s1) by (nonlinear_arith)
            requires c1 == s1 * (w2 * w0), s1 >= 0, w2 * w0 >= 1;
        assert(c2 >= s2) by (nonlinear_arith)
            requires c2 == s2 * (w0 * w1), s2 >= 0, w0 * w1 >= 1;
        let dl = DEPTH_LIMIT as int;
        lemma_mul_abs_le(c0 as int, t[0].z as int, c0 as int, dl);
        lemma_mul_abs_le(c1 as int, t[1].z as int, c1 as int, dl);
        lemma_mul_abs_le(c2 as int, t[2].z as int, c2 as int, dl);
        assert(c0 * dl + c1 * dl + c2 * dl == total * dl) by (nonlinear_arith)
            requires total == c0 + c1 + c2;
    }
    let num = c0 * (t[0].z as i128) + c1 * (t[1].z as i128) + c2 * (t[2].z as i128);
    proof {
        lemma_div_trunc_bound(num as int, total as int, DEPTH_LIMIT as int);
    }
    let depth = num / total;
    let bar = Vector::new(vec![c0 as i64, c1 as i64, c2 as i64]);
    assert(bar@ =~= perspective_weights(*t, ipx, ipy));
    Some(Fragment { bar, depth: depth as i64 })
}

fn min_of(a: i64, b: i64, c: i64) -> (r: i64)
    ensures
        r == min3(a as int, b as int, c as int),
{
    if a <= b && a <= c {
        a
    } else if b <= c {
        b
    } else {
        c
    }
}

fn max_of(a: i64, b: i64, c: i64) -> (r: i64)
    ensures
        r == max3(a as int, b as int, c as int),
{
    if a >= b && a >= c {
        a
    } else if b >= c {
        b
    } else {
        c
    }
}

/// The colour and depth buffers that triangles are drawn into. Both are
/// indexed by column, then row; a larger depth is nearer.
pub struct Scene {
    scene: Vec<Vec<u32>>,
    zbuffer: Vec<Vec<i64>>,
    width: usize,
    height: usize,
}

impl Scene {
    pub closed spec fn wf(&self) -> bool {
        &&& self.scene@.len() == self.width
        &&& self.zbuffer@.len() == self.width
        &&& forall|x: int| 0 <= x < self.width ==> (#[trigger] self.scene@[x])@.len() == self.height
        &&& forall|x: int| 0 <= x < self.width ==> (#[trigger] self.zbuffer@[x])@.len() == self.height
        &&& self.width <= COORD_LIMIT
        &&& self.height <= COORD_LIMIT
    }

    pub closed spec fn width_spec(&self) -> nat {
        self.width as nat
    }

    pub closed spec fn height_spec(&self) -> nat {
        self.height as nat
    }

    pub closed spec fn color_at(&self, x: int, y: int) -> u32 {
        self.scene@[x]@[y]
    }

    pub closed spec fn depth_at(&self, x: int, y: int) -> int {
        self.zbuffer@[x]@[y] as int
    }

    /// A `width` by `height` scene: every pixel black, every depth the farthest.
    pub fn new(width: usize, height: usize) -> (r: Scene)
        requires
            width <= COORD_LIMIT,
            height <= COORD_LIMIT,
        ensures
            r.wf(),
            r.width_spec() == width,
            r.height_spec() == height,
            forall|x: int, y: int|
                0 <= x < width && 0 <= y < height ==> #[trigger] r.color_at(x, y) == 0 && r.depth_at(
                    x,
                    y,
                ) == i64::MIN,
    {
        let mut scene: Vec<Vec<u32>> = Vec::new();
        let mut zbuffer: Vec<Vec<i64>> = Vec::new();
        let mut x: usize = 0;
        while x < width
            invariant
                x <= width,
                scene@.len() == x,
                zbuffer@.len() == x,
                forall|k: int| 0 <= k < x ==> (#[trigger] scene@[k])@.len() == height,
                forall|k: int| 0 <= k < x ==> (#[trigger] zbuffer@[k])@.len() == height,
                forall|k: int, y: int| 0 <= k < x && 0 <= y < height ==> (#[trigger] scene@[k]@[y]) == 0,
                forall|k: int, y: int|
                    0 <= k < x && 0 <= y < height ==> (#[trigger] zbuffer@[k]@[y]) == i64::MIN,
            decreases width - x,
        {
            let mut col: Vec<u32> = Vec::new();
            let mut depths: Vec<i64> = Vec::new();
            let mut y: usize = 0;
            while y < height
                invariant
                    y <= height,
                    col@.len() == y,
                    depths@.len() == y,
                    forall|k: int| 0 <= k < y ==> col@[k] == 0,
                    forall|k: int| 0 <= k < y ==> depths@[k] == i64::MIN,
                decreases height - y,
            {
                col.push(0);
                depths.push(i64::MIN);
                y = y + 1;
            }
            scene.push(col);
            zbuffer.push(depths);
            x = x + 1;
        }
        Scene { scene, zbuffer, width, height }
    }

    pub fn width(&self) -> (r: usize)
        ensures
            r == self.width_spec(),
    {
        self.width
    }

    pub fn height(&self) -> (r: usize)
        ensures
            r == self.height_spec(),
    {
        self.height
    }

    /// The colour of pixel `(x, y)`.
    pub fn get(&self, x: usize, y: usize) -> (r: u32)
        requires
            self.wf(),
            x < self.width_spec(),
            y < self.height_spec(),
        ensures
            r == self.color_at(x as int, y as int),
    {
        self.scene[x][y]
    }

    /// The depth stored for pixel `(x, y)`.
    pub fn depth(&self, x: usize, y: usize) -> (r: i64)
        requires
            self.wf(),
            x < self.width_spec(),
            y < self.height_spec(),
        ensures
            r as int == self.depth_at(x as int, y as int),
    {
        self.zbuffer[x][y]
    }

    /// Paints pixel `(x, y)`; its depth is left as it was.
    pub fn set(&mut self, x: usize, y: usize, color: u32)
        requires
            old(self).wf(),
            x < old(self).width_spec(),
            y < old(self).height_spec(),
        ensures
            final(self).wf(),
            final(self).width_spec() == old(self).width_spec(),
            final(self).height_spec() == old(self).height_spec(),
            forall|a: int, b: int|
                0 <= a < old(self).width_spec() && 0 <= b < old(self).height_spec()
                    ==> #[trigger] final(self).color_at(a, b) == if a == x && b == y {
                    color
                } else {
                    old(self).color_at(a, b)
                },
            forall|a: int, b: int|
                0 <= a < old(self).width_spec() && 0 <= b < old(self).height_spec()
                    ==> #[trigger] final(self).depth_at(a, b) == old(self).depth_at(a, b),
    {
        let ghost before = self.scene@;
        let mut col: Vec<u32> = Vec::new();
        self.scene.set_and_swap(x, &mut col);
        assert(col@ == before[x as int]@);
        col.set(y, color);
        let ghost new_col = col@;
        self.scene.set_and_swap(x, &mut col);
        assert(self.scene@ == before.update(x as int, self.scene@[x as int]));
        assert(self.scene@[x as int]@ == new_col);
        assert(new_col == before[x as int]@.update(y as int, color));
    }

    fn set_depth(&mut self, x: usize, y: usize, depth: i64)
        requires
            old(self).wf(),
            x < old(self).width_spec(),
            y < old(self).height_spec(),
        ensures
            final(self).wf(),
            final(self).width_spec() == old(self).width_spec(),
            final(self).height_spec() == old(self).height_spec(),
            forall|a: int, b: int|
                0 <= a < old(self).width_spec() && 0 <= b < old(self).height_spec()
                    ==> #[trigger] final(self).depth_at(a, b) == if a == x && b == y {
                    depth as int
                } else {
                    old(self).depth_at(a, b)
                },
            forall|a: int, b: int|
                0 <= a < old(self).width_spec() && 0 <= b < old(self).height_spec()
                    ==> #[trigger] final(self).color_at(a, b) == old(self).color_at(a, b),
    {
        let ghost before = self.zbuffer@;
        let mut col: Vec<i64> = Vec::new();
        self.zbuffer.set_and_swap(x, &mut col);
        assert(col@ == before[x as int]@);
        col.set(y, depth);
        let ghost new_col = col@;
        self.zbuffer.set_and_swap(x, &mut col);
        assert(self.zbuffer@ == before.update(x as int, self.zbuffer@[x as int]));
        assert(self.zbuffer@[x as int]@ == new_col);
        assert(new_col == before[x as int]@.update(y as int, depth));
    }

    /// Draws a triangle: every pixel of the scene inside the triangle's
    /// bounding box that the triangle covers and whose interpolated depth is
    /// nearer than the stored one gets the shader's colour and the new depth,
    /// unless the shader discards it. A triangle of zero area draws nothing.
    pub fn triangle<S: Shader>(&mut self, t: [ScreenVertex; 3], shader: &S)
        requires
            old(self).wf(),
            vertex_ok(t[0]),
            vertex_ok(t[1]),
            vertex_ok(t[2]),
        ensures
            final(self).wf(),
            final(self).width_spec() == old(self).width_spec(),
            final(self).height_spec() == old(self).height_spec(),
            forall|x: int, y: int|
                0 <= x < old(self).width_spec() && 0 <= y < old(self).height_spec() ==> {
                    &&& #[trigger] final(self).color_at(x, y) == color_after(
                        t,
                        *shader,
                        old(self).width_spec() as int,
                        old(self).height_spec() as int,
                        x,
                        y,
                        old(self).color_at(x, y),
                        old(self).depth_at(x, y),
                    )
                    &&& final(self).depth_at(x, y) == depth_after(
                        t,
                        *shader,
                        old(self).width_spec() as int,
                        old(self).height_spec() as int,
                        x,
                        y,
                        old(self).depth_at(x, y),
                    )
                },
    {
        let ghost w = self.width as int;
        let ghost h = self.height as int;
        if self.width == 0 || self.height == 0 {
            return;
        }
        let lo_x = min_of(t[0].x, t[1].x, t[2].x);
        let hi_x = max_of(t[0].x, t[1].x, t[2].x);
        let lo_y = min_of(t[0].y, t[1].y, t[2].y);
        let hi_y = max_of(t[0].y, t[1].y, t[2].y);
        let x_start: i64 = if lo_x < 0 { 0 } else { lo_x };
        let y_start: i64 = if lo_y < 0 { 0 } else { lo_y };
        let x_end: i64 = if hi_x > self.width as i64 - 1 { self.width as i64 - 1 } else { hi_x };
        let y_end: i64 = if hi_y > self.height as i64 - 1 { self.height as i64 - 1 } else { hi_y };
        let mut x: i64 = x_start;
        while x <= x_end
            invariant
                self.wf(),
                self.width == old(self).width,
                self.height == old(self).height,
                w == self.width,
                h == self.height,
                w >= 1,
                h >= 1,
                vertex_ok(t[0]),
                vertex_ok(t[1]),
                vertex_ok(t[2]),
                lo_x == min3(t[0].x as int, t[1].x as int, t[2].x as int),
                hi_x == max3(t[0].x as int, t[1].x as int, t[2].x as int),
                lo_y == min3(t[0].y as int, t[1].y as int, t[2].y as int),
                hi_y == max3(t[0].y as int, t[1].y as int, t[2].y as int),
                x_start == (if lo_x < 0 { 0 } else { lo_x }),
                y_start == (if lo_y < 0 { 0 } else { lo_y }),
                x_end == (if hi_x > w - 1 { w - 1 } else { hi_x as int }),
                y_end == (if hi_y > h - 1 { h - 1 } else { hi_y as int }),
                x_start <= x,
                x <= x_end + 1 || x == x_start,
                forall|a: int, b: int|
                    0 <= a < w && 0 <= b < h ==> #[trigger] self.color_at(a, b) == (if a < x {
                        color_after(t, *shader, w, h, a, b, old(self).color_at(a, b), old(self).depth_at(a, b))
                    } else {
                        old(self).color_at(a, b)
                    }),
                forall|a: int, b: int|
                    0 <= a < w && 0 <= b < h ==> #[trigger] self.depth_at(a, b) == (if a < x {
                        depth_after(t, *shader, w, h, a, b, old(self).depth_at(a, b))
                    } else {
                        old(self).depth_at(a, b)
                    }),
            decreases x_end + 1 - x,
        {
            let mut y: i64 = y_start;
            while y <= y_end
                invariant
                    self.wf(),
                    self.width == old(self).width,
                    self.height == old(self).height,
                    w == self.width,
                    h == self.height,
                    vertex_ok(t[0]),
                    vertex_ok(t[1]),
                    vertex_ok(t[2]),
                    lo_x == min3(t[0].x as int, t[1].x as int, t[2].x as int),
                    hi_x == max3(t[0].x as int, t[1].x as int, t[2].x as int),
                    lo_y == min3(t[0].y as int, t[1].y as int, t[2].y as int),
                    hi_y == max3(t[0].y as int, t[1].y as int, t[2].y as int),
                    y_start == (if lo_y < 0 { 0 } else { lo_y }),
                    y_end == (if hi_y > h - 1 { h - 1 } else { hi_y as int }),
                    0 <= x_start <= x <= x_end,
                    x_end <= w - 1,
                    x_end <= hi_x,
                    x_start >= lo_x,
                    y_start <= y,
                    y <= y_end + 1 || y == y_start,
                    forall|a: int, b: int|
                        0 <= a < w && 0 <= b < h ==> #[trigger] self.color_at(a, b) == (if a < x
                            || (a == x && b < y) {
                            color_after(t, *shader, w, h, a, b, old(self).color_at(a, b), old(self).depth_at(a, b))
                        } else {
                            old(self).color_at(a, b)
                        }),
                    forall|a: int, b: int|
                        0 <= a < w && 0 <= b < h ==> #[trigger] self.depth_at(a, b) == (if a < x
                            || (a == x && b < y) {
                            depth_after(t, *shader, w, h, a, b, old(self).depth_at(a, b))
                        } else {
                            old(self).depth_at(a, b)
                        }),
                decreases y_end + 1 - y,
            {
                let ux = x as usize;
                let uy = y as usize;
                let od = self.zbuffer[ux][uy];
                assert(od as int == self.depth_at(x as int, y as int));
                assert(od as int == old(self).depth_at(x as int, y as int));
                assert(in_box(t, w, h, x as int, y as int));
                match fragment_at(&t, x, y) {
                    Some(frag) => {
                        if frag.depth > od {
                            let (color, discard) = shader.fragment(&frag.bar);
                            if !discard {
                                self.set(ux, uy, color);
                                self.set_depth(ux, uy, frag.depth);
                            }
                        }
                    },
                    None => {},
                }
                y = y + 1;
            }
            assert forall|a: int, b: int| 0 <= a < w && 0 <= b < h && a == x && b >= y implies
                !in_box(t, w, h, a, b) by {}
            x = x + 1;
        }
    }
}

/// A covered pixel's perspective weights are non-negative with a positive sum.
proof fn lemma_weights_positive(t: [ScreenVertex; 3], px: int, py: int)
    requires
        vertex_ok(t[0]),
        vertex_ok(t[1]),
        vertex_ok(t[2]),
        covered(t, px, py),
    ensures
        weight_sum(perspective_weights(t, px, py)) >= 1,
{
    let s = screen_weights(t, px, py);
    lemma_edges_sum(t, px, py);
    assert(s[0] + s[1] + s[2] == abs(area(t)));
    let (w0, w1, w2) = (t[0].w as int, t[1].w as int, t[2].w as int);
    assert(s[0] * (w1 * w2) >= s[0]) by (nonlinear_arith)
        requires s[0] >= 0, w1 >= 1, w2 >= 1;
    assert(s[1] * (w2 * w0) >= s[1]) by (nonlinear_arith)
        requires s[1] >= 0, w2 >= 1, w0 >= 1;
    assert(s[2] * (w0 * w1) >= s[2]) by (nonlinear_arith)
        requires s[2] >= 0, w0 >= 1, w1 >= 1;
}

/// Where every corner has depth `z`, every covered pixel gets depth `z`.
proof fn lemma_flat_depth(t: [ScreenVertex; 3], px: int, py: int, z: int)
    requires
        vertex_ok(t[0]),
        vertex_ok(t[1]),
        vertex_ok(t[2]),
        covered(t, px, py),
        t[0].z == z,
        t[1].z == z,
        t[2].z == z,
    ensures
        fragment_depth(t, px, py) == z,
{
    let c = perspective_weights(t, px, py);
    let total = weight_sum(c);
    lemma_weights_positive(t, px, py);
    assert(c[0] * z + c[1] * z + c[2] * z == total * z) by (nonlinear_arith)
        requires total == c[0] + c[1] + c[2];
    let n = c[0] * t[0].z + c[1] * t[1].z + c[2] * t[2].z;
    assert(n == total * z);
    assert(fragment_depth(t, px, py) == div_trunc(n, total));
    assert(abs(total) == total);
    if z >= 0 {
        assert(total * z >= 0) by (nonlinear_arith)
            requires total >= 1, z >= 0;
        assert((total * z) / total == z) by (nonlinear_arith)
            requires total >= 1;
    } else {
        assert(total * z < 0) by (nonlinear_arith)
            requires total >= 1, z < 0;
        assert(abs(total * z) == total * (-z)) by (nonlinear_arith)
            requires total >= 1, z < 0;
        assert((total * (-z)) / total == -z) by (nonlinear_arith)
            requires total >= 1;
    }
}

/// A triangle whose three corners share one row has no area and changes no
/// pixel, whatever the shader.
pub proof fn law_flat_triangle_draws_nothing<S: Shader>(
    t: [ScreenVertex; 3],
    shader: S,
    width: int,
    height: int,
    px: int,
    py: int,
    old_color: u32,
    old_depth: int,
)
    requires
        t[0].y == t[1].y,
        t[1].y == t[2].y,
    ensures
        color_after(t, shader, width, height, px, py, old_color, old_depth) == old_color,
        depth_after(t, shader, width, height, px, py, old_depth) == old_depth,
{
    assert(area(t) == 0);
}

/// Two triangles over the same corners, the first at depth `za` everywhere,
/// the second nearer at depth `zb`: drawn in either order onto a pixel that
/// both cover and that held a farther depth, the pixel ends with the second
/// triangle's colour, provided neither shader discards there.
pub proof fn law_nearer_wins<S1: Shader, S2: Shader>(
    ta: [ScreenVertex; 3],
    tb: [ScreenVertex; 3],
    sa: S1,
    sb: S2,
    width: int,
    height: int,
    px: int,
    py: int,
    za: int,
    zb: int,
    old_color: u32,
    old_depth: int,
)
    requires
        forall|i: int|
            0 <= i < 3 ==> vertex_ok(#[trigger] ta[i]) && vertex_ok(tb[i]) && ta[i].x == tb[i].x
                && ta[i].y == tb[i].y && ta[i].w == tb[i].w && ta[i].z == za && tb[i].z == zb,
        za < zb,
        old_depth < zb,
        in_box(ta, width, height, px, py),
        covered(ta, px, py),
        !sa.shade(perspective_weights(ta, px, py)).1,
        !sb.shade(perspective_weights(tb, px, py)).1,
    ensures
        ({
            let c1 = color_after(ta, sa, width, height, px, py, old_color, old_depth);
            let d1 = depth_after(ta, sa, width, height, px, py, old_depth);
            color_after(tb, sb, width, height, px, py, c1, d1)
        }) == sb.shade(perspective_weights(tb, px, py)).0,
        ({
            let c1 = color_after(tb, sb, width, height, px, py, old_color, old_depth);
            let d1 = depth_after(tb, sb, width, height, px, py, old_depth);
            color_after(ta, sa, width, height, px, py, c1, d1)
        }) == sb.shade(perspective_weights(tb, px, py)).0,
{
    assert(vertex_ok(ta[0]) && vertex_ok(ta[1]) && vertex_ok(ta[2]));
    assert(vertex_ok(tb[0]) && vertex_ok(tb[1]) && vertex_ok(tb[2]));
    assert(ta[0].x == tb[0].x && ta[0].y == tb[0].y && ta[0].w == tb[0].w && ta[0].z == za
        && tb[0].z == zb);
    assert(ta[1].x == tb[1].x && ta[1].y == tb[1].y && ta[1].w == tb[1].w && ta[1].z == za
        && tb[1].z == zb);
    assert(ta[2].x == tb[2].x && ta[2].y == tb[2].y && ta[2].w == tb[2].w && ta[2].z == za
        && tb[2].z == zb);
    assert(screen_weights(ta, px, py) == screen_weights(tb, px, py));
    assert(covered(tb, px, py));
    assert(in_box(tb, width, height, px, py));
    lemma_flat_depth(ta, px, py, za);
    lemma_flat_depth(tb, px, py, zb);
}

} // verus!
