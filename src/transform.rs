use vstd::prelude::*;

use crate::geometry::dot_fits;
use crate::matrix::{column, mat_mul, Matrix};
use crate::numeric::{div_trunc, quotient};
use crate::scene::{vertex_ok, ScreenVertex, COORD_LIMIT, DEPTH_LIMIT, W_LIMIT};

verus! {

/// The matrix that maps normalised device coordinates onto the pixel
/// rectangle at `(x, y)` of size `w` by `h`, and depth onto `0..depth`.
pub open spec fn viewport_matrix(x: int, y: int, w: int, h: int, depth: int) -> Seq<Seq<int>> {
    let (hw, hh, hd) = (div_trunc(w, 2), div_trunc(h, 2), div_trunc(depth, 2));
    seq![
        seq![hw, 0, 0, x + hw],
        seq![0, hh, 0, y + hh],
        seq![0, 0, hd, hd],
        seq![0, 0, 0, 1int],
    ]
}

pub fn viewport(x: i32, y: i32, w: i32, h: i32, depth: i32) -> (r: Matrix)
    ensures
        r.wf(),
        r.rows_spec() == 4,
        r.cols_spec() == 4,
        r@ == viewport_matrix(x as int, y as int, w as int, h as int, depth as int),
{
    let hw = quotient(w as i64, 2);
    let hh = quotient(h as i64, 2);
    let hd = quotient(depth as i64, 2);
    let mut m = Matrix::new(4, 4);
    m.set(0, 0, hw);
    m.set(0, 3, x as i64 + hw);
    m.set(1, 1, hh);
    m.set(1, 3, y as i64 + hh);
    m.set(2, 2, hd);
    m.set(2, 3, hd);
    m.set(3, 3, 1);
    assert(m@ =~= viewport_matrix(x as int, y as int, w as int, h as int, depth as int)) by {
        assert forall|i: int| 0 <= i < 4 implies #[trigger] m@[i] =~= viewport_matrix(
            x as int,
            y as int,
            w as int,
            h as int,
            depth as int,
        )[i] by {}
    }
    m
}

/// Corner `i` of a clip-space triangle (one corner per column of `clip`)
/// after the viewport transform `p = viewport * clip` and the perspective
/// divide: its pixel position, and its clip-space depth and `w`.
pub open spec fn corner_ok(clip: Seq<Seq<int>>, p: Seq<Seq<int>>, i: int) -> bool {
    &&& p[3][i] != 0
    &&& -COORD_LIMIT <= div_trunc(p[0][i], p[3][i]) <= COORD_LIMIT
    &&& -COORD_LIMIT <= div_trunc(p[1][i], p[3][i]) <= COORD_LIMIT
    &&& -DEPTH_LIMIT <= clip[2][i] <= DEPTH_LIMIT
    &&& 1 <= clip[3][i] <= W_LIMIT
}

pub open spec fn corner_is(v: ScreenVertex, clip: Seq<Seq<int>>, p: Seq<Seq<int>>, i: int) -> bool {
    &&& v.x == div_trunc(p[0][i], p[3][i])
    &&& v.y == div_trunc(p[1][i], p[3][i])
    &&& v.z == clip[2][i]
    &&& v.w == clip[3][i]
}

/// The transform fits in `i64` and every corner lands within the
/// rasterizer's limits.
pub open spec fn setup_ok(clip: Seq<Seq<int>>, vp: Seq<Seq<int>>) -> bool {
    &&& forall|i: int, j: int|
        0 <= i < 4 && 0 <= j < 3 ==> dot_fits(#[trigger] vp[i], #[trigger] column(clip, j))
    &&& forall|i: int| 0 <= i < 3 ==> #[trigger] corner_ok(clip, mat_mul(vp, clip, 3), i)
}

/// The screen triangle of a clip-space triangle: the columns of `clip` are
/// its corners in homogeneous coordinates; `None` where `setup_ok` fails.
pub fn to_screen(clip: &Matrix, viewport: &Matrix) -> (r: Option<[ScreenVertex; 3]>)
    requires
        clip.wf(),
        clip.rows_spec() == 4,
        clip.cols_spec() == 3,
        viewport.wf(),
        viewport.rows_spec() == 4,
        viewport.cols_spec() == 4,
    ensures
        r is Some <==> setup_ok(clip@, viewport@),
        r is Some ==> forall|i: int|
            0 <= i < 3 ==> vertex_ok(#[trigger] r->0[i]) && corner_is(
                r->0[i],
                clip@,
                mat_mul(viewport@, clip@, 3),
                i,
            ),
{
    let p = match viewport.checked_mul(clip) {
        Some(p) => p,
        None => return None,
    };
    let ghost pv = mat_mul(viewport@, clip@, 3);
    let mut out = [ScreenVertex { x: 0, y: 0, z: 0, w: 1 }; 3];
    let mut i: usize = 0;
    while i < 3
        invariant
            clip.wf(),
            clip.rows_spec() == 4,
            clip.cols_spec() == 3,
            p.wf(),
            p.rows_spec() == 4,
            p.cols_spec() == 3,
            p@ == pv,
            pv == mat_mul(viewport@, clip@, 3),
            i <= 3,
            forall|k: int| 0 <= k < i ==> #[trigger] corner_ok(clip@, pv, k),
            forall|k: int| 0 <= k < i ==> vertex_ok(#[trigger] out@[k]) && corner_is(out@[k], clip@, pv, k),
        decreases 3 - i,
    {
        let w = p.get(3, i);
        let z = clip.get(2, i);
        let cw = clip.get(3, i);
        let px = p.get(0, i);
        let py = p.get(1, i);
        if w == 0 || (w == -1 && (px == i64::MIN || py == i64::MIN)) {
            proof {
                if w == -1 {
                    assert(div_trunc(i64::MIN as int, -1) > COORD_LIMIT);
                }
                assert(!corner_ok(clip@, pv, i as int));
                assert(!setup_ok(clip@, viewport@));
            }
            return None;
        }
        let x = quotient(px, w);
        let y = quotient(py, w);
        if x < -COORD_LIMIT || x > COORD_LIMIT || y < -COORD_LIMIT || y > COORD_LIMIT || z
            < -DEPTH_LIMIT || z > DEPTH_LIMIT || cw < 1 || cw > W_LIMIT {
            assert(!corner_ok(clip@, pv, i as int));
            assert(!setup_ok(clip@, viewport@));
            return None;
        }
        out.set(i, ScreenVertex { x, y, z, w: cw });
        i = i + 1;
    }
    Some(out)
}

} // verus!
