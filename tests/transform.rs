use softrender::geometry::Vector;
use softrender::matrix::Matrix;
use softrender::transform::{to_screen, viewport};

fn clip(cols: [[i64; 4]; 3]) -> Matrix {
    let mut m = Matrix::new(4, 3);
    for (j, col) in cols.iter().enumerate() {
        for (i, x) in col.iter().enumerate() {
            m.set(i, j, *x);
        }
    }
    m
}

#[test]
fn viewport_maps_unit_square() {
    let vp = viewport(10, 20, 100, 50, 255);
    let corner = vp.mul_vec(&Vector::new(vec![1, 1, 1, 1])).to_vec();
    assert_eq!(corner, vec![110, 70, 254, 1]);
    let origin = vp.mul_vec(&Vector::new(vec![0, 0, 0, 1])).to_vec();
    assert_eq!(origin, vec![60, 45, 127, 1]);
}

#[test]
fn clip_corners_reach_the_screen() {
    let vp = viewport(0, 0, 100, 100, 200);
    let c = clip([[0, 0, 4, 1], [1, 0, 6, 1], [0, -2, 8, 2]]);
    let t = to_screen(&c, &vp).expect("in range");
    assert_eq!((t[0].x, t[0].y, t[0].z, t[0].w), (50, 50, 4, 1));
    assert_eq!((t[1].x, t[1].y, t[1].z, t[1].w), (100, 50, 6, 1));
    // (0, -2) scaled by 50, plus 50 times w = 2, divided by w.
    assert_eq!((t[2].x, t[2].y, t[2].z, t[2].w), (50, 0, 8, 2));
}

#[test]
fn clip_setup_rejects_bad_corners() {
    let vp = viewport(0, 0, 100, 100, 200);
    assert!(to_screen(&clip([[0, 0, 4, 0], [1, 0, 6, 1], [0, 1, 8, 1]]), &vp).is_none());
    assert!(to_screen(&clip([[0, 0, 4, 1], [1, 0, 6, 1], [0, 1, 8, -1]]), &vp).is_none());
    let far = i64::MAX / 4;
    assert!(to_screen(&clip([[far, 0, 4, 1], [1, 0, 6, 1], [0, 1, 8, 1]]), &vp).is_none());
}

#[test]
fn checked_products() {
    let a = Vector::new(vec![i64::MAX, 1]);
    assert_eq!(a.checked_dot(&Vector::new(vec![1, 0])), Some(i64::MAX));
    assert_eq!(a.checked_dot(&Vector::new(vec![1, 1])), None);
    assert_eq!(a.checked_dot(&Vector::new(vec![2, 0])), None);
    let big = Matrix::identity(2);
    assert!(big.checked_mul(&Matrix::identity(2)).is_some());
}
