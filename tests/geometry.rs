use softrender::geometry::{Vector, Vector2D, Vector3D, Vector4D};

fn v(xs: &[i64]) -> Vector {
    Vector::new(xs.to_vec())
}

#[test]
fn adding_zero_and_subtracting_self() {
    let a = v(&[3, -7, 12, 0]);
    let zero = Vector::zero(4);
    assert_eq!(a.add(&zero).to_vec(), vec![3, -7, 12, 0]);
    assert_eq!(a.sub(&a).to_vec(), vec![0, 0, 0, 0]);
}

#[test]
fn cross_product_is_orthogonal() {
    let a = v(&[1, 2, 3]);
    let b = v(&[-4, 5, 6]);
    let c = a.bitxor(&b);
    assert_eq!(c.to_vec(), vec![-3, -18, 13]);
    assert_eq!(c.dot(&a), 0);
    assert_eq!(c.dot(&b), 0);
}

#[test]
fn scale_and_dot() {
    let a = v(&[1, -2, 3]);
    assert_eq!(a.mul(-3).to_vec(), vec![-3, 6, -9]);
    assert_eq!(a.dot(&v(&[4, 5, 6])), 12);
}

#[test]
fn norm_is_truncated_square_root() {
    assert_eq!(v(&[3, 4, 0]).norm(), 5);
    assert_eq!(v(&[1, 1, 1]).norm(), 1);
    assert_eq!(v(&[2, 3, 6]).norm(), 7);
    assert_eq!(v(&[0, 0, 0]).norm(), 0);
}

#[test]
fn normalize_scales_to_length() {
    assert_eq!(v(&[3, 4, 0]).normalize(10).to_vec(), vec![6, 8, 0]);
    assert_eq!(v(&[0, -7, 0]).normalize(100).to_vec(), vec![0, -100, 0]);
    assert_eq!(v(&[-3, 4, 0]).normalize(1).to_vec(), vec![0, 0, 0]);
}

#[test]
fn embed_and_proj() {
    let a = v(&[5, 6]);
    assert_eq!(a.embed(4, 1).to_vec(), vec![5, 6, 1, 1]);
    assert_eq!(a.embed(4, 1).proj(2).to_vec(), vec![5, 6]);
}

#[test]
fn vector_set_and_index() {
    let mut a = v(&[1, 2, 3]);
    a.set(1, 9);
    assert_eq!(a.index(1), 9);
    assert_eq!(a.len(), 3);
}

#[test]
fn fixed_vectors() {
    let p = Vector2D::new(1i64, 2);
    assert_eq!((p.x(), p.y()), (1, 2));
    let q = p.add(Vector2D::new(3, 4)).mul(2);
    assert_eq!((q.x, q.y), (8, 12));
    let a = Vector3D::new(1i64, 0, 0);
    let b = Vector3D::new(0i64, 1, 0);
    let c = a.bitxor(b);
    assert_eq!((c.x(), c.y(), c.z()), (0, 0, 1));
    let d = Vector3D::new(3i64, 4, 0);
    assert_eq!(d.norm(), 5);
    let n = d.normalize(10);
    assert_eq!((n.x, n.y, n.z), (6, 8, 0));
    let mut e = Vector3D::new(1i64, 2, 3);
    e.index_mut(2, 7);
    assert_eq!(e.index(2), 7);
    assert_eq!(e.sub(Vector3D::new(1, 1, 1)).z, 6);
    let f = Vector4D::new(1i64, 2, 2, 4);
    assert_eq!((f.x(), f.y(), f.z(), f.t()), (1, 2, 2, 4));
    assert_eq!(f.norm(), 5);
    let mut g = f;
    g.index_mut(3, 0);
    assert_eq!(g.index(3), 0);
    assert_eq!(g.index(0), 1);
}

#[test]
fn cast_narrows_when_it_fits() {
    assert_eq!(v(&[1, -2, 2147483647]).cast(), Some(vec![1i32, -2, i32::MAX]));
    assert_eq!(v(&[1, 2147483648]).cast(), None);
    assert_eq!(v(&[i64::MIN]).cast(), None);
}

#[test]
fn quotient_rounds_toward_zero() {
    use_quotient();
}

fn use_quotient() {
    assert_eq!(softrender::numeric::quotient(7, 2), 3);
    assert_eq!(softrender::numeric::quotient(-7, 2), -3);
    assert_eq!(softrender::numeric::quotient(7, -2), -3);
    assert_eq!(softrender::numeric::quotient(i64::MIN, 1), i64::MIN);
}

#[test]
fn fixed_vector_cast() {
    let a = Vector3D::new(1i64, -2, 3).cast().expect("fits");
    assert_eq!((a.x, a.y, a.z), (1i32, -2, 3));
    assert!(Vector2D::new(0i64, 1 << 40).cast().is_none());
    let b = Vector4D::new(5i64, 6, 7, 8).cast().expect("fits");
    assert_eq!(b.t, 8i32);
}
