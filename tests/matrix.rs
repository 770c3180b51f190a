use softrender::geometry::Vector;
use softrender::matrix::Matrix;

fn m(rows: &[&[i64]]) -> Matrix {
    let mut r = Matrix::new(rows.len(), rows[0].len());
    for (i, row) in rows.iter().enumerate() {
        for (j, x) in row.iter().enumerate() {
            r.set(i, j, *x);
        }
    }
    r
}

fn entries(a: &Matrix) -> Vec<Vec<i64>> {
    (0..a.nrows()).map(|i| (0..a.ncols()).map(|j| a.get(i, j)).collect()).collect()
}

#[test]
fn identity_is_neutral() {
    let a = m(&[&[1, 2, 3], &[4, 5, 6]]);
    assert_eq!(entries(&a.mul(&Matrix::identity(3))), entries(&a));
    let x = Vector::new(vec![7, -8, 9]);
    assert_eq!(Matrix::identity(3).mul_vec(&x).to_vec(), vec![7, -8, 9]);
}

#[test]
fn product_is_associative() {
    let a = m(&[&[1, 2], &[3, 4], &[5, 6]]);
    let b = m(&[&[1, 0, -1], &[2, 3, 1]]);
    let c = m(&[&[2, 1], &[0, -1], &[4, 3]]);
    let left = a.mul(&b).mul(&c);
    let right = a.mul(&b.mul(&c));
    assert_eq!(entries(&left), entries(&right));
    assert_eq!(entries(&a.mul(&b)), vec![vec![5, 6, 1], vec![11, 12, 1], vec![17, 18, 1]]);
}

#[test]
fn transpose_and_columns() {
    let a = m(&[&[1, 2, 3], &[4, 5, 6]]);
    let t = a.trunspose();
    assert_eq!(entries(&t), vec![vec![1, 4], vec![2, 5], vec![3, 6]]);
    assert_eq!(a.col(1).to_vec(), vec![2, 5]);
    assert_eq!(a.row(1).to_vec(), vec![4, 5, 6]);
    let mut b = a;
    b.set_col(2, &Vector::new(vec![0, -1]));
    assert_eq!(entries(&b), vec![vec![1, 2, 0], vec![4, 5, -1]]);
}

#[test]
fn new_matrix_is_zero() {
    let z = Matrix::new(2, 3);
    assert_eq!(entries(&z), vec![vec![0, 0, 0], vec![0, 0, 0]]);
    assert_eq!((z.nrows(), z.ncols()), (2, 3));
}

#[test]
fn homogeneous_round_trip() {
    let p = Vector::new(vec![6, -9, 3]);
    let h = Matrix::from(&p);
    assert_eq!(entries(&h), vec![vec![6], vec![-9], vec![3], vec![1]]);
    assert_eq!(Vector::from(&h).to_vec(), vec![6, -9, 3]);
    let scaled = m(&[&[12], &[-18], &[7], &[2]]);
    assert_eq!(Vector::from(&scaled).to_vec(), vec![6, -9, 3]);
}

#[test]
fn inverse_scales_to_diagonal() {
    let a = m(&[&[2, 1, 0], &[1, 3, 1], &[0, 1, 4]]);
    let (inv, d) = a.inverse().expect("invertible");
    let prod = a.mul(&inv);
    for i in 0..3 {
        for j in 0..3 {
            if i == j {
                assert_ne!(prod.get(i, j), 0);
                assert_eq!(prod.get(i, j), d.index(i));
            } else {
                assert_eq!(prod.get(i, j), 0);
            }
        }
    }
}

#[test]
fn left_inverse_scales_to_diagonal() {
    let a = m(&[&[0, 2, 1], &[3, 0, 0], &[1, 1, 5]]);
    let (inv, d) = a.left_inverse().expect("invertible");
    let prod = inv.mul(&a);
    for i in 0..3 {
        for j in 0..3 {
            let expected = if i == j { d.index(i) } else { 0 };
            assert_eq!(prod.get(i, j), expected);
        }
        assert_ne!(d.index(i), 0);
    }
}

#[test]
fn inverse_of_identity() {
    let (inv, d) = Matrix::identity(4).inverse().expect("invertible");
    let prod = inv.mul(&Matrix::identity(4));
    for i in 0..4 {
        assert_eq!(prod.get(i, i), d.index(i));
    }
}

#[test]
fn singular_matrices_have_no_inverse() {
    assert!(m(&[&[1, 2], &[0, 0]]).inverse().is_none());
    assert!(m(&[&[0, 2], &[0, 5]]).inverse().is_none());
    assert!(m(&[&[1, 2], &[2, 4]]).inverse().is_none());
    assert!(Matrix::new(3, 3).inverse().is_none());
    assert!(m(&[&[1, 2], &[0, 0]]).left_inverse().is_none());
    assert!(m(&[&[0, 2], &[0, 5]]).left_inverse().is_none());
}

#[test]
fn homogeneous_to_fixed_vectors() {
    use_fixed();
}

fn use_fixed() {
    let h = m(&[&[8], &[-6], &[4], &[2]]);
    let p = softrender::geometry::Vector3D::from(&h);
    assert_eq!((p.x, p.y, p.z), (4, -3, 2));
    let h5 = m(&[&[9], &[-9], &[3], &[7], &[-3]]);
    let q = softrender::geometry::Vector4D::from(&h5);
    assert_eq!((q.x, q.y, q.z, q.t), (-3, 3, -1, -2));
}

#[test]
fn swap_matrix_needs_pivoting() {
    let a = m(&[&[0, 1], &[1, 0]]);
    let (inv, d) = a.inverse().expect("invertible");
    assert_eq!(d.to_vec(), vec![1, 1]);
    assert_eq!(entries(&inv), vec![vec![0, 1], vec![1, 0]]);
}

#[test]
fn inverse_of_scaled_rotation() {
    let a = m(&[&[3, -4, 0], &[4, 3, 0], &[0, 0, 5]]);
    let (inv, d) = a.inverse().expect("invertible");
    let prod = a.mul(&inv);
    for i in 0..3 {
        for j in 0..3 {
            let expected = if i == j { d.index(i) } else { 0 };
            assert_eq!(prod.get(i, j), expected);
        }
    }
}
