use ray_tracer::matrix::{matrix, multiply, Matrix};
use ray_tracer::utils::Scalar;

fn s(x: i64) -> Scalar {
    Scalar::from_int(x)
}

fn m(x: i64) -> Scalar {
    Scalar::from_millis(x)
}

#[test]
fn test_matrix() {
    let width = 2;
    let height = 24;
    let Matrix { data } = matrix(width, height);

    assert_eq!(data.len(), height);
    assert_eq!(data[0].len(), width);
}

#[test]
fn test_matrix_from_4x4() {
    let a = Matrix::from(vec![
        vec![s(1), s(2), s(3), s(4)],
        vec![m(5500), m(6500), m(7500), m(8500)],
        vec![s(9), s(10), s(11), s(12)],
        vec![m(13500), m(14500), m(15500), m(16500)],
    ]);

    assert_eq!(a.data[0][0], s(1));
    assert_eq!(a.data[0][3], s(4));
    assert_eq!(a.data[1][0], m(5500));
    assert_eq!(a.data[1][2], m(7500));
    assert_eq!(a.data[2][2], s(11));
    assert_eq!(a.data[3][0], m(13500));
    assert_eq!(a.data[3][2], m(15500));
}

#[test]
fn test_matrix_from_2x2() {
    let a = Matrix::from(vec![vec![s(-3), s(5)], vec![s(1), s(-2)]]);

    assert_eq!(a.data[0][0], s(-3));
    assert_eq!(a.data[0][1], s(5));
    assert_eq!(a.data[1][0], s(1));
    assert_eq!(a.data[1][1], s(-2));
}

#[test]
fn test_matrix_from_3x3() {
    let a = Matrix::from(vec![
        vec![s(-3), s(5), s(0)],
        vec![s(1), s(-2), s(-7)],
        vec![s(0), s(1), s(1)],
    ]);

    assert_eq!(a.data[0][0], s(-3));
    assert_eq!(a.data[1][1], s(-2));
    assert_eq!(a.data[2][2], s(1));
}

#[test]
fn test_matrix_equality() {
    let a = Matrix::from(vec![
        vec![s(1), s(2), s(3), s(4)],
        vec![s(5), s(6), s(7), s(8)],
        vec![s(9), s(8), s(7), s(6)],
        vec![s(5), s(4), s(3), s(2)],
    ]);

    let b = Matrix::from(vec![
        vec![s(1), s(2), s(3), s(4)],
        vec![s(5), s(6), s(7), s(8)],
        vec![s(9), s(8), s(7), s(6)],
        vec![s(5), s(4), s(3), s(2)],
    ]);

    let c = Matrix::from(vec![
        vec![s(2), s(3), s(4), s(5)],
        vec![s(6), s(7), s(8), s(9)],
        vec![s(8), s(7), s(6), s(5)],
        vec![s(4), s(3), s(2), s(1)],
    ]);

    assert!(a == b);
    assert!(a != c);
}

#[test]
fn test_matrix_multiplication() {
    let a = Matrix::from(vec![
        vec![s(1), s(2), s(3), s(4)],
        vec![s(5), s(6), s(7), s(8)],
        vec![s(9), s(8), s(7), s(6)],
        vec![s(5), s(4), s(3), s(2)],
    ]);

    let b = Matrix::from(vec![
        vec![s(-2), s(1), s(2), s(3)],
        vec![s(3), s(2), s(1), s(-1)],
        vec![s(4), s(3), s(6), s(5)],
        vec![s(1), s(2), s(7), s(8)],
    ]);

    let c = Matrix::from(vec![
        vec![s(20), s(22), s(50), s(48)],
        vec![s(44), s(54), s(114), s(108)],
        vec![s(40), s(58), s(110), s(102)],
        vec![s(16), s(26), s(46), s(42)],
    ]);

    assert_eq!(multiply(a, b), c);
}

#[test]
fn test_determinant() {
    let a = Matrix::from(vec![vec![s(1), s(5)], vec![s(-3), s(2)]]);

    assert_eq!(a.determinant(), s(17));
}

#[test]
fn test_submatrix() {
    let a = Matrix::from(vec![
        vec![s(1), s(5), s(0)],
        vec![s(-3), s(2), s(7)],
        vec![s(0), s(6), s(3)],
    ]);
    let submatrix_a = Matrix::from(vec![vec![s(-3), s(2)], vec![s(0), s(6)]]);

    assert_eq!(a.submatrix(0, 2), submatrix_a);

    let b = Matrix::from(vec![
        vec![s(-6), s(1), s(1), s(6)],
        vec![s(-8), s(5), s(8), s(6)],
        vec![s(-1), s(0), s(8), s(2)],
        vec![s(-7), s(1), s(-1), s(-1)],
    ]);
    let submatrix_b = Matrix::from(vec![
        vec![s(-6), s(1), s(6)],
        vec![s(-8), s(8), s(6)],
        vec![s(-7), s(-1), s(-1)],
    ]);

    assert_eq!(b.submatrix(2, 1), submatrix_b);
}

#[test]
fn test_minors() {
    let a = Matrix::from(vec![
        vec![s(3), s(5), s(0)],
        vec![s(2), s(-1), s(-7)],
        vec![s(6), s(-1), s(5)],
    ]);

    assert_eq!(a.minor(1, 0), s(25));
}

#[test]
fn test_cofactors() {
    let a = Matrix::from(vec![
        vec![s(3), s(5), s(0)],
        vec![s(2), s(-1), s(-7)],
        vec![s(6), s(-1), s(5)],
    ]);

    assert_eq!(a.minor(0, 0), s(-12));
    assert_eq!(a.cofactor(0, 0), s(-12));
    assert_eq!(a.minor(1, 0), s(25));
    assert_eq!(a.cofactor(1, 0), s(-25));
}

#[test]
fn test_determinant_of_3x3() {
    let a = Matrix::from(vec![
        vec![s(1), s(2), s(6)],
        vec![s(-5), s(8), s(-4)],
        vec![s(2), s(6), s(4)],
    ]);

    assert_eq!(a.cofactor(0, 0), s(56));
    assert_eq!(a.cofactor(0, 1), s(12));
    assert_eq!(a.cofactor(0, 2), s(-46));
    assert_eq!(a.determinant(), s(-196));
}

#[test]
fn test_determinant_of_4x4() {
    let a = Matrix::from(vec![
        vec![s(-2), s(-8), s(3), s(5)],
        vec![s(-3), s(1), s(7), s(3)],
        vec![s(1), s(2), s(-9), s(6)],
        vec![s(-6), s(7), s(7), s(-9)],
    ]);

    assert_eq!(a.cofactor(0, 0), s(690));
    assert_eq!(a.cofactor(0, 1), s(447));
    assert_eq!(a.cofactor(0, 2), s(210));
    assert_eq!(a.cofactor(0, 3), s(51));
    assert_eq!(a.determinant(), s(-4071));
}

#[test]
fn test_matrix_transpose() {
    let a = Matrix::from(vec![
        vec![s(0), s(9), s(3), s(0)],
        vec![s(9), s(8), s(0), s(8)],
        vec![s(1), s(8), s(5), s(3)],
        vec![s(0), s(0), s(5), s(8)],
    ]);

    let a_transposed = Matrix::from(vec![
        vec![s(0), s(9), s(1), s(0)],
        vec![s(9), s(8), s(8), s(0)],
        vec![s(3), s(0), s(5), s(5)],
        vec![s(0), s(8), s(3), s(8)],
    ]);

    assert!(a.transpose() == a_transposed);
}

#[test]
fn test_identity_matrix_transpose() {
    let identity = Matrix::from(vec![
        vec![s(1), s(0), s(0), s(0)],
        vec![s(0), s(1), s(0), s(0)],
        vec![s(0), s(0), s(1), s(0)],
        vec![s(0), s(0), s(0), s(1)],
    ]);

    let transposed = identity.transpose();

    assert!(transposed == identity);
}

#[test]
fn test_dimensions() {
    let a = Matrix::from(vec![vec![s(1), s(2), s(3)], vec![s(4), s(5), s(6)]]);

    assert_eq!(a.dimensions(), (2, 3));
}

#[test]
fn test_multiplication_by_column() {
    let a = Matrix::from(vec![
        vec![s(1), s(2), s(3), s(4)],
        vec![s(2), s(4), s(4), s(2)],
        vec![s(8), s(6), s(4), s(1)],
        vec![s(0), s(0), s(0), s(1)],
    ]);
    let p = Matrix::from(vec![vec![s(1)], vec![s(2)], vec![s(3)], vec![s(1)]]);
    let expected = Matrix::from(vec![vec![s(18)], vec![s(24)], vec![s(33)], vec![s(1)]]);

    assert_eq!(multiply(a, p), expected);
}

#[test]
fn test_identity_multiplication() {
    let a = Matrix::from(vec![
        vec![s(0), s(1), s(2), s(4)],
        vec![s(1), s(2), s(4), s(8)],
        vec![s(2), s(4), s(8), s(16)],
        vec![s(4), s(8), s(16), s(32)],
    ]);

    let identity = Matrix::from(vec![
        vec![s(1), s(0), s(0), s(0)],
        vec![s(0), s(1), s(0), s(0)],
        vec![s(0), s(0), s(1), s(0)],
        vec![s(0), s(0), s(0), s(1)],
    ]);

    let b = Matrix::from(vec![
        vec![s(0), s(1), s(2), s(4)],
        vec![s(1), s(2), s(4), s(8)],
        vec![s(2), s(4), s(8), s(16)],
        vec![s(4), s(8), s(16), s(32)],
    ]);

    assert_eq!(multiply(a, identity), b);
}

#[test]
fn test_determinant_entries_from_millis() {
    let a = Matrix::from(vec![vec![m(3000), m(5000)], vec![m(-7000), m(1000)]]);

    assert_eq!(a.determinant(), s(38));
}

#[test]
fn test_equality_differs_by_shape() {
    let a = Matrix::from(vec![vec![s(1), s(2)], vec![s(3), s(4)]]);
    let b = Matrix::from(vec![vec![s(1), s(2), s(0)], vec![s(3), s(4), s(0)]]);
    let c = Matrix::from(vec![vec![s(1), s(2)]]);

    assert!(a != b);
    assert!(a != c);
}
