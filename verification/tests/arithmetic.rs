use scirust::error::MatrixError;
use scirust::matrix::Matrix;

#[test]
fn test_sum() {
    let m: Matrix<i64> = Matrix::ones(4, 2);
    let m2 = m.add(&m).unwrap();
    let v = vec![2i64, 2, 2, 2, 2, 2, 2, 2];
    assert_eq!(m2.to_std_vec(), v);
}

#[test]
fn test_sum_fail() {
    let m1: Matrix<i64> = Matrix::ones(4, 2);
    let m2: Matrix<i64> = Matrix::ones(3, 2);
    assert_eq!(m1.add(&m2), Err(MatrixError::DimensionMismatch));
}

#[test]
fn test_sub() {
    let m: Matrix<i64> = Matrix::ones(4, 2);
    let m3 = m.add(&m).unwrap().add(&m).unwrap();
    let m2 = m3.sub(&m).unwrap();
    let v = vec![2i64, 2, 2, 2, 2, 2, 2, 2];
    assert_eq!(m2.to_std_vec(), v);
}

#[test]
fn test_sub_fail() {
    let m1: Matrix<i64> = Matrix::ones(4, 2);
    let m2: Matrix<i64> = Matrix::ones(3, 2);
    assert_eq!(m1.sub(&m2), Err(MatrixError::DimensionMismatch));
}

#[test]
fn test_mult() {
    let m1: Matrix<i64> = Matrix::from_iter_cw(2, 2, 0..4);
    let m2: Matrix<i64> = Matrix::from_iter_cw(2, 2, 0..4);
    let m3 = m1.mul(&m2).unwrap();
    let v = vec![2i64, 3, 6, 11];
    assert_eq!(m3.to_std_vec(), v);
}

#[test]
fn test_eq() {
    let m1: Matrix<i64> = Matrix::from_iter_cw(2, 2, 0..4);
    let m2: Matrix<i64> = Matrix::from_iter_cw(2, 2, 0..4);
    assert_eq!(m1, m2);
    let v = vec![1i64, 2, 3, 4];
    let m1: Matrix<i64> = Matrix::from_slice_cw(2, 2, v.as_slice());
    let m2: Matrix<i64> = Matrix::from_slice_cw(2, 2, v.as_slice());
    assert_eq!(m1, m2);
}

#[test]
fn test_max() {
    let v = vec![4, 5, 11, 12, 0, 1, 2, 3, 19, 17, 3, 1, 7, 8, 5, 6];
    let m: Matrix<i64> = Matrix::from_slice_cw(4, 4, v.as_slice());
    assert_eq!(m.min_scalar_value(), Ok(0));
    assert_eq!(m.max_scalar_value(), Ok(19));
}

#[test]
fn test_mul_elt() {
    let m: Matrix<i64> = Matrix::from_iter_cw(2, 2, 0..4);
    let m2 = m.mul_elt(&m).unwrap();
    let m3: Matrix<i64> = Matrix::from_iter_cw(2, 2, (0..4).map(|x| x * x));
    assert_eq!(m2, m3);
}

#[test]
fn test_div_elt() {
    let m: Matrix<i64> = Matrix::from_iter_cw(2, 2, 1..20);
    let m2 = m.add(&m).unwrap();
    let m3 = m2.div_elt(&m).unwrap();
    assert_eq!(m3.to_std_vec(), vec![2, 2, 2, 2]);
}

#[test]
fn test_add_scalar() {
    let m: Matrix<i64> = Matrix::from_iter_cw(2, 2, 0..4);
    let m2 = m.add_scalar(2);
    assert_eq!(m2.to_std_vec(), vec![2, 3, 4, 5]);
}

#[test]
fn test_mul_scalar() {
    let m: Matrix<i64> = Matrix::from_iter_cw(2, 2, 0..4);
    let m2 = m.mul_scalar(2);
    assert_eq!(m2.to_std_vec(), vec![0, 2, 4, 6]);
}

#[test]
fn test_div_scalar() {
    let m: Matrix<i64> = Matrix::from_iter_cw(2, 2, (0..4).map(|x| x * 3));
    let m2 = m.div_scalar(3);
    assert_eq!(m2.to_std_vec(), vec![0, 1, 2, 3]);
}

#[test]
fn test_pow() {
    let m: Matrix<i64> = Matrix::identity(4, 4);
    let m2 = m.mul_scalar(2);
    assert!(m.is_square());
    let m4 = m2.pow(4).unwrap();
    let m16 = m.mul_scalar(16);
    assert_eq!(m4, m16);
    let m: Matrix<i64> = Matrix::from_iter_cw(2, 2, 0..4);
    assert!(m.is_square());
    let m3 = m.pow(3).unwrap();
    assert!(m3.is_square());
    assert_eq!(m3.to_std_vec(), vec![6, 11, 22, 39]);
    assert_eq!(m.pow(1).unwrap().to_std_vec(), vec![0, 1, 2, 3]);
    assert_eq!(m.pow(2).unwrap(), m.mul(&m).unwrap());
    let mut product = m.clone();
    for _ in 0..9 {
        product = product.mul(&m).unwrap();
    }
    assert_eq!(m.pow(10).unwrap(), product);
}

#[test]
fn test_transpose() {
    let m: Matrix<i64> = Matrix::from_iter_cw(2, 2, 0..4);
    assert_eq!(m.to_std_vec(), vec![0, 1, 2, 3]);
    assert_eq!(m.transpose().to_std_vec(), vec![0, 2, 1, 3]);
    assert_eq!(m.transpose().transpose().to_std_vec(), vec![0, 1, 2, 3]);
    let m: Matrix<i64> = Matrix::from_iter_cw(2, 3, 0..10);
    assert_eq!(m.transpose().to_std_vec(), vec![0, 2, 4, 1, 3, 5]);
    let m4: Matrix<i64> = Matrix::from_iter_cw(2, 5, 9..100);
    let m5 = m4.transpose();
    assert_eq!(m5.transpose(), m4);
}

#[test]
fn test_unary_minus() {
    let m: Matrix<i64> = Matrix::from_iter_cw(2, 2, 0..4);
    let z: Matrix<i64> = Matrix::zeros(2, 2);
    let m2 = m.unary_minus();
    let m3 = z.sub(&m).unwrap();
    assert_eq!(m2, m3);
}

#[test]
fn test_inner_product() {
    let m1: Matrix<i64> = Matrix::from_slice_cw(3, 1, vec![2, 1, 1].as_slice());
    let m2: Matrix<i64> = Matrix::from_slice_cw(3, 1, vec![1, 1, 2].as_slice());
    let result = m1.inner_prod(&m2);
    assert_eq!(result, 5);
}

#[test]
fn test_outer_product() {
    let m1: Matrix<i64> = Matrix::from_slice_cw(3, 1, vec![2, 1, 1].as_slice());
    let m2: Matrix<i64> = Matrix::from_slice_cw(3, 1, vec![1, 1, 2].as_slice());
    let result = m1.outer_prod(&m2);
    let m3: Matrix<i64> =
        Matrix::from_slice_cw(3, 3, vec![2, 1, 1, 2, 1, 1, 4, 2, 2].as_slice());
    assert_eq!(result, m3);
}
