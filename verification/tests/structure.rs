use scirust::matrix::Matrix;

fn matrix_rw_i64(rows: usize, cols: usize, values: &[i64]) -> Matrix<i64> {
    Matrix::from_slice_rw(rows, cols, values)
}

fn vector_i64(values: &[i64]) -> Matrix<i64> {
    Matrix::from_slice_cw(values.len(), 1, values)
}

fn vector_u16(values: &[u16]) -> Matrix<u16> {
    Matrix::from_slice_cw(values.len(), 1, values)
}

#[test]
fn test_add_columns() {
    let mut m1: Matrix<i64> = Matrix::from_iter_cw(2, 3, 11..100);
    let m2: Matrix<i64> = Matrix::from_iter_cw(2, 4, 11..100);
    let m3: Matrix<i64> = Matrix::from_iter_cw(2, 1, 17..100);
    let m4: Matrix<i64> = Matrix::from_iter_cw(2, 5, 9..100);
    let m5: Matrix<i64> = Matrix::from_iter_cw(2, 1, 9..100);
    m1.append_columns(&m3);
    assert_eq!(m1, m2);
    m1.prepend_columns(&m5);
    assert_eq!(m1, m4);
    let m6: Matrix<i64> = Matrix::from_iter_cw(2, 1, 5..100);
    m1.prepend_columns(&m6);
    let m7: Matrix<i64> = Matrix::from_iter_cw(2, 1, 7..100);
    m1.insert_columns(1, &m7);
}

#[test]
fn test_add_rows() {
    let mut m1: Matrix<i64> = Matrix::from_iter_cw(2, 3, 11..100).transpose();
    let m3: Matrix<i64> = Matrix::from_iter_cw(2, 1, 17..100).transpose();
    let m4: Matrix<i64> = Matrix::from_iter_cw(2, 5, 9..100).transpose();
    let m5: Matrix<i64> = Matrix::from_iter_cw(2, 1, 9..100).transpose();
    m1.append_rows(&m3);
    m1.prepend_rows(&m5);
    assert_eq!(m1, m4);
    let m6: Matrix<i64> = Matrix::from_iter_cw(2, 1, 5..100).transpose();
    m1.prepend_rows(&m6);
    let m7: Matrix<i64> = Matrix::from_iter_cw(2, 1, 7..100).transpose();
    m1.insert_rows(1, &m7);
}

#[test]
fn test_scale_row_lt() {
    let mut m = matrix_rw_i64(3, 3, &[1, 2, 3, 4, 5, 6, 7, 8, 9]);
    let m2 = matrix_rw_i64(3, 3, &[1, 2, 3, 4, 5, 6, 21, 24, 27]);
    m.scale_row_lt(2, 3);
    assert_eq!(m, m2);
}

#[test]
fn test_scale_col_lt() {
    let mut m = matrix_rw_i64(3, 3, &[1, 2, 3, 4, 5, 6, 7, 8, 9]);
    let m2 = matrix_rw_i64(3, 3, &[1, 2, 3, 4, 5, 6, 7, 8, 27]);
    m.scale_col_lt(2, 3);
    assert_eq!(m, m2);
    let m2 = matrix_rw_i64(3, 3, &[1, 2, 3, 4, 10, 6, 7, 16, 27]);
    m.scale_col_lt(1, 2);
    assert_eq!(m, m2);
}

#[test]
fn test_scale_row_ut() {
    let mut m = matrix_rw_i64(3, 3, &[1, 2, 3, 4, 5, 6, 7, 8, 9]);
    let m2 = matrix_rw_i64(3, 3, &[1, 2, 3, 4, 5, 6, 7, 8, 27]);
    m.scale_row_ut(2, 3);
    assert_eq!(m, m2);
    m.scale_row_ut(1, 2);
    let m2 = matrix_rw_i64(3, 3, &[1, 2, 3, 4, 10, 12, 7, 8, 27]);
    assert_eq!(m, m2);
}

#[test]
fn test_scale_col_ut() {
    let mut m = matrix_rw_i64(3, 3, &[1, 2, 3, 4, 5, 6, 7, 8, 9]);
    let m2 = matrix_rw_i64(3, 3, &[1, 2, 9, 4, 5, 18, 7, 8, 27]);
    m.scale_col_ut(2, 3);
    assert_eq!(m, m2);
    let m2 = matrix_rw_i64(3, 3, &[1, 4, 9, 4, 10, 18, 7, 8, 27]);
    m.scale_col_ut(1, 2);
    assert_eq!(m, m2);
}

#[test]
fn test_scale_rows() {
    let mut m = matrix_rw_i64(4, 3, &[1, 2, 3, 4, 5, 6, 7, 8, 9, 10, 11, 12]);
    let factors = vector_i64(&[1, 2, 3, 4]);
    m.scale_rows(&factors);
    let m2 = matrix_rw_i64(4, 3, &[1, 2, 3, 8, 10, 12, 21, 24, 27, 40, 44, 48]);
    assert_eq!(m, m2);
}

#[test]
fn test_scale_cols() {
    let mut m = matrix_rw_i64(2, 3, &[1, 2, 3, 4, 5, 6]);
    let factors = vector_i64(&[1, 2, 3]);
    m.scale_cols(&factors);
    let m2 = matrix_rw_i64(2, 3, &[1, 4, 9, 4, 10, 18]);
    assert_eq!(m, m2);
}

#[test]
fn test_permute_rows() {
    let m = matrix_rw_i64(4, 3, &[1, 2, 3, 4, 5, 6, 7, 8, 9, 10, 11, 12]);
    let permutation = vector_u16(&[0, 3, 1, 2]);
    let m = m.permuted_rows(&permutation);
    let m2 = matrix_rw_i64(4, 3, &[1, 2, 3, 10, 11, 12, 4, 5, 6, 7, 8, 9]);
    assert_eq!(m, m2);
}

#[test]
fn test_permute_cols() {
    let m = matrix_rw_i64(4, 3, &[1, 2, 3, 4, 5, 6, 7, 8, 9, 10, 11, 12]);
    let permutation = vector_u16(&[2, 0, 1]);
    let m = m.permuted_cols(&permutation);
    let m2 = matrix_rw_i64(4, 3, &[3, 1, 2, 6, 4, 5, 9, 7, 8, 12, 10, 11]);
    assert_eq!(m, m2);
}
