use scirust::matrix::Matrix;

fn matrix_rw_i64(rows: usize, cols: usize, values: &[i64]) -> Matrix<i64> {
    Matrix::from_slice_rw(rows, cols, values)
}

fn vector_i64(values: &[i64]) -> Matrix<i64> {
    Matrix::from_slice_cw(values.len(), 1, values)
}

#[test]
fn test_create_mat0() {
    let m: Matrix<i64> = Matrix::new(3, 4);
    assert_eq!(m.num_cells(), 12);
    assert_eq!(m.size(), (3, 4));
    let m: Matrix<i64> = Matrix::zeros(3, 4);
    let v: i64 = m.get(0, 0);
    assert_eq!(v, 0i64);
}

#[test]
fn test_from_slice_rw0() {
    let m: Matrix<i64> = Matrix::from_slice_rw(3, 3, &[1, 2, 3, 4, 5, 6, 7, 8, 9]);
    assert_eq!(m.get(0, 0), 1);
    assert_eq!(m.get(0, 1), 2);
    assert_eq!(m.get(0, 2), 3);
    assert_eq!(m.get(1, 0), 4);
    assert_eq!(m.get(1, 1), 5);
    assert_eq!(m.get(1, 2), 6);
    assert_eq!(m.get(2, 0), 7);
    assert_eq!(m.get(2, 1), 8);
}

#[test]
fn test_from_iter_cw0() {
    for _ in 0..100 {
        let m: Matrix<i64> = Matrix::from_iter_cw(4, 4, 1..20);
        let b: Vec<i64> = (1..17).collect();
        assert!(m.as_slice_() == b.as_slice());
        let m: Matrix<i64> = Matrix::from_iter_cw(4, 8, 1..16);
        assert_eq!(m.get(0, 0), 1);
        assert_eq!(m.get(2, 2), 11);
        let mut b: Vec<i64> = (1..16).collect();
        for _ in 0..17 {
            b.push(0);
        }
        assert_eq!(m.as_slice_(), b.as_slice());
    }
}

#[test]
fn test_index0() {
    let m: Matrix<i64> = Matrix::from_iter_cw(4, 4, 1..20);
    let x = *m.index(4);
    assert_eq!(x, 5);
}

#[test]
fn test_cell_index_mapping() {
    let rows = 20;
    let cols = 10;
    let m: Matrix<i64> = Matrix::new(rows, cols);
    assert_eq!(m.index_to_cell(3 + 2 * rows), (3, 2));
    assert_eq!(m.cell_to_index(3, 2), 3 + 2 * rows);
    assert_eq!(m.cell_to_index(5, 7), 145);
    assert_eq!(m.index_to_cell(145), (5, 7));
}

#[test]
fn test_to_std_vec() {
    let m: Matrix<i64> = Matrix::from_iter_cw(4, 3, 0..12);
    let v1 = m.to_std_vec();
    let v2: Vec<i64> = (0..12).collect();
    assert_eq!(v1, v2);
}

#[test]
fn test_ones() {
    let m: Matrix<i64> = Matrix::ones(4, 2);
    let v = vec![1i64, 1, 1, 1, 1, 1, 1, 1];
    assert_eq!(m.to_std_vec(), v);
}

#[test]
fn test_from_scalar() {
    let m: Matrix<i64> = Matrix::from_scalar(2);
    assert!(m.is_scalar());
    assert_eq!(m.to_std_vec(), vec![2]);
    assert_eq!(m.to_scalar(), 2);
}

#[test]
fn test_is_vector() {
    let m: Matrix<i64> = Matrix::new(3, 1);
    assert!(m.is_vector());
    let m: Matrix<i64> = Matrix::new(1, 4);
    assert!(m.is_vector());
    let m: Matrix<i64> = Matrix::new(1, 1);
    assert!(!m.is_vector());
    let m: Matrix<i64> = Matrix::new(3, 3);
    assert!(!m.is_vector());
}

#[test]
fn test_is_empty() {
    let m: Matrix<i64> = Matrix::new(3, 1);
    assert!(!m.is_empty());
    let m: Matrix<i64> = Matrix::new(4, 0);
    assert!(m.is_empty());
    let m: Matrix<i64> = Matrix::new(0, 4);
    assert!(m.is_empty());
    let m: Matrix<i64> = Matrix::new(0, 0);
    assert!(m.is_empty());
}

#[test]
fn test_is_logical() {
    let m: Matrix<i64> = Matrix::from_iter_cw(4, 4, (0..16).map(|x| x % 2));
    assert!(m.is_logical());
    let m = m.add(&m).unwrap();
    assert!(!m.is_logical());
}

#[test]
fn test_identity() {
    let m: Matrix<i64> = Matrix::identity(3, 2);
    assert_eq!(m.to_std_vec(), vec![1, 0, 0, 0, 1, 0]);
    assert!(m.is_identity());
    let m: Matrix<i64> = Matrix::identity(2, 2);
    assert_eq!(m.to_std_vec(), vec![1, 0, 0, 1]);
    assert!(m.is_identity());
    let m: Matrix<i64> = Matrix::identity(2, 3);
    assert_eq!(m.to_std_vec(), vec![1, 0, 0, 1, 0, 0]);
    assert!(m.is_identity());
    let m: Matrix<i64> = Matrix::from_iter_cw(2, 2, 0..4);
    assert!(!m.is_identity());
}

#[test]
fn test_is_square() {
    let m: Matrix<i64> = Matrix::new(3, 4);
    assert!(!m.is_square());
    let m: Matrix<i64> = Matrix::new(100, 100);
    assert!(m.is_square());
}

#[test]
fn test_diag_from_vector() {
    for _ in 0..100 {
        let v: Matrix<i64> = Matrix::from_iter_cw(4, 1, 20..30);
        assert!(v.is_vector());
        let m = Matrix::diag_from_vec(&v).unwrap();
        assert!(!m.is_empty());
        assert!(!m.is_vector());
        assert!(m.is_diagonal());
        assert_eq!(m.num_cells(), 16);
        let mut m2: Matrix<i64> = Matrix::zeros(4, 4);
        m2.set(0, 0, 20);
        m2.set(1, 1, 21);
        m2.set(2, 2, 22);
        m2.set(3, 3, 23);
        assert_eq!(m, m2);
    }
}

#[test]
fn test_diagonal() {
    let m: Matrix<i64> = Matrix::from_iter_cw(4, 5, 10..30);
    let v = m.diagonal_vector();
    assert!(v.is_vector());
    assert_eq!(v.num_cells(), 4);
    let v2: Matrix<i64> = Matrix::from_slice_cw(4, 1, vec![10, 15, 20, 25].as_slice());
    assert_eq!(v, v2);
}

#[test]
fn test_triangular() {
    let m: Matrix<i64> = Matrix::from_slice_cw(3, 3, &[1, 0, 0, 4, 5, 0, 6, 2, 3]);
    assert!(m.is_ut());
    assert!(!m.is_lt());
    assert!(m.is_triangular());
    let m = m.transpose();
    assert!(!m.is_ut());
    assert!(m.is_lt());
    assert!(m.is_triangular());
}

#[test]
fn test_extract_triangular() {
    let m = matrix_rw_i64(3, 3, &[1, 2, 3, 4, 5, 6, 7, 8, 9]);
    let mu = matrix_rw_i64(3, 3, &[1, 2, 3, 0, 5, 6, 0, 0, 9]);
    let ml = matrix_rw_i64(3, 3, &[1, 0, 0, 4, 5, 0, 7, 8, 9]);
    assert_eq!(m.ut(), mu);
    assert_eq!(m.lt(), ml);
}

#[test]
fn test_extract_diagonal_matrix() {
    let m = matrix_rw_i64(3, 3, &[1, 2, 3, 4, 5, 6, 7, 8, 9]);
    let md = matrix_rw_i64(3, 3, &[1, 0, 0, 0, 5, 0, 0, 0, 9]);
    assert_eq!(m.diagonal_matrix(), md);
    assert_eq!(m.diagonal_vector(), vector_i64(&[1, 5, 9]));
    // More columns than rows
    let m = matrix_rw_i64(3, 4, &[1, 2, 3, 11, 4, 5, 6, 12, 7, 8, 9, 19]);
    let md = matrix_rw_i64(3, 4, &[1, 0, 0, 0, 0, 5, 0, 0, 0, 0, 9, 0]);
    assert_eq!(m.diagonal_matrix(), md);
    assert_eq!(m.diagonal_vector(), vector_i64(&[1, 5, 9]));
    // More rows than columns
    let m = matrix_rw_i64(4, 3, &[1, 2, 3, 4, 5, 6, 7, 8, 9, 10, 11, 12]);
    let md = matrix_rw_i64(4, 3, &[1, 0, 0, 0, 5, 0, 0, 0, 9, 0, 0, 0]);
    assert_eq!(m.diagonal_matrix(), md);
    assert_eq!(m.diagonal_vector(), vector_i64(&[1, 5, 9]));
}

#[test]
fn test_unit_vector() {
    let v: Matrix<i64> = Matrix::unit_vector(10, 3);
    let mut m: Matrix<i64> = Matrix::zeros(10, 1);
    m.set(3, 0, 1);
    assert_eq!(v, m);
}

#[test]
fn test_row_col_iter() {
    let m: Matrix<i64> = Matrix::from_iter_cw(4, 5, 10..30);
    let v: Vec<i64> = m.row_iter(0);
    assert_eq!(v, vec![10, 14, 18, 22, 26]);
    let v: Vec<i64> = m.col_iter(2);
    assert_eq!(v, vec![18, 19, 20, 21]);
    let m: Matrix<i64> = Matrix::from_iter_cw(3, 2, 10..30);
    let v: Vec<i64> = m.cell_iter();
    assert_eq!(v, vec![10, 11, 12, 13, 14, 15]);
}

#[test]
fn test_rep_mat() {
    let m: Matrix<i64> = Matrix::from_iter_cw(2, 2, 0..4);
    let m2 = m.repeat_matrix(2, 2);
    assert_eq!(m2.num_cells(), 16);
    assert_eq!(m2.num_rows(), 4);
    assert_eq!(m2.num_cols(), 4);
    assert_eq!(m2.to_std_vec(), vec![0, 1, 0, 1, 2, 3, 2, 3, 0, 1, 0, 1, 2, 3, 2, 3]);
}
