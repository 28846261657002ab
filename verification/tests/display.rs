use scirust::display::{column_width, render};
use scirust::matrix::Matrix;

fn texts_of(m: &Matrix<i64>) -> Vec<String> {
    let mut texts = Vec::new();
    for r in 0..m.num_rows() {
        for c in 0..m.num_cols() {
            texts.push(m.get(r, c).to_string());
        }
    }
    texts
}

#[test]
fn cells_are_set_to_the_right() {
    let m: Matrix<i64> = Matrix::from_slice_rw(2, 2, &[1, 22, 333, 4]);
    let text = render(2, 2, &texts_of(&m));
    assert_eq!(text, "[\n      1   22\n    333    4\n]");
}

#[test]
fn a_sign_counts_for_the_width() {
    let m: Matrix<i64> = Matrix::from_slice_rw(1, 3, &[-10, 5, 0]);
    let texts = texts_of(&m);
    assert_eq!(column_width(&texts), 3);
    assert_eq!(render(1, 3, &texts), "[\n    -10    5    0\n]");
}

#[test]
fn a_matrix_without_cells_is_two_brackets() {
    assert_eq!(render(0, 0, &Vec::new()), "[\n]");
    assert_eq!(render(0, 3, &Vec::new()), "[\n]");
    assert_eq!(render(2, 0, &Vec::new()), "[\n  \n  \n]");
    assert_eq!(column_width(&Vec::new()), 0);
}

#[test]
fn the_width_is_counted_in_bytes() {
    let texts = vec!["é".to_string(), "ab".to_string()];
    assert_eq!(column_width(&texts), 2);
    assert_eq!(render(1, 2, &texts), "[\n    é  ab\n]");
}

#[test]
fn single_rows_and_columns() {
    let m: Matrix<i64> = Matrix::new(1, 4);
    assert!(m.is_row());
    assert!(!m.is_col());
    let m: Matrix<i64> = Matrix::new(4, 1);
    assert!(!m.is_row());
    assert!(m.is_col());
    let m: Matrix<i64> = Matrix::new(1, 1);
    assert!(m.is_row());
    assert!(m.is_col());
    assert!(m.is_scalar());
    assert!(m.is_standard_matrix_type());
}
