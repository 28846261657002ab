use scirust::capacity::{checked_target_allocation, target_allocation};
use scirust::error::MatrixError;
use scirust::matrix::{is_representable, Matrix};

fn counting(rows: usize, cols: usize, start: i64) -> Matrix<i64> {
    Matrix::from_iter_cw(rows, cols, start..)
}

#[test]
fn linear_index_and_cell_round_trip() {
    let m: Matrix<i64> = Matrix::new(5, 7);
    for r in 0..5 {
        for c in 0..7 {
            let i = m.cell_to_index(r, c);
            assert!(i < 35);
            assert_eq!(m.index_to_cell(i), (r, c));
        }
    }
    for i in 0..35 {
        let (r, c) = m.index_to_cell(i);
        assert!(r < 5 && c < 7);
        assert_eq!(m.cell_to_index(r, c), i);
    }
}

#[test]
fn linear_index_differs_from_offset_under_a_larger_stride() {
    let m = counting(3, 3, 0);
    assert_eq!(m.stride(), 4);
    assert_eq!(m.cell_to_index(1, 2), 7);
    assert_eq!(m.cell_to_offset(1, 2), 9);
    assert_eq!(*m.index(7), 7);
    assert_eq!(m.as_slice_()[9], 7);
}

#[test]
fn allocated_dimension_is_the_next_power_of_two() {
    assert_eq!(target_allocation(0), 0);
    assert_eq!(target_allocation(1), 1);
    assert_eq!(target_allocation(2), 2);
    assert_eq!(target_allocation(3), 4);
    assert_eq!(target_allocation(4), 4);
    assert_eq!(target_allocation(5), 8);
    assert_eq!(target_allocation(1000), 1024);
    assert_eq!(target_allocation(1025), 2048);
}

#[test]
fn capacity_and_stride_follow_the_logical_size() {
    let m: Matrix<i64> = Matrix::new(3, 5);
    assert_eq!(m.stride(), 4);
    assert_eq!(m.capacity(), 32);
    let m: Matrix<i64> = Matrix::new(0, 5);
    assert_eq!(m.stride(), 0);
    assert_eq!(m.capacity(), 0);
    assert_eq!(m.as_slice_().len(), 0);
    let m: Matrix<i64> = Matrix::new(4, 4);
    assert_eq!(m.capacity(), 16);
    let m: Matrix<i64> = Matrix::new(5, 17);
    assert_eq!(m.allocated_rows(), 8);
    assert_eq!(m.allocated_cols(), 32);
    let m: Matrix<i64> = Matrix::new(0, 3);
    assert_eq!(m.allocated_rows(), 0);
    assert_eq!(m.allocated_cols(), 4);
}

#[test]
fn allocation_stays_a_power_of_two_while_a_matrix_grows() {
    let mut m = counting(1, 1, 0);
    let column = counting(1, 1, 100);
    for n in 1..40usize {
        assert_eq!(m.num_cols(), n);
        assert_eq!(m.stride(), 1);
        assert_eq!(m.capacity(), n.next_power_of_two());
        m.append_columns(&column);
    }
    let mut m = counting(1, 3, 0);
    let row = counting(1, 3, 100);
    for n in 1..40usize {
        assert_eq!(m.num_rows(), n);
        assert_eq!(m.stride(), n.next_power_of_two());
        assert_eq!(m.capacity(), n.next_power_of_two() * 4);
        m.append_rows(&row);
    }
}

#[test]
fn growth_keeps_every_cell() {
    let mut m = counting(3, 2, 0);
    let before = m.to_std_vec();
    let more = counting(3, 7, 50);
    m.append_columns(&more);
    assert_eq!(m.size(), (3, 9));
    assert_eq!(m.capacity(), 64);
    let after = m.to_std_vec();
    assert_eq!(&after[..6], before.as_slice());
    assert_eq!(&after[6..], more.to_std_vec().as_slice());
}

#[test]
fn row_growth_changes_the_stride_and_keeps_every_cell() {
    let mut m = counting(2, 3, 0);
    assert_eq!(m.stride(), 2);
    let more = counting(3, 3, 50);
    m.append_rows(&more);
    assert_eq!(m.size(), (5, 3));
    assert_eq!(m.stride(), 8);
    assert_eq!(m.to_std_vec(), vec![0, 1, 50, 51, 52, 2, 3, 53, 54, 55, 4, 5, 56, 57, 58]);
}

#[test]
fn inserting_several_columns_in_the_middle() {
    let mut m = counting(2, 4, 0);
    let other = counting(2, 3, 100);
    m.insert_columns(1, &other);
    assert_eq!(m.size(), (2, 7));
    assert_eq!(m.col_iter(0), vec![0, 1]);
    assert_eq!(m.col_iter(1), vec![100, 101]);
    assert_eq!(m.col_iter(2), vec![102, 103]);
    assert_eq!(m.col_iter(3), vec![104, 105]);
    assert_eq!(m.col_iter(4), vec![2, 3]);
    assert_eq!(m.col_iter(5), vec![4, 5]);
    assert_eq!(m.col_iter(6), vec![6, 7]);
}

#[test]
fn inserting_several_columns_without_growth() {
    let mut m = counting(2, 5, 0);
    assert_eq!(m.capacity(), 16);
    let other = counting(2, 3, 100);
    m.insert_columns(2, &other);
    assert_eq!(m.capacity(), 16);
    assert_eq!(
        m.to_std_vec(),
        vec![0, 1, 2, 3, 100, 101, 102, 103, 104, 105, 4, 5, 6, 7, 8, 9]
    );
}

#[test]
fn inserting_several_rows_in_the_middle() {
    let mut m = counting(4, 2, 0);
    let other = counting(3, 2, 100);
    m.insert_rows(1, &other);
    assert_eq!(m.size(), (7, 2));
    assert_eq!(m.row_iter(0), vec![0, 4]);
    assert_eq!(m.row_iter(1), vec![100, 103]);
    assert_eq!(m.row_iter(2), vec![101, 104]);
    assert_eq!(m.row_iter(3), vec![102, 105]);
    assert_eq!(m.row_iter(4), vec![1, 5]);
    assert_eq!(m.row_iter(5), vec![2, 6]);
    assert_eq!(m.row_iter(6), vec![3, 7]);
}

#[test]
fn inserting_several_rows_without_growth() {
    let mut m = counting(5, 2, 0);
    assert_eq!(m.stride(), 8);
    let other = counting(3, 2, 100);
    m.insert_rows(5, &other);
    assert_eq!(m.stride(), 8);
    assert_eq!(
        m.to_std_vec(),
        vec![0, 1, 2, 3, 4, 100, 101, 102, 5, 6, 7, 8, 9, 103, 104, 105]
    );
}

#[test]
fn inserting_into_a_matrix_without_cells() {
    let mut m: Matrix<i64> = Matrix::new(0, 1);
    let other: Matrix<i64> = Matrix::new(0, 3);
    m.append_columns(&other);
    assert_eq!(m.size(), (0, 4));
    assert_eq!(m.capacity(), 0);
    let mut m: Matrix<i64> = Matrix::new(0, 0);
    let other: Matrix<i64> = Matrix::new(2, 0);
    m.append_rows(&other);
    assert_eq!(m.size(), (2, 0));
    assert_eq!(m.stride(), 2);
    let mut m: Matrix<i64> = Matrix::new(2, 0);
    let other = counting(2, 2, 1);
    m.prepend_columns(&other);
    assert_eq!(m, other);
    let mut m: Matrix<i64> = Matrix::new(0, 2);
    let other = counting(3, 2, 1);
    m.insert_rows(0, &other);
    assert_eq!(m, other);
}

#[test]
fn insertion_hands_the_matrix_back() {
    let mut m = counting(2, 1, 0);
    let a = counting(2, 1, 10);
    let b = counting(1, 3, 20);
    m.append_columns(&a).append_columns(&a).append_rows(&b);
    assert_eq!(m.to_std_vec(), vec![0, 1, 20, 10, 11, 21, 10, 11, 22]);
}

#[test]
fn transposing_twice_gives_the_matrix_back() {
    for (rows, cols) in [(0, 0), (0, 3), (1, 1), (3, 5), (8, 2)] {
        let m = counting(rows, cols, 1);
        assert_eq!(m.transpose().transpose(), m);
        assert_eq!(m.transpose().size(), (cols, rows));
    }
}

#[test]
fn a_matrix_plus_its_negation_is_zero() {
    let m = Matrix::from_slice_cw(2, 3, &[0, 1, -1, i64::MAX, i64::MIN, 42]);
    let sum = m.add(&m.unary_minus()).unwrap();
    assert_eq!(sum, Matrix::zeros(2, 3));
    assert_eq!(m.unary_minus().size(), (2, 3));
}

#[test]
fn the_identity_is_neutral_for_the_product() {
    let m = counting(3, 4, 1);
    let right: Matrix<i64> = Matrix::identity(4, 4);
    let left: Matrix<i64> = Matrix::identity(3, 3);
    assert_eq!(m.mul(&right).unwrap(), m);
    assert_eq!(left.mul(&m).unwrap(), m);
}

#[test]
fn the_product_is_associative() {
    let a = counting(2, 3, 1);
    let b = counting(3, 4, -5);
    let c = counting(4, 2, 7);
    let left = a.mul(&b).unwrap().mul(&c).unwrap();
    let right = a.mul(&b.mul(&c).unwrap()).unwrap();
    assert_eq!(left, right);
    assert_eq!(left.to_std_vec(), vec![424, 520, 560, 680]);
}

#[test]
fn the_product_is_associative_where_it_wraps_around() {
    let a = Matrix::from_slice_cw(2, 2, &[i64::MAX, 3, -7, i64::MIN]);
    let b = Matrix::from_slice_cw(2, 2, &[1 << 40, 5, i64::MAX - 1, 11]);
    let c = Matrix::from_slice_cw(2, 2, &[13, 1 << 50, -(1 << 62), 17]);
    let left = a.mul(&b).unwrap().mul(&c).unwrap();
    let right = a.mul(&b.mul(&c).unwrap()).unwrap();
    assert_eq!(left, right);
}

#[test]
fn a_cell_of_a_matrix_filled_row_by_row() {
    let m: Matrix<i64> = Matrix::from_slice_rw(3, 3, &[1, 2, 3, 4, 5, 6, 7, 8, 9]);
    assert_eq!(m.get(1, 2), 6);
}

#[test]
fn ones_plus_ones_is_twos() {
    let ones: Matrix<i64> = Matrix::ones(4, 2);
    let twos = ones.add(&ones).unwrap();
    assert_eq!(twos.size(), (4, 2));
    assert_eq!(twos, Matrix::from_slice_cw(4, 2, &[2; 8]));
}

#[test]
fn transpose_of_two_by_two() {
    let m: Matrix<i64> = Matrix::from_slice_cw(2, 2, &[0, 1, 2, 3]);
    assert_eq!(m.row_iter(0), vec![0, 2]);
    assert_eq!(m.row_iter(1), vec![1, 3]);
    let t = m.transpose();
    assert_eq!(t.row_iter(0), vec![0, 1]);
    assert_eq!(t.row_iter(1), vec![2, 3]);
}

#[test]
fn appending_one_column() {
    let mut m = counting(2, 3, 11);
    let column = Matrix::from_slice_cw(2, 1, &[17, 18]);
    m.append_columns(&column);
    assert_eq!(m.size(), (2, 4));
    assert_eq!(m.col_iter(3), vec![17, 18]);
    assert_eq!(m.col_iter(-1), vec![17, 18]);
}

#[test]
fn powers_of_the_identity() {
    let one: Matrix<i64> = Matrix::identity(3, 3);
    assert_eq!(one.pow(5).unwrap(), one);
    assert_eq!(counting(3, 3, 1).pow(0).unwrap(), one);
}

#[test]
fn product_of_shapes_that_do_not_fit() {
    let a = counting(2, 3, 0);
    let b = counting(2, 3, 0);
    assert_eq!(a.mul(&b), Err(MatrixError::DimensionMismatch));
}

#[test]
fn every_error_has_its_input() {
    let wide = counting(2, 3, 0);
    let tall = counting(3, 2, 0);
    assert_eq!(wide.add(&tall), Err(MatrixError::DimensionMismatch));
    assert_eq!(wide.sub(&tall), Err(MatrixError::DimensionMismatch));
    assert_eq!(wide.mul_elt(&tall), Err(MatrixError::DimensionMismatch));
    assert_eq!(wide.div_elt(&tall), Err(MatrixError::DimensionMismatch));
    assert_eq!(wide.mul(&wide), Err(MatrixError::DimensionMismatch));
    assert_eq!(wide.pow(2), Err(MatrixError::NotSquare));
    assert_eq!(Matrix::diag_from_vec(&wide), Err(MatrixError::NotAVector));
    assert_eq!(Matrix::diag_from_vec(&counting(1, 1, 0)), Err(MatrixError::NotAVector));
    let empty: Matrix<i64> = Matrix::new(0, 3);
    assert_eq!(empty.min_scalar(), Err(MatrixError::EmptyMatrix));
    assert_eq!(empty.max_scalar(), Err(MatrixError::EmptyMatrix));
    assert_eq!(empty.min_abs_scalar(), Err(MatrixError::EmptyMatrix));
    assert_eq!(empty.max_abs_scalar_value(), Err(MatrixError::EmptyMatrix));
}

#[test]
fn errors_say_what_happened() {
    assert_eq!(
        MatrixError::DimensionMismatch.to_string(),
        "The dimensions of two matrices mismatch."
    );
    assert_eq!(MatrixError::NotSquare.to_string(), "Matrix is not square.");
    assert_eq!(MatrixError::NotAVector.to_string(), "Matrix is not a vector.");
    assert_eq!(MatrixError::EmptyMatrix.to_string(), "Matrix is empty.");
}

#[test]
fn matrices_of_different_shapes_are_not_equal() {
    let wide = counting(2, 3, 0);
    let tall = counting(3, 2, 0);
    assert_eq!(wide.to_std_vec(), tall.to_std_vec());
    assert!(wide != tall);
    let a: Matrix<i64> = Matrix::new(0, 3);
    let b: Matrix<i64> = Matrix::new(0, 4);
    assert!(a != b);
    assert!(a == a.clone());
}

#[test]
fn equality_does_not_look_at_the_allocation() {
    let mut grown = counting(2, 1, 0);
    grown.append_columns(&counting(2, 2, 2));
    grown.append_rows(&Matrix::from_slice_rw(1, 3, &[9, 9, 9]));
    let direct = Matrix::from_slice_rw(3, 3, &[0, 2, 4, 1, 3, 5, 9, 9, 9]);
    assert_eq!(grown, direct);
}

#[test]
fn a_clone_is_a_matrix_of_its_own() {
    let m = counting(3, 3, 0);
    let mut copy = m.clone();
    assert_eq!(copy, m);
    copy.set(1, 1, 99);
    assert_eq!(m.get(1, 1), 4);
    assert_eq!(copy.get(1, 1), 99);
    assert_eq!(copy.capacity(), m.capacity());
}

#[test]
fn set_changes_one_cell() {
    let mut m = counting(3, 3, 0);
    m.set(2, 1, -1);
    assert_eq!(m.to_std_vec(), vec![0, 1, 2, 3, 4, -1, 6, 7, 8]);
}

#[test]
fn sizes_that_this_machine_cannot_hold() {
    assert!(is_representable(0, 0));
    assert!(is_representable(3, 4));
    assert!(is_representable(0, usize::MAX / 2));
    assert!(!is_representable(usize::MAX, 1));
    assert!(!is_representable(1, usize::MAX));
    assert!(!is_representable(0, usize::MAX));
    assert!(!is_representable(usize::MAX / 2, usize::MAX / 2));
    assert!(!is_representable(1 << (usize::BITS / 2), 1 << (usize::BITS / 2)));
    assert!(is_representable(1 << (usize::BITS / 2), 1 << (usize::BITS / 2 - 1)));
    assert_eq!(checked_target_allocation(usize::MAX), None);
    assert_eq!(checked_target_allocation((usize::MAX >> 1) + 2), None);
    assert_eq!(checked_target_allocation((usize::MAX >> 1) + 1), Some((usize::MAX >> 1) + 1));
    assert_eq!(checked_target_allocation(0), Some(0));
    assert_eq!(checked_target_allocation(17), Some(32));
}
