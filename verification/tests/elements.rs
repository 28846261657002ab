use scirust::access::mod_n;
use scirust::matrix::Matrix;
use scirust::number::{Number, Ordered, Signed};

#[test]
fn signed_arithmetic_wraps_around() {
    assert_eq!(i64::MAX.plus(1), i64::MIN);
    assert_eq!(i64::MIN.minus(1), i64::MAX);
    assert_eq!(i64::MAX.times(2), -2);
    assert_eq!(i64::MIN.negated(), i64::MIN);
    assert_eq!(5i64.negated(), -5);
    assert_eq!(<i64 as Number>::zero(), 0);
    assert_eq!(<i64 as Number>::one(), 1);
    assert!(3i64.same(3));
    assert!(!3i64.same(4));
}

#[test]
fn signed_division_rounds_toward_zero() {
    assert_eq!(7i64.over(2), 3);
    assert_eq!((-7i64).over(2), -3);
    assert_eq!(7i64.over(-2), -3);
    assert_eq!((-7i64).over(-2), 3);
    assert_eq!(0i64.over(-5), 0);
    assert_eq!(6i64.over(-1), -6);
    assert_eq!(i64::MIN.over(-1), i64::MIN);
    assert_eq!(i64::MIN.over(i64::MIN), 1);
    assert_eq!(i64::MAX.over(i64::MIN), 0);
    assert_eq!((-5i64).over(i64::MIN), 0);
    assert_eq!(i64::MIN.over(2), -(1 << 62));
    assert_eq!(i64::MIN.over(-2), 1 << 62);
}

#[test]
fn signed_order_and_magnitude() {
    assert!((-3i64).less(2));
    assert!(!2i64.less(2));
    assert!(!3i64.less(2));
    assert_eq!((-3i64).magnitude(), 3);
    assert_eq!(3i64.magnitude(), 3);
    assert_eq!(0i64.magnitude(), 0);
    assert_eq!(i64::MIN.magnitude(), i64::MIN);
}

#[test]
fn unsigned_arithmetic_wraps_around() {
    assert_eq!(u16::MAX.plus(1), 0);
    assert_eq!(0u16.minus(1), u16::MAX);
    assert_eq!(300u16.times(300), 24464);
    assert_eq!(1u16.negated(), u16::MAX);
    assert_eq!(0u16.negated(), 0);
    assert_eq!(7u16.over(2), 3);
    assert!(1u16.less(2));
    assert!(!2u16.less(1));
    assert!(5u16.same(5));
    assert_eq!(<u16 as Number>::zero(), 0);
    assert_eq!(<u16 as Number>::one(), 1);
}

#[test]
fn indices_below_zero_count_backward() {
    assert_eq!(mod_n(0, 4), 0);
    assert_eq!(mod_n(3, 4), 3);
    assert_eq!(mod_n(4, 4), 0);
    assert_eq!(mod_n(5, 4), 1);
    assert_eq!(mod_n(-1, 4), 3);
    assert_eq!(mod_n(-2, 4), 2);
    assert_eq!(mod_n(-4, 4), 0);
    assert_eq!(mod_n(-6, 4), 2);
    assert_eq!(mod_n(isize::MIN, 1), 0);
    assert_eq!(mod_n(isize::MIN, 3), (isize::MIN.rem_euclid(3)) as usize);
    assert_eq!(mod_n(isize::MAX, 10), (isize::MAX % 10) as usize);
    assert_eq!(mod_n(-1, usize::MAX), usize::MAX - 1);
}

#[test]
fn rows_and_columns_counted_backward() {
    let m: Matrix<i64> = Matrix::from_iter_cw(4, 4, 0..16);
    assert_eq!(m.row_iter(-1), vec![3, 7, 11, 15]);
    assert_eq!(m.row_iter(-2), vec![2, 6, 10, 14]);
    assert_eq!(m.row_iter(-6), vec![2, 6, 10, 14]);
    assert_eq!(m.col_iter(-1), vec![12, 13, 14, 15]);
    assert_eq!(m.col_iter(-6), vec![8, 9, 10, 11]);
    assert_eq!(m.col_iter(4), vec![0, 1, 2, 3]);
}

#[test]
fn the_least_and_the_greatest_cell_with_their_first_place() {
    let m: Matrix<i64> = Matrix::from_slice_cw(2, 3, &[5, -2, 9, -2, 9, 0]);
    assert_eq!(m.min_scalar(), Ok((-2, 1, 0)));
    assert_eq!(m.max_scalar(), Ok((9, 0, 1)));
    assert_eq!(m.min_scalar_value(), Ok(-2));
    assert_eq!(m.max_scalar_value(), Ok(9));
    let one: Matrix<i64> = Matrix::from_scalar(7);
    assert_eq!(one.min_scalar(), Ok((7, 0, 0)));
    assert_eq!(one.max_scalar(), Ok((7, 0, 0)));
}

#[test]
fn the_least_and_the_greatest_absolute_value() {
    let m: Matrix<i64> = Matrix::from_slice_rw(3, 3, &[2, 93, 9, 2, 71, -79, -83, 62, 6]);
    assert_eq!(m.max_abs_scalar(), Ok((93, 0, 1)));
    assert_eq!(m.min_abs_scalar(), Ok((2, 0, 0)));
    assert_eq!(m.max_abs_scalar_value(), Ok(93));
    assert_eq!(m.min_abs_scalar_value(), Ok(2));
    let m: Matrix<i64> = Matrix::from_slice_cw(1, 3, &[-4, 4, -5]);
    assert_eq!(m.min_abs_scalar(), Ok((4, 0, 0)));
    assert_eq!(m.max_abs_scalar(), Ok((5, 0, 2)));
}

#[test]
fn values_that_run_out_are_zero() {
    let m: Matrix<i64> = Matrix::from_slice_cw(2, 3, &[1, 2, 3]);
    assert_eq!(m.to_std_vec(), vec![1, 2, 3, 0, 0, 0]);
    let m: Matrix<i64> = Matrix::from_slice_rw(2, 3, &[1, 2, 3, 4]);
    assert_eq!(m.to_std_vec(), vec![1, 4, 2, 0, 3, 0]);
    let m: Matrix<i64> = Matrix::from_iter_cw(3, 2, 1..3);
    assert_eq!(m.to_std_vec(), vec![1, 2, 0, 0, 0, 0]);
    let m: Matrix<i64> = Matrix::from_iter_rw(2, 3, 1..5);
    assert_eq!(m.to_std_vec(), vec![1, 4, 2, 0, 3, 0]);
    let m: Matrix<i64> = Matrix::from_iter_rw(2, 2, std::iter::empty());
    assert_eq!(m, Matrix::zeros(2, 2));
}

#[test]
fn values_beyond_the_last_cell_are_not_read() {
    let m: Matrix<i64> = Matrix::from_slice_cw(2, 2, &[1, 2, 3, 4, 5, 6]);
    assert_eq!(m.to_std_vec(), vec![1, 2, 3, 4]);
    let m: Matrix<i64> = Matrix::from_slice_rw(2, 2, &[1, 2, 3, 4, 5, 6]);
    assert_eq!(m.to_std_vec(), vec![1, 3, 2, 4]);
    let m: Matrix<i64> = Matrix::from_iter_rw(2, 2, 1..);
    assert_eq!(m.to_std_vec(), vec![1, 3, 2, 4]);
    let m: Matrix<i64> = Matrix::from_iter_cw(0, 5, 1..);
    assert!(m.is_empty());
}

#[test]
fn cell_by_cell_arithmetic() {
    let a: Matrix<i64> = Matrix::from_slice_cw(2, 2, &[7, -7, 8, i64::MAX]);
    let b: Matrix<i64> = Matrix::from_slice_cw(2, 2, &[2, 2, -3, 1]);
    assert_eq!(a.add(&b).unwrap().to_std_vec(), vec![9, -5, 5, i64::MIN]);
    assert_eq!(a.sub(&b).unwrap().to_std_vec(), vec![5, -9, 11, i64::MAX - 1]);
    assert_eq!(a.mul_elt(&b).unwrap().to_std_vec(), vec![14, -14, -24, i64::MAX]);
    assert_eq!(a.div_elt(&b).unwrap().to_std_vec(), vec![3, -3, -2, i64::MAX]);
    assert_eq!(a.add_scalar(1).to_std_vec(), vec![8, -6, 9, i64::MIN]);
    assert_eq!(a.mul_scalar(-1).to_std_vec(), vec![-7, 7, -8, -i64::MAX]);
    assert_eq!(a.div_scalar(-2).to_std_vec(), vec![-3, 3, -4, -(i64::MAX / 2)]);
    assert_eq!(a.unary_minus().to_std_vec(), vec![-7, 7, -8, -i64::MAX]);
}

#[test]
fn powers_multiply_from_the_right() {
    let m: Matrix<i64> = Matrix::from_slice_rw(2, 2, &[1, 1, 0, 1]);
    assert_eq!(m.pow(5).unwrap(), Matrix::from_slice_rw(2, 2, &[1, 5, 0, 1]));
    let empty: Matrix<i64> = Matrix::new(0, 0);
    assert_eq!(empty.pow(3).unwrap(), empty);
}

#[test]
fn products_of_columns() {
    let a: Matrix<i64> = Matrix::from_slice_cw(3, 1, &[1, 2, 3]);
    let b: Matrix<i64> = Matrix::from_slice_cw(3, 1, &[4, 5, 6]);
    assert_eq!(a.inner_prod(&b), 32);
    assert_eq!(a.outer_prod(&b).to_std_vec(), vec![4, 8, 12, 5, 10, 15, 6, 12, 18]);
    let none: Matrix<i64> = Matrix::new(0, 1);
    assert_eq!(none.inner_prod(&none), 0);
}

#[test]
fn patterns_of_zeros() {
    let diagonal: Matrix<i64> = Matrix::from_slice_rw(2, 3, &[3, 0, 0, 0, 4, 0]);
    assert!(diagonal.is_diagonal());
    assert!(diagonal.is_lt());
    assert!(diagonal.is_ut());
    assert!(!diagonal.is_identity());
    assert!(!diagonal.is_logical());
    let lower: Matrix<i64> = Matrix::from_slice_rw(2, 2, &[1, 0, 1, 1]);
    assert!(lower.is_lt());
    assert!(!lower.is_ut());
    assert!(!lower.is_diagonal());
    assert!(lower.is_logical());
    let empty: Matrix<i64> = Matrix::new(0, 2);
    assert!(empty.is_identity());
    assert!(empty.is_diagonal());
    assert!(empty.is_logical());
}

#[test]
fn a_matrix_repeated() {
    let m: Matrix<i64> = Matrix::from_slice_cw(2, 1, &[1, 2]);
    assert_eq!(m.repeat_matrix(1, 3).to_std_vec(), vec![1, 2, 1, 2, 1, 2]);
    assert_eq!(m.repeat_matrix(2, 1).to_std_vec(), vec![1, 2, 1, 2]);
    assert_eq!(m.repeat_matrix(0, 3).size(), (0, 3));
    assert_eq!(m.repeat_matrix(3, 0).size(), (6, 0));
}

#[test]
fn a_matrix_of_indices() {
    let picks: Matrix<u16> = Matrix::from_slice_cw(3, 1, &[2, 2, 0]);
    let m: Matrix<i64> = Matrix::from_slice_rw(3, 2, &[1, 2, 3, 4, 5, 6]);
    assert_eq!(m.permuted_rows(&picks), Matrix::from_slice_rw(3, 2, &[5, 6, 5, 6, 1, 2]));
    let picks: Matrix<u16> = Matrix::from_slice_cw(2, 1, &[1, 1]);
    assert_eq!(m.permuted_cols(&picks), Matrix::from_slice_rw(3, 2, &[2, 2, 4, 4, 6, 6]));
    assert_eq!(picks.add(&picks).unwrap().to_std_vec(), vec![2u16, 2]);
}

#[test]
fn triangular_parts_are_scaled_in_place() {
    let mut m: Matrix<i64> = Matrix::from_slice_rw(3, 3, &[1, 2, 3, 4, 5, 6, 7, 8, 9]);
    m.scale_row_lt(1, 10).scale_col_ut(2, -1);
    assert_eq!(m, Matrix::from_slice_rw(3, 3, &[1, 2, -3, 40, 50, -6, 7, 8, -9]));
    let mut m: Matrix<i64> = Matrix::from_slice_rw(3, 2, &[1, 2, 3, 4, 5, 6]);
    m.scale_col_lt(0, 2);
    assert_eq!(m, Matrix::from_slice_rw(3, 2, &[2, 2, 6, 4, 10, 6]));
    let mut m: Matrix<i64> = Matrix::from_slice_rw(2, 3, &[1, 2, 3, 4, 5, 6]);
    m.scale_row_ut(1, 3);
    assert_eq!(m, Matrix::from_slice_rw(2, 3, &[1, 2, 3, 4, 15, 18]));
}

#[test]
fn every_signed_width_wraps_around() {
    assert_eq!(i8::MAX.plus(1), i8::MIN);
    assert_eq!(i8::MIN.minus(1), i8::MAX);
    assert_eq!(100i8.times(3), 44);
    assert_eq!(i8::MIN.negated(), i8::MIN);
    assert_eq!(i8::MIN.over(-1), i8::MIN);
    assert_eq!((-7i8).over(2), -3);
    assert_eq!(7i8.over(i8::MIN), 0);
    assert_eq!(i8::MIN.magnitude(), i8::MIN);
    assert_eq!((-5i8).magnitude(), 5);
    assert!((-1i8).less(0));
    assert_eq!(i16::MAX.plus(1), i16::MIN);
    assert_eq!(300i16.times(300), 24464);
    assert_eq!((-7i16).over(-2), 3);
    assert_eq!(i16::MIN.over(-1), i16::MIN);
    assert_eq!(i32::MAX.plus(1), i32::MIN);
    assert_eq!(i32::MIN.minus(1), i32::MAX);
    assert_eq!(65536i32.times(65536), 0);
    assert_eq!(7i32.over(-2), -3);
    assert_eq!(i32::MIN.over(i32::MIN), 1);
    assert_eq!((-9i32).magnitude(), 9);
}

#[test]
fn every_unsigned_width_wraps_around() {
    assert_eq!(u8::MAX.plus(1), 0);
    assert_eq!(0u8.minus(1), u8::MAX);
    assert_eq!(16u8.times(17), 16);
    assert_eq!(1u8.negated(), u8::MAX);
    assert_eq!(9u8.over(2), 4);
    assert_eq!(u32::MAX.plus(2), 1);
    assert_eq!(65536u32.times(65537), 65536);
    assert_eq!(3u32.minus(5), u32::MAX - 1);
    assert_eq!(u64::MAX.plus(1), 0);
    assert_eq!((1u64 << 63).times(2), 0);
    assert_eq!(2u64.negated(), u64::MAX - 1);
    assert_eq!(usize::MAX.plus(1), 0);
    assert_eq!(0usize.minus(1), usize::MAX);
    assert_eq!(usize::MAX.times(usize::MAX), 1);
    assert_eq!(10usize.over(3), 3);
    assert!(1usize.less(2));
    assert!(!2u64.less(2));
    assert!(7u32.same(7));
}

#[test]
fn matrices_of_other_integers() {
    let m: Matrix<i32> = Matrix::from_iter_rw(2, 2, 1..5);
    assert_eq!(m.mul(&m).unwrap().to_std_vec(), vec![7, 15, 10, 22]);
    let m: Matrix<u8> = Matrix::from_slice_cw(1, 2, &[200, 100]);
    assert_eq!(m.add(&m).unwrap().to_std_vec(), vec![144, 200]);
    assert_eq!(m.max_scalar(), Ok((200, 0, 0)));
    let m: Matrix<usize> = Matrix::identity(2, 3);
    assert!(m.is_identity());
    assert_eq!(m.unary_minus().to_std_vec(), vec![usize::MAX, 0, 0, usize::MAX, 0, 0]);
    let m: Matrix<i8> = Matrix::from_slice_cw(2, 1, &[-128, 5]);
    assert_eq!(m.min_abs_scalar(), Ok((-128, 0, 0)));
    assert_eq!(m.max_abs_scalar(), Ok((5, 1, 0)));
}
