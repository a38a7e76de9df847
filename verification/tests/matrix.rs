use lapack_lu::matrix::Matrix;

fn sample() -> Matrix<i64> {
    // |  1  2  3 |
    // |  4  5  6 |
    // |  7  8  9 |
    // | 10 11 12 |
    Matrix::from_vec(4, 3, vec![1, 4, 7, 10, 2, 5, 8, 11, 3, 6, 9, 12]).unwrap()
}

#[test]
fn from_vec_keeps_shape_and_column_major_order() {
    let m = sample();
    assert_eq!(m.nrows(), 4);
    assert_eq!(m.ncols(), 3);
    assert_eq!(m.shape(), (4, 3));
    assert_eq!(m.len(), 12);
    assert!(!m.is_square());
    assert_eq!(m.get(0, 0), Some(&1));
    assert_eq!(m.get(1, 0), Some(&4));
    assert_eq!(m.get(0, 1), Some(&2));
    assert_eq!(m.get(3, 2), Some(&12));
    assert_eq!(m.as_slice(), &[1, 4, 7, 10, 2, 5, 8, 11, 3, 6, 9, 12]);
}

#[test]
fn from_vec_refuses_a_wrong_length() {
    assert!(Matrix::from_vec(2, 2, vec![1, 2, 3]).is_none());
    assert!(Matrix::from_vec(2, 2, vec![1, 2, 3, 4, 5]).is_none());
    assert!(Matrix::<i64>::from_vec(usize::MAX, 2, vec![]).is_none());
    assert!(Matrix::<i64>::from_vec(0, 5, vec![]).is_some());
    assert!(Matrix::<i64>::from_vec(5, 0, vec![]).is_some());
}

#[test]
fn get_is_none_outside_the_matrix() {
    let m = sample();
    assert_eq!(m.get(4, 0), None);
    assert_eq!(m.get(0, 3), None);
    assert_eq!(m.get(usize::MAX, usize::MAX), None);
}

#[test]
fn from_element_fills_every_position() {
    let m = Matrix::from_element(2, 3, 7i64).unwrap();
    assert_eq!(m.shape(), (2, 3));
    assert_eq!(m.as_slice(), &[7, 7, 7, 7, 7, 7]);
    let empty = Matrix::from_element(0, 3, 7i64).unwrap();
    assert_eq!(empty.shape(), (0, 3));
    assert_eq!(empty.len(), 0);
}

#[test]
fn from_element_refuses_more_entries_than_fit() {
    assert!(Matrix::from_element(usize::MAX, 2, 0u8).is_none());
}

#[test]
fn clone_owned_copies_shape_and_entries() {
    let m = sample();
    let c = m.clone_owned();
    assert_eq!(c.shape(), m.shape());
    assert_eq!(c.as_slice(), m.as_slice());
}

#[test]
fn as_mut_slice_writes_through() {
    let mut m = sample();
    m.as_mut_slice()[1] = -4;
    assert_eq!(m.get(1, 0), Some(&-4));
    assert_eq!(m.shape(), (4, 3));
}

#[test]
fn is_square_compares_rows_and_columns() {
    assert!(Matrix::from_element(3, 3, 0i64).unwrap().is_square());
    assert!(!Matrix::from_element(3, 2, 0i64).unwrap().is_square());
}

#[test]
fn fill_diagonal_of_a_tall_and_of_a_wide_matrix() {
    let mut tall = sample();
    tall.fill_diagonal(0);
    // |  0  2  3 |
    // |  4  0  6 |
    // |  7  8  0 |
    // | 10 11 12 |
    assert_eq!(tall.as_slice(), &[0, 4, 7, 10, 2, 0, 8, 11, 3, 6, 0, 12]);
    let mut wide = Matrix::from_vec(2, 3, vec![1, 2, 3, 4, 5, 6]).unwrap();
    wide.fill_diagonal(0);
    assert_eq!(wide.as_slice(), &[0, 2, 3, 0, 5, 6]);
}

#[test]
fn fill_upper_triangle_with_shifts() {
    let mut m = sample();
    m.fill_upper_triangle(0, 1);
    // |  1  0  0 |
    // |  4  5  0 |
    // |  7  8  9 |
    // | 10 11 12 |
    assert_eq!(m.as_slice(), &[1, 4, 7, 10, 0, 5, 8, 11, 0, 0, 9, 12]);
    let mut m = sample();
    m.fill_upper_triangle(0, 0);
    assert_eq!(m.as_slice(), &[0, 4, 7, 10, 0, 0, 8, 11, 0, 0, 0, 12]);
    let mut m = sample();
    m.fill_upper_triangle(0, 2);
    assert_eq!(m.as_slice(), &[1, 4, 7, 10, 2, 5, 8, 11, 0, 6, 9, 12]);
    let mut m = sample();
    m.fill_upper_triangle(0, usize::MAX);
    assert_eq!(m.as_slice(), sample().as_slice());
}

#[test]
fn fill_lower_triangle_with_shifts() {
    let mut m = sample();
    m.fill_lower_triangle(0, 1);
    // |  1  2  3 |
    // |  0  5  6 |
    // |  0  0  9 |
    // |  0  0  0 |
    assert_eq!(m.as_slice(), &[1, 0, 0, 0, 2, 5, 0, 0, 3, 6, 9, 0]);
    let mut m = sample();
    m.fill_lower_triangle(0, 0);
    assert_eq!(m.as_slice(), &[0, 0, 0, 0, 2, 0, 0, 0, 3, 6, 0, 0]);
    let mut m = sample();
    m.fill_lower_triangle(0, 3);
    assert_eq!(m.as_slice(), &[1, 4, 7, 0, 2, 5, 8, 11, 3, 6, 9, 12]);
    let mut m = sample();
    m.fill_lower_triangle(0, usize::MAX);
    assert_eq!(m.as_slice(), sample().as_slice());
}

#[test]
fn first_columns_keeps_the_leading_columns() {
    let m = sample();
    let c = m.first_columns(2);
    assert_eq!(c.shape(), (4, 2));
    assert_eq!(c.as_slice(), &[1, 4, 7, 10, 2, 5, 8, 11]);
    assert_eq!(m.first_columns(0).shape(), (4, 0));
    assert_eq!(m.first_columns(3).as_slice(), m.as_slice());
}

#[test]
fn first_rows_keeps_the_leading_rows() {
    let m = sample();
    let r = m.first_rows(2);
    assert_eq!(r.shape(), (2, 3));
    assert_eq!(r.as_slice(), &[1, 4, 2, 5, 3, 6]);
    assert_eq!(m.first_rows(0).shape(), (0, 3));
    assert_eq!(m.first_rows(4).as_slice(), m.as_slice());
}
