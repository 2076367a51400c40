use weavers::{partialord_min_max, Matrix, ShapeError};

#[test]
fn matrix_rows_are_consecutive_slices() {
    let values = vec![1, 2, 3, 4, 5, 6];
    let m = Matrix::new(values.clone(), 2).unwrap();
    assert_eq!(m.nrows(), 3);
    assert_eq!(m.ncols(), 2);
    let rows = m.rows();
    assert_eq!(rows.len(), values.len() / 2);
    for (i, row) in rows.iter().enumerate() {
        assert_eq!(*row, &values[i * 2..(i + 1) * 2]);
    }
    assert_eq!(m.row(1), &[3, 4]);
    assert_eq!(m.values(), &values[..]);
    assert_eq!(m.to_vec(), values);
}

#[test]
fn matrix_single_column_has_one_row_per_value() {
    let m = Matrix::new(vec![0.0_f32, 1.0, 2.5], 1).unwrap();
    assert_eq!(m.nrows(), 3);
    assert_eq!(m.row(2), &[2.5_f32]);
}

#[test]
fn matrix_empty_has_no_rows() {
    let m: Matrix<i32> = Matrix::new(vec![], 3).unwrap();
    assert_eq!(m.nrows(), 0);
    assert!(m.rows().is_empty());
}

#[test]
fn matrix_rejects_ragged_values() {
    match Matrix::new(vec![1, 2, 3, 4, 5], 2) {
        Err(e) => assert_eq!(e, ShapeError::NotRectangular { len: 5, ncols: 2 }),
        Ok(_) => panic!("five values cannot form rows of two"),
    }
}

#[test]
fn matrix_rejects_zero_columns() {
    match Matrix::new(vec![1, 2], 0) {
        Err(e) => assert_eq!(e, ShapeError::NotRectangular { len: 2, ncols: 0 }),
        Ok(_) => panic!("zero columns"),
    }
}

#[test]
fn min_max_over_all_values() {
    let m = Matrix::new(vec![3.0_f32, -1.5, 7.25, 0.0], 2).unwrap();
    let (lo, hi) = partialord_min_max(&m);
    assert_eq!(*lo, -1.5);
    assert_eq!(*hi, 7.25);

    let m = Matrix::new(vec![4, 4, 2, 9, 9, 2], 3).unwrap();
    let (lo, hi) = partialord_min_max(&m);
    assert_eq!((*lo, *hi), (2, 9));
}

#[test]
fn min_max_borrow_the_first_of_equal_values() {
    let m = Matrix::new(vec![4, 2, 9, 2, 9], 1).unwrap();
    let (lo, hi) = partialord_min_max(&m);
    assert!(std::ptr::eq(lo, &m.values()[1]));
    assert!(std::ptr::eq(hi, &m.values()[2]));
}
