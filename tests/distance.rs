use weavers::hierarchical;

#[test]
fn test_hierarchical() {
    let x = vec![0, 1, 2];
    let y_vec = vec![vec![3, 4, 5], vec![0, 6, 7], vec![0, 1, 8], vec![0, 1, 2]];

    let my_distance: Vec<i32> = y_vec.iter().map(|y| hierarchical(&x, y)).collect();
    let ok_distance: Vec<i32> = vec![3, 2, 1, 0];
    assert_eq!(my_distance, ok_distance);
}

#[test]
fn hierarchical_is_symmetric() {
    let rows = vec![vec![0, 1, 2], vec![0, 1, 8], vec![0, 6, 7], vec![3, 4, 5], vec![9, 1, 2]];
    for x in &rows {
        for y in &rows {
            assert_eq!(hierarchical(x, y), hierarchical(y, x));
        }
    }
}

#[test]
fn hierarchical_of_a_row_with_itself_is_zero() {
    assert_eq!(hierarchical(&[4, 5, 6], &[4, 5, 6]), 0);
    assert_eq!(hierarchical(&[], &[]), 0);
}

#[test]
fn hierarchical_stops_at_first_agreement_from_the_end() {
    // the last levels differ, the middle one agrees: the coarsest level is
    // never reached
    assert_eq!(hierarchical(&[1, 2, 3], &[9, 2, 4]), 1);
    assert_eq!(hierarchical(&[1, 2, 3, 4], &[5, 6, 7, 8]), 4);
}

#[test]
fn hierarchical_on_rows_of_different_lengths_compares_their_ends() {
    assert_eq!(hierarchical(&[7, 1, 2], &[3, 4]), 2);
    assert_eq!(hierarchical(&[7, 1, 2], &[1, 5]), 1);
}
