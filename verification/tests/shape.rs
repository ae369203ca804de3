use inference_engine::element_count;

#[test]
fn a_matrix_has_rows_times_columns_elements() {
    assert_eq!(element_count(&[2, 2]), Some(4));
    assert_eq!(element_count(&[2, 1]), Some(2));
    assert_eq!(element_count(&[1, 2]), Some(2));
    assert_eq!(element_count(&[3, 5, 7]), Some(105));
}

#[test]
fn a_tensor_without_dimensions_has_one_element() {
    assert_eq!(element_count(&[]), Some(1));
}

#[test]
fn a_vector_has_as_many_elements_as_its_length() {
    assert_eq!(element_count(&[1]), Some(1));
    assert_eq!(element_count(&[17]), Some(17));
    assert_eq!(element_count(&[usize::MAX]), Some(usize::MAX));
}

#[test]
fn an_unset_dynamic_shape_has_no_elements() {
    assert_eq!(element_count(&[0]), Some(0));
    assert_eq!(element_count(&[0, 0]), Some(0));
    assert_eq!(element_count(&[4, 0, 3]), Some(0));
}

#[test]
fn a_count_beyond_usize_is_none() {
    assert_eq!(element_count(&[usize::MAX, 2]), None);
    assert_eq!(element_count(&[2, usize::MAX]), None);
    assert_eq!(element_count(&[usize::MAX / 2 + 1, 2]), None);
    assert_eq!(element_count(&[usize::MAX, usize::MAX, usize::MAX]), None);
}

#[test]
fn the_largest_count_that_fits_is_returned() {
    assert_eq!(element_count(&[usize::MAX / 2, 2]), Some(usize::MAX - 1));
    assert_eq!(element_count(&[usize::MAX, 1, 1]), Some(usize::MAX));
}

#[test]
fn a_zero_dimension_wins_over_dimensions_that_would_overflow() {
    assert_eq!(element_count(&[usize::MAX, 2, 0]), Some(0));
    assert_eq!(element_count(&[0, usize::MAX, usize::MAX]), Some(0));
    assert_eq!(element_count(&[usize::MAX, 0, usize::MAX]), Some(0));
}

#[test]
fn the_order_of_the_dimensions_does_not_change_the_count() {
    assert_eq!(element_count(&[2, 3, 4]), Some(24));
    assert_eq!(element_count(&[4, 3, 2]), Some(24));
    assert_eq!(element_count(&[3, 4, 2]), Some(24));
}

#[test]
fn leading_dimensions_span_no_more_than_the_whole_shape() {
    let shape = [3, 1, 5, 2];
    let whole = element_count(&shape).unwrap();
    assert_eq!(whole, 30);
    for length in 0..=shape.len() {
        let leading = element_count(&shape[..length]).unwrap();
        assert!(leading <= whole);
    }
    assert_eq!(element_count(&shape[..0]), Some(1));
    assert_eq!(element_count(&shape[..1]), Some(3));
    assert_eq!(element_count(&shape[..3]), Some(15));
}
