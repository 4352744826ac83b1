use i5_req::is_continuous;

#[test]
fn continuous_run_with_zeros_passes() {
    assert!(is_continuous(&[0, 1, 2, 3, 4, 5]));
}

#[test]
fn continuous_run_out_of_order_passes() {
    assert!(is_continuous(&[0, 1, 2, 3, 5, 4, 6, 7]));
}

#[test]
fn missing_number_fails() {
    assert!(!is_continuous(&[0, 1, 2, 4, 5]));
}

#[test]
fn run_not_starting_at_one_fails() {
    assert!(!is_continuous(&[1, 2, 3, 7, 8]));
}

#[test]
fn empty_list_passes() {
    assert!(is_continuous(&[]));
}

#[test]
fn duplicates_are_ignored() {
    assert!(is_continuous(&[1, 1, 2, 2, 3]));
    assert!(!is_continuous(&[1, 1, 3, 3]));
}

#[test]
fn only_zeros_passes() {
    assert!(is_continuous(&[0, 0, 0]));
}

#[test]
fn negative_numbers_keep_their_live_behavior() {
    // A negative value counts towards the distinct count but can never be the
    // maximum of a passing set.
    assert!(is_continuous(&[-1, 1, 2]));
    assert!(!is_continuous(&[-1]));
    assert!(!is_continuous(&[-3, -2, -1]));
}
