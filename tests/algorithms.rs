use toybox::algorithms::{bin_search_position, find_max, get_nth_prime, is_prime};

#[test]
fn max_examples() {
    assert_eq!(find_max(&[1, 2, 3, 4, 5, 10, 7, 6, 8, 9]), 10);
    assert_eq!(find_max(&[0, 0, 0, 0, 0, 0, 0, 0, 0, 0]), 0);
    assert_eq!(find_max(&[-1, 2, -3, 4, -5, -10, -7, 6, -8, -9]), 6);
}

#[test]
fn prime_examples() {
    assert_eq!(get_nth_prime(1), 2);
    assert_eq!(get_nth_prime(2), 3);
    assert_eq!(get_nth_prime(3), 5);
    assert_eq!(get_nth_prime(4), 7);
    assert_eq!(get_nth_prime(5), 11);
    assert_eq!(get_nth_prime(7), 17);
    assert_eq!(get_nth_prime(10000), 104729);
}

#[test]
fn primality_edges() {
    assert!(!is_prime(1));
    assert!(is_prime(0));
    assert!(is_prime(2));
    assert!(is_prime(3));
    assert!(!is_prime(4));
    assert!(!is_prime(25));
    assert!(is_prime(4294967291));
    assert!(!is_prime(4294967295));
}

#[test]
fn bin_search_examples() {
    let arr = [1, 2, 3, 4, 5, 6, 8, 9, 10, 11];
    assert_eq!(bin_search_position(&arr, 5), Some(4));
    assert_eq!(bin_search_position(&arr, 7), None);
    assert_eq!(bin_search_position(&arr, 9), Some(7));
    assert_eq!(bin_search_position(&arr, 13), None);
    assert_eq!(bin_search_position(&arr, 1), Some(0));
    assert_eq!(bin_search_position(&arr, -2), None);
}

#[test]
fn bin_search_finds_last_of_equal_keys() {
    let arr = [1, 3, 3, 3, 5, 5, 7, 7, 7, 9];
    assert_eq!(bin_search_position(&arr, 3), Some(3));
    assert_eq!(bin_search_position(&arr, 7), Some(8));
    assert_eq!(bin_search_position(&arr, 9), Some(9));
}
