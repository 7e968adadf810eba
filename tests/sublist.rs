use toybox::sublist::{compare, is_sublist, prefix_function, Comparison};

fn test_data() -> Vec<(Vec<u32>, Vec<u32>)> {
    let mut data = Vec::new();
    data.push((vec![1, 2, 3], vec![1, 2, 3]));
    data.push((vec![1, 2, 3, 4], vec![1, 2, 3]));
    data.push((vec![4, 1, 2, 3], vec![1, 2, 3]));
    data.push((vec![5, 6, 7], vec![1, 2, 3, 5, 6, 7, 8]));
    data.push((vec![5, 6, 7], vec![1, 2, 3]));
    data.push((vec![1, 2, 4, 3], vec![1, 2, 3]));
    data
}

#[test]
fn test_transform() {
    let _data = test_data();

    let res: Vec<Comparison> = test_data().iter().map(|(a, b)| compare(a, b)).collect();

    assert_eq!(res[0], Comparison::Equal);
    assert_eq!(res[1], Comparison::Superlist);
    assert_eq!(res[2], Comparison::Superlist);
    assert_eq!(res[3], Comparison::Sublist);
    assert_eq!(res[4], Comparison::Other);
    assert_eq!(res[5], Comparison::Other);
}

#[test]
fn prefix_function_of_periodic_list() {
    assert_eq!(prefix_function(&[1, 2, 1, 2, 1, 3, 1]), vec![0, 0, 1, 2, 3, 0, 1]);
    assert_eq!(prefix_function(&[7, 7, 7, 7]), vec![0, 1, 2, 3]);
    assert_eq!(prefix_function(&[]), Vec::<usize>::new());
}

#[test]
fn sublist_needs_fallback_along_borders() {
    assert!(is_sublist(&[1, 1, 2], &[1, 1, 1, 2]));
    assert!(is_sublist(&[1, 2, 1, 3], &[1, 2, 1, 2, 1, 3]));
    assert!(!is_sublist(&[1, 2, 1, 3], &[1, 2, 1, 2, 1, 2]));
    assert!(is_sublist(&[9], &[1, 9]));
}

#[test]
fn empty_lists_are_other() {
    assert!(!is_sublist(&[], &[]));
    assert_eq!(compare(&[], &[]), Comparison::Other);
}
