use limit_analysis::sorting::{sort_i64, sort_usize};

#[test]
fn sort_usize_orders_ascending_with_duplicates() {
    assert_eq!(sort_usize(&vec![5, 1, 3, 1, 9, 0]), vec![0, 1, 1, 3, 5, 9]);
    assert_eq!(sort_usize(&vec![]), Vec::<usize>::new());
}

#[test]
fn sort_i64_orders_negative_values() {
    assert_eq!(sort_i64(&vec![3, -7, 0, -7, 12]), vec![-7, -7, 0, 3, 12]);
}
