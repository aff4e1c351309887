use disbatch::order::sorted_indices;

#[test]
fn items_are_ordered_by_key() {
    assert_eq!(sorted_indices(&vec![(3, 0), (1, 5), (1, -5), (2, 0)]), vec![2, 1, 3, 0]);
    assert_eq!(sorted_indices(&vec![]), Vec::<usize>::new());
}

#[test]
fn items_with_equal_keys_keep_their_order() {
    assert_eq!(sorted_indices(&vec![(1, 0), (0, 0), (1, 0), (0, 0), (1, 0)]), vec![1, 3, 0, 2, 4]);
}
