use syscall_monitor::order::{keys_in_order, sort_by_key};

#[test]
fn keys_in_order_ascending() {
    assert!(keys_in_order(1, 2, false));
    assert!(keys_in_order(2, 2, false));
    assert!(!keys_in_order(3, 2, false));
}

#[test]
fn keys_in_order_descending() {
    assert!(keys_in_order(3, 2, true));
    assert!(keys_in_order(2, 2, true));
    assert!(!keys_in_order(1, 2, true));
}

#[test]
fn sort_ascending_is_stable() {
    let sorted = sort_by_key(vec![(3, 'a'), (1, 'b'), (3, 'c'), (2, 'd'), (1, 'e')], false);
    assert_eq!(sorted, vec![(1, 'b'), (1, 'e'), (2, 'd'), (3, 'a'), (3, 'c')]);
}

#[test]
fn sort_descending_is_stable() {
    let sorted = sort_by_key(vec![(3, 'a'), (1, 'b'), (3, 'c'), (2, 'd'), (1, 'e')], true);
    assert_eq!(sorted, vec![(3, 'a'), (3, 'c'), (2, 'd'), (1, 'b'), (1, 'e')]);
}

#[test]
fn sort_of_nothing_and_of_one() {
    assert_eq!(sort_by_key(Vec::<(i64, u8)>::new(), true), vec![]);
    assert_eq!(sort_by_key(vec![(7, 1u8)], false), vec![(7, 1u8)]);
}

#[test]
fn sort_handles_the_extreme_keys() {
    let sorted = sort_by_key(vec![(i64::MAX, 'a'), (i64::MIN, 'b'), (0, 'c')], true);
    assert_eq!(sorted, vec![(i64::MAX, 'a'), (0, 'c'), (i64::MIN, 'b')]);
    let sorted = sort_by_key(vec![(i64::MAX, 'a'), (i64::MIN, 'b'), (0, 'c')], false);
    assert_eq!(sorted, vec![(i64::MIN, 'b'), (0, 'c'), (i64::MAX, 'a')]);
}

#[test]
fn sort_of_sorted_input_changes_nothing() {
    let input = vec![(1, "x"), (2, "y"), (2, "z"), (5, "w")];
    assert_eq!(sort_by_key(input.clone(), false), input);
}
