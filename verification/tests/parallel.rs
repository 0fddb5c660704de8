use deet::parallel::{gather, worker_of};

#[test]
fn workers_take_the_items_in_turn() {
    assert_eq!(worker_of(0, 10), 0);
    assert_eq!(worker_of(9, 10), 9);
    assert_eq!(worker_of(10, 10), 0);
    assert_eq!(worker_of(14, 10), 4);
    assert_eq!(worker_of(7, 1), 0);
    assert_eq!(worker_of(usize::MAX, 2), 1);
}

#[test]
fn results_come_out_in_the_order_of_the_items() {
    let items = vec![6u32, 7, 8, 9, 10, 1, 2, 3, 4, 5, 12, 18, 11, 5, 20];
    let mut results: Vec<(usize, u32)> =
        items.iter().enumerate().map(|(i, n)| (i, n * n)).collect();
    results.reverse();
    results.swap(2, 9);
    let squares = gather(items.len(), results);
    assert_eq!(squares, vec![36, 49, 64, 81, 100, 1, 4, 9, 16, 25, 144, 324, 121, 25, 400]);
}

#[test]
fn missing_results_are_defaults_and_the_last_one_counts() {
    assert_eq!(gather(4, vec![(2, 7i32), (0, 5)]), vec![5, 0, 7, 0]);
    assert_eq!(gather(2, vec![(1, "a".to_string()), (1, "b".to_string())]), vec!["", "b"]);
    assert_eq!(gather::<u8>(0, vec![]), Vec::<u8>::new());
    assert_eq!(gather::<u8>(3, vec![]), vec![0, 0, 0]);
}
