use advanced_rust::concurrency::{chunk_sums, max_slice, sum_slice};

#[test]
fn slice_sum_and_max() {
    assert_eq!(sum_slice(&[1, 2, 3, 4, 5]), 15);
    assert_eq!(sum_slice(&[10, 20, 30]), 60);
    assert_eq!(sum_slice(&[]), 0);
    assert_eq!(max_slice(&[10, 20, 30]), Some(30));
    assert_eq!(max_slice(&[-3, -1, -2]), Some(-1));
    assert_eq!(max_slice(&[]), None);
}

#[test]
fn chunk_sums_of_pairs() {
    assert_eq!(chunk_sums(&[1, 2, 3, 4, 5], 2), vec![3, 7, 5]);
    assert_eq!(chunk_sums(&[1, 2, 3, 4], 2), vec![3, 7]);
    assert_eq!(chunk_sums(&[], 3), Vec::<i32>::new());
    assert_eq!(chunk_sums(&[5, 6], 10), vec![11]);
}

#[test]
fn chunk_sums_add_up_to_the_total() {
    let data = [3, -1, 4, 1, -5, 9, 2, 6];
    for size in 1..10 {
        let sums = chunk_sums(&data, size);
        assert_eq!(sum_slice(&sums), sum_slice(&data));
    }
}
