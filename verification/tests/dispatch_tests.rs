use framework::dispatch::{join_worker_results, merge_in_order, worker_range};
use framework::error::RuntimeError;

fn err(msg: &str) -> RuntimeError {
    RuntimeError::new("test", 0, 0, msg.to_string())
}

#[test]
fn partition_even_split() {
    assert_eq!(worker_range(12, 3, 0), (0, 4));
    assert_eq!(worker_range(12, 3, 1), (4, 8));
    assert_eq!(worker_range(12, 3, 2), (8, 12));
}

#[test]
fn partition_uneven_split_covers_remainder() {
    // 10 objects over 3 workers: chunk of 4, last worker short
    assert_eq!(worker_range(10, 3, 0), (0, 4));
    assert_eq!(worker_range(10, 3, 1), (4, 8));
    assert_eq!(worker_range(10, 3, 2), (8, 10));
}

#[test]
fn partition_more_workers_than_objects() {
    // 3 objects over 8 workers: the later workers are empty
    let ranges: Vec<(usize, usize)> = (0..8).map(|i| worker_range(3, 8, i)).collect();
    assert_eq!(ranges[0], (0, 1));
    assert_eq!(ranges[1], (1, 2));
    assert_eq!(ranges[2], (2, 3));
    for i in 3..8 {
        assert_eq!(ranges[i], (3, 3));
    }
}

#[test]
fn partition_covers_everything_exactly_once() {
    for &(pool, threads) in &[(0usize, 1usize), (1, 1), (5, 2), (10, 3), (16, 4), (7, 16)] {
        let mut owners = vec![0u32; pool];
        for i in 0..threads {
            let (lo, hi) = worker_range(pool, threads, i);
            for x in lo..hi {
                owners[x] += 1;
            }
        }
        assert!(owners.iter().all(|&c| c == 1), "pool {pool} threads {threads}");
    }
}

#[test]
fn merge_keeps_worker_index_order() {
    let partials = vec![vec![1u64, 2], vec![3], vec![], vec![4, 5]];
    assert_eq!(merge_in_order(partials), vec![1, 2, 3, 4, 5]);
}

#[test]
fn merge_of_nothing_is_empty() {
    let partials: Vec<Vec<u64>> = vec![];
    assert_eq!(merge_in_order(partials), Vec::<u64>::new());
}

#[test]
fn join_all_ok_keeps_order() {
    let results: Vec<Result<u32, RuntimeError>> = vec![Ok(10), Ok(20), Ok(30)];
    assert_eq!(join_worker_results(results).unwrap(), vec![10, 20, 30]);
}

#[test]
fn join_returns_first_error() {
    let results: Vec<Result<u32, RuntimeError>> =
        vec![Ok(10), Err(err("first")), Ok(30), Err(err("second"))];
    let e = join_worker_results(results).unwrap_err();
    assert_eq!(e.what(), "first");
}

#[test]
fn join_of_nothing_is_ok() {
    let results: Vec<Result<u32, RuntimeError>> = vec![];
    assert_eq!(join_worker_results(results).unwrap(), Vec::<u32>::new());
}
