use emd::emd_state::{slice_indices, worker_count_for, EmdState};

#[test]
fn seven_items_over_three_workers() {
    let slices = slice_indices(7, 3);
    assert_eq!(slices, vec![0..3, 3..5, 5..7]);
    let items = vec!["a", "b", "c", "d", "e", "f", "g"];
    let mut joined = Vec::new();
    for r in &slices {
        joined.extend_from_slice(&items[r.clone()]);
    }
    assert_eq!(joined, items);
    let sizes: Vec<usize> = slices.iter().map(|r| r.end - r.start).collect();
    let max = *sizes.iter().max().unwrap();
    let min = *sizes.iter().min().unwrap();
    assert!(max - min <= 1);
}

#[test]
fn small_job_gets_single_slice() {
    assert_eq!(slice_indices(2, 6), vec![0..2]);
    assert_eq!(slice_indices(0, 1), vec![0..0]);
    assert_eq!(slice_indices(1, 4), vec![0..1]);
}

#[test]
fn more_workers_than_items_from_three_up() {
    assert_eq!(slice_indices(3, 6), vec![0..1, 1..2, 2..3, 3..3, 3..3, 3..3]);
}

#[test]
fn even_split_and_single_worker() {
    assert_eq!(slice_indices(6, 3), vec![0..2, 2..4, 4..6]);
    assert_eq!(slice_indices(5, 1), vec![0..5]);
    assert_eq!(slice_indices(2, 2), vec![0..1, 1..2]);
    assert_eq!(slice_indices(10, 4), vec![0..3, 3..6, 6..8, 8..10]);
}

#[test]
fn worker_count_by_cpus() {
    assert_eq!(worker_count_for(0), 1);
    assert_eq!(worker_count_for(1), 1);
    assert_eq!(worker_count_for(2), 2);
    assert_eq!(worker_count_for(5), 2);
    assert_eq!(worker_count_for(6), 4);
    assert_eq!(worker_count_for(9), 4);
    assert_eq!(worker_count_for(10), 6);
    assert_eq!(worker_count_for(64), 6);
}

#[test]
fn machine_worker_count_is_one_of_the_tiers() {
    let n = EmdState::determine_worker_count();
    assert!(n == 1 || n == 2 || n == 4 || n == 6);
}
