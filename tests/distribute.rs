use pff::find::{distribute_paths_per_thread, threads_for_round};

fn paths(n: usize) -> Vec<String> {
    (0..n).map(|i| format!("/d{}", i)).collect()
}

#[test]
fn interleaves_paths_across_threads() {
    let mut p = paths(5);
    let r = distribute_paths_per_thread(&mut p, 2);
    assert!(p.is_empty());
    assert_eq!(r, vec![vec!["/d0", "/d2", "/d4"], vec!["/d1", "/d3"]]);
}

#[test]
fn every_path_assigned_exactly_once() {
    let mut p = paths(23);
    let all = p.clone();
    let r = distribute_paths_per_thread(&mut p, 4);
    assert_eq!(r.len(), 4);
    let mut seen: Vec<String> = r.into_iter().flatten().collect();
    seen.sort();
    let mut want = all;
    want.sort();
    assert_eq!(seen, want);
}

#[test]
fn more_threads_than_paths() {
    let mut p = paths(2);
    let r = distribute_paths_per_thread(&mut p, 3);
    assert_eq!(r, vec![vec![String::from("/d0")], vec![String::from("/d1")], Vec::<String>::new()]);
}

#[test]
fn round_uses_at_most_one_thread_per_directory() {
    assert_eq!(threads_for_round(3, 8), 3);
    assert_eq!(threads_for_round(100, 8), 8);
    assert_eq!(threads_for_round(0, 8), 0);
}
