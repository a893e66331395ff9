use pff::matches::{initialise_matches_capacities, insert_entry_in_matches, NUM_FILE_CATEGORIES};

#[test]
fn initial_buckets_are_empty() {
    let m = initialise_matches_capacities(2048);
    assert_eq!(m.len(), NUM_FILE_CATEGORIES);
    for b in m.iter() {
        assert!(b.is_empty());
    }
    let total: usize = m.iter().map(|b| b.capacity()).sum();
    assert!(total >= 2048);
}

#[test]
fn initial_buckets_zero_and_huge_limits() {
    let m = initialise_matches_capacities(0);
    assert!(m.iter().all(|b| b.is_empty()));
    let m = initialise_matches_capacities(7);
    assert!(m.iter().all(|b| b.is_empty()));
}

#[test]
fn insert_goes_to_category_bucket() {
    let mut m = initialise_matches_capacities(16);
    insert_entry_in_matches(&mut m, String::from("f"), false, true, false);
    insert_entry_in_matches(&mut m, String::from("s"), false, true, true);
    insert_entry_in_matches(&mut m, String::from("d"), false, false, false);
    insert_entry_in_matches(&mut m, String::from(".f"), true, true, false);
    insert_entry_in_matches(&mut m, String::from(".s"), true, true, true);
    insert_entry_in_matches(&mut m, String::from(".d"), true, false, false);
    insert_entry_in_matches(&mut m, String::from("f2"), false, true, false);
    assert_eq!(m[0], vec!["f", "f2"]);
    assert_eq!(m[1], vec!["s"]);
    assert_eq!(m[2], vec!["d"]);
    assert_eq!(m[3], vec![".f"]);
    assert_eq!(m[4], vec![".s"]);
    assert_eq!(m[5], vec![".d"]);
}
