use std::cmp::Ordering;

use pff::label::add_label;
use pff::sort::{compare_results, sort_results};

#[test]
fn ascending_plain() {
    let mut v = vec![String::from("/r/b"), String::from("/r/a"), String::from("/r/c")];
    sort_results(&mut v, 0, true);
    assert_eq!(v, vec!["/r/a", "/r/b", "/r/c"]);
}

#[test]
fn descending_plain() {
    let mut v = vec![String::from("/r/b"), String::from("/r/a"), String::from("/r/c")];
    sort_results(&mut v, 0, false);
    assert_eq!(v, vec!["/r/c", "/r/b", "/r/a"]);
}

#[test]
fn prefix_labels_ignored() {
    let a = add_label(&String::from("/r/a"), -1, true, false, false);
    let b = add_label(&String::from("/r/b"), -1, false, true, false);
    let mut v = vec![b.clone(), a.clone()];
    sort_results(&mut v, -1, true);
    assert_eq!(v, vec![a, b]);
}

#[test]
fn suffix_labels_ignored() {
    let a = add_label(&String::from("/r/a"), 1, false, true, true);
    let ab = add_label(&String::from("/r/ab"), 1, false, true, false);
    let mut v = vec![ab.clone(), a.clone()];
    sort_results(&mut v, 1, true);
    assert_eq!(v, vec![a, ab]);
}

#[test]
fn compare_keys_prefix_first() {
    assert_eq!(compare_results(&String::from("/a"), &String::from("/ab"), 0, true), Ordering::Less);
    assert_eq!(compare_results(&String::from("/a"), &String::from("/ab"), 0, false), Ordering::Greater);
    assert_eq!(compare_results(&String::from("FRR /x"), &String::from("D_H /x"), -1, true), Ordering::Equal);
}

#[test]
fn sorting_twice_gives_same_keys() {
    let mut v: Vec<String> = ["/z", "/a", "/m", "/a", "/b/c", "/b"].iter().map(|s| String::from(*s)).collect();
    sort_results(&mut v, 0, true);
    let once = v.clone();
    sort_results(&mut v, 0, true);
    assert_eq!(v, once);
    assert_eq!(once, vec!["/a", "/a", "/b", "/b/c", "/m", "/z"]);
}

#[test]
fn sort_empty_and_single() {
    let mut v: Vec<String> = Vec::new();
    sort_results(&mut v, 0, true);
    assert!(v.is_empty());
    let mut v = vec![String::from("/x")];
    sort_results(&mut v, 1, false);
    assert_eq!(v, vec!["/x"]);
}
