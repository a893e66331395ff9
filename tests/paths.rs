use pff::paths::{base_name_of, dir_record_of, is_hidden_path, join_path, starts_with_dot};

#[test]
fn hidden_paths() {
    assert!(is_hidden_path(&String::from("/tmp/.cache/x")));
    assert!(is_hidden_path(&String::from("/tmp/r/.hidden.txt")));
    assert!(!is_hidden_path(&String::from("/tmp/r/a.txt")));
    assert!(!is_hidden_path(&String::from("./a")));
    assert!(!is_hidden_path(&String::from("../x/./a/..")));
    assert!(!is_hidden_path(&String::from("")));
    assert!(is_hidden_path(&String::from(".git/x")));
    assert!(is_hidden_path(&String::from(".git")));
    assert!(is_hidden_path(&String::from("a/..b")));
}

#[test]
fn join_adds_one_separator() {
    assert_eq!(join_path(&String::from("/tmp/r"), &String::from("a.txt")), "/tmp/r/a.txt");
    assert_eq!(join_path(&String::from("/tmp/r/"), &String::from("a.txt")), "/tmp/r/a.txt");
    assert_eq!(join_path(&String::from(""), &String::from("a")), "a");
}

#[test]
fn directory_records_end_with_separator() {
    assert_eq!(dir_record_of(&String::from("/tmp/r/sub")), "/tmp/r/sub/");
    assert_eq!(dir_record_of(&String::from("/tmp/r/sub/")), "/tmp/r/sub/");
}

#[test]
fn base_names() {
    assert_eq!(base_name_of(&String::from("/tmp/r/sub")), "sub");
    assert_eq!(base_name_of(&String::from("/tmp/r/sub//")), "sub");
    assert_eq!(base_name_of(&String::from("sub")), "sub");
    assert_eq!(base_name_of(&String::from("/")), "");
}

#[test]
fn dot_names() {
    assert!(starts_with_dot(&String::from(".git")));
    assert!(!starts_with_dot(&String::from("git")));
    assert!(!starts_with_dot(&String::from("")));
}
