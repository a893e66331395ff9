use pff::config::Config;
use pff::find::{concat_lists, filter_elements, filtered_results};
use pff::matches::NUM_FILE_CATEGORIES;

fn base() -> Config {
    Config {
        num_threads: 4,
        file_dir_limit: 2048,
        include_target_in_output: false,
        show_files: true,
        show_dirs: true,
        show_symlinks: true,
        filter_symlinks: false,
        show_hidden: true,
        filter_hidden: false,
        is_filtered: false,
        is_sorted: false,
        sort_asc: true,
        label_pos: 0,
        equality_match: false,
        content_search: false,
    }
}

fn buckets() -> [Vec<String>; NUM_FILE_CATEGORIES] {
    [
        vec![String::from("f1"), String::from("f2")],
        vec![String::from("s1")],
        vec![String::from("d1/")],
        vec![String::from(".f1")],
        vec![String::from(".s1")],
        vec![String::from(".d1/")],
    ]
}

#[test]
fn unfiltered_keeps_every_bucket_in_order() {
    let cfg = base();
    let mut b = buckets();
    let r = filter_elements(&cfg, &mut b);
    assert_eq!(r.len(), 6);
    assert_eq!(concat_lists(r), vec!["f1", "f2", "s1", "d1/", ".f1", ".s1", ".d1/"]);
    assert!(b.iter().all(|x| x.is_empty()));
}

#[test]
fn hide_hidden_keeps_visible_buckets() {
    let mut cfg = base();
    cfg.is_filtered = true;
    cfg.filter_hidden = true;
    cfg.show_hidden = false;
    let mut b = buckets();
    let r = filtered_results(&cfg, &mut b);
    assert_eq!(r, vec!["f1", "f2", "s1", "d1/"]);
    assert_eq!(b[3], vec![".f1"]);
}

#[test]
fn only_hidden() {
    let mut cfg = base();
    cfg.is_filtered = true;
    cfg.filter_hidden = true;
    cfg.show_hidden = true;
    let mut b = buckets();
    assert_eq!(filtered_results(&cfg, &mut b), vec![".f1", ".s1", ".d1/"]);
}

#[test]
fn only_files() {
    let mut cfg = base();
    cfg.is_filtered = true;
    cfg.show_files = true;
    cfg.show_dirs = false;
    let mut b = buckets();
    assert_eq!(filtered_results(&cfg, &mut b), vec!["f1", "f2", "s1", ".f1", ".s1"]);
}

#[test]
fn only_dirs() {
    let mut cfg = base();
    cfg.is_filtered = true;
    cfg.show_files = false;
    cfg.show_dirs = true;
    let mut b = buckets();
    assert_eq!(filtered_results(&cfg, &mut b), vec!["s1", "d1/", ".s1", ".d1/"]);
}

#[test]
fn only_symlinks() {
    let mut cfg = base();
    cfg.is_filtered = true;
    cfg.filter_symlinks = true;
    cfg.show_symlinks = true;
    let mut b = buckets();
    assert_eq!(filtered_results(&cfg, &mut b), vec!["s1", ".s1"]);
}

#[test]
fn no_symlinks() {
    let mut cfg = base();
    cfg.is_filtered = true;
    cfg.filter_symlinks = true;
    cfg.show_symlinks = false;
    let mut b = buckets();
    assert_eq!(filtered_results(&cfg, &mut b), vec!["f1", "f2", "d1/", ".f1", ".d1/"]);
}

#[test]
fn filtered_is_sub_multiset_of_unfiltered() {
    let mut cfg = base();
    cfg.is_filtered = true;
    cfg.filter_hidden = true;
    cfg.show_hidden = false;
    cfg.show_dirs = false;
    let mut b = buckets();
    let all = concat_lists(buckets().to_vec());
    let kept = filtered_results(&cfg, &mut b);
    for k in kept.iter() {
        let in_kept = kept.iter().filter(|x| *x == k).count();
        let in_all = all.iter().filter(|x| *x == k).count();
        assert!(in_kept <= in_all);
    }
    assert_eq!(kept, vec!["f1", "f2", "s1"]);
}

#[test]
fn concat_of_nothing_is_empty() {
    assert!(concat_lists(Vec::new()).is_empty());
    assert!(concat_lists(vec![Vec::new(), Vec::new()]).is_empty());
}

#[test]
fn dirs_with_strict_symlinks_shows_symlinks() {
    let mut cfg = base();
    cfg.is_filtered = true;
    cfg.show_files = false;
    cfg.show_dirs = true;
    cfg.filter_symlinks = true;
    cfg.show_symlinks = true;
    let mut b = buckets();
    assert_eq!(filtered_results(&cfg, &mut b), vec!["s1", ".s1"]);
}
