use std::collections::BTreeMap;

use pff::config::Config;
use pff::find::{filtered_results, prepare_search, Search};
use pff::matches::NUM_FILE_CATEGORIES;
use pff::pattern::PatternMatcher;
use pff::walk::{DirEntryInfo, EntryKind, Walker};

type Tree = BTreeMap<String, Vec<(&'static str, EntryKind)>>;

fn listing(tree: &Tree, dir: &str) -> Vec<DirEntryInfo> {
    tree.get(dir)
        .map(|v| v.iter().map(|(n, k)| DirEntryInfo { name: String::from(*n), kind: *k }).collect())
        .unwrap_or_default()
}

fn walk(
    tree: &Tree,
    m: &PatternMatcher,
    dirs: Vec<String>,
    limit: usize,
    report: bool,
    label_pos: i8,
) -> (Vec<String>, [Vec<String>; NUM_FILE_CATEGORIES]) {
    let mut w = Walker::new(dirs, limit, report);
    while let Some(d) = w.next_dir() {
        let entries = listing(tree, &d);
        w.visit(m, &entries);
    }
    w.finish(label_pos)
}

fn cfg() -> Config {
    Config {
        num_threads: 2,
        file_dir_limit: 1,
        include_target_in_output: false,
        show_files: true,
        show_dirs: true,
        show_symlinks: true,
        filter_symlinks: false,
        show_hidden: false,
        filter_hidden: true,
        is_filtered: true,
        is_sorted: true,
        sort_asc: true,
        label_pos: 0,
        equality_match: true,
        content_search: false,
    }
}

fn sample() -> Tree {
    let mut t: Tree = BTreeMap::new();
    t.insert(
        String::from("/root"),
        vec![("a.txt", EntryKind::File), (".hidden.txt", EntryKind::File), ("sub", EntryKind::Directory)],
    );
    t.insert(String::from("/root/sub"), vec![("a.txt", EntryKind::File)]);
    t
}

fn search(tree: &Tree, pattern: &str, cfg: &Config, root: &str) -> Vec<String> {
    let m = prepare_search(&String::from(pattern), cfg).unwrap();
    let (frontier, mut b) = walk(tree, &m, vec![String::from(root)], 1, cfg.include_target_in_output, cfg.label_pos);
    let seed = filtered_results(cfg, &mut b);
    let mut s = Search::start(cfg, frontier, seed);
    while !s.is_done() {
        let slices = s.next_round(cfg.num_threads);
        let mut overflows = Vec::new();
        let mut found = Vec::new();
        for sl in slices {
            let (o, mut b) = walk(tree, &m, sl, cfg.file_dir_limit, true, cfg.label_pos);
            overflows.push(o);
            found.push(filtered_results(cfg, &mut b));
        }
        s.end_round(overflows, found);
    }
    s.finish(cfg.label_pos, cfg.sort_asc)
}

#[test]
fn exact_search_hides_hidden_and_sorts() {
    let r = search(&sample(), "a.txt", &cfg(), "/root");
    assert_eq!(r, vec!["/root/a.txt", "/root/sub/a.txt"]);
}

#[test]
fn hidden_file_lands_in_hidden_bucket() {
    let t = sample();
    let m = PatternMatcher::new(&String::from("txt"), false).unwrap();
    let (over, b) = walk(&t, &m, vec![String::from("/root")], 100, false, 0);
    assert!(over.is_empty());
    assert_eq!(b[0], vec!["/root/a.txt", "/root/sub/a.txt"]);
    assert_eq!(b[3], vec!["/root/.hidden.txt"]);
}

#[test]
fn budget_defers_subdirectories() {
    let t = sample();
    let m = PatternMatcher::new(&String::from("sub"), true).unwrap();
    let (over, b) = walk(&t, &m, vec![String::from("/root")], 2, false, 0);
    assert_eq!(over, vec!["/root/sub"]);
    assert!(b.iter().all(|x| x.is_empty()));
    let (over, b) = walk(&t, &m, over, 2, true, 0);
    assert!(over.is_empty());
    assert_eq!(b[2], vec!["/root/sub/"]);
}

#[test]
fn root_reported_only_when_asked() {
    let t = sample();
    let m = PatternMatcher::new(&String::from("root"), true).unwrap();
    let (_, b) = walk(&t, &m, vec![String::from("/root")], 100, false, 0);
    assert!(b[2].is_empty());
    let (_, b) = walk(&t, &m, vec![String::from("/root")], 100, true, 0);
    assert_eq!(b[2], vec!["/root/"]);
}

#[test]
fn hidden_directory_and_symlink_buckets_labelled() {
    let mut t: Tree = BTreeMap::new();
    t.insert(String::from("/r"), vec![(".git", EntryKind::Directory), ("ln", EntryKind::Symlink)]);
    t.insert(String::from("/r/.git"), vec![("ln", EntryKind::Symlink)]);
    let m = PatternMatcher::new(&String::from("^(ln|\\.git)$"), false).unwrap();
    let (_, b) = walk(&t, &m, vec![String::from("/r")], 100, false, -1);
    assert_eq!(b[1], vec!["FSR /r/ln"]);
    assert_eq!(b[4], vec!["FSH /r/.git/ln"]);
    assert_eq!(b[5], vec!["D_H /r/.git/"]);
}

#[test]
fn every_queued_directory_traversed_or_returned() {
    let mut t: Tree = BTreeMap::new();
    t.insert(
        String::from("/r"),
        vec![("a", EntryKind::Directory), ("b", EntryKind::Directory), ("c", EntryKind::Directory)],
    );
    t.insert(String::from("/r/a"), vec![("x", EntryKind::Directory)]);
    let m = PatternMatcher::new(&String::from("zzz"), true).unwrap();
    let mut w = Walker::new(vec![String::from("/r")], 5, false);
    let mut traversed = Vec::new();
    while let Some(d) = w.next_dir() {
        traversed.push(d.clone());
        let e = listing(&t, &d);
        w.visit(&m, &e);
    }
    let (over, _) = w.finish(0);
    assert_eq!(traversed, vec!["/r", "/r/a"]);
    assert_eq!(over, vec!["/r/b", "/r/c", "/r/a/x"]);
}

#[test]
fn unfiltered_labelled_search_descending() {
    let mut c = cfg();
    c.is_filtered = false;
    c.equality_match = false;
    c.label_pos = 1;
    c.sort_asc = false;
    let r = search(&sample(), "txt", &c, "/root");
    assert_eq!(r, vec!["/root/sub/a.txt FRR", "/root/a.txt FRR", "/root/.hidden.txt FRH"]);
}

#[test]
fn content_search_records_matching_lines() {
    let mut t: Tree = BTreeMap::new();
    t.insert(
        String::from("/r"),
        vec![("notes.txt", EntryKind::File), ("empty.txt", EntryKind::File), ("gone", EntryKind::Symlink), ("d", EntryKind::Directory)],
    );
    let m = PatternMatcher::new(&String::from("TODO"), false).unwrap();
    let entries = listing(&t, "/r");
    let contents = vec![
        Some(vec![Some(String::from("x")), Some(String::from("TODO: y")), Some(String::from("TODO: z"))]),
        Some(vec![Some(String::from("nothing"))]),
        None,
        None,
    ];
    let mut w = Walker::new(vec![String::from("/r")], 100, false);
    let d = w.next_dir().unwrap();
    assert_eq!(d, "/r");
    w.visit_content(&m, &entries, &contents);
    assert_eq!(w.hits[0], vec![vec![(2, String::from("TODO: y")), (3, String::from("TODO: z"))]]);
    assert_eq!(w.matches[0], vec!["/r/notes.txt"]);
    assert_eq!(w.processed, 4);
    let (over, b) = w.finish(0);
    assert_eq!(over, vec!["/r/d"]);
    assert_eq!(b[0], vec!["/r/notes.txt\n2:TODO: y\n3:TODO: z"]);
}

#[test]
fn content_search_hidden_symlink_labelled() {
    let mut t: Tree = BTreeMap::new();
    t.insert(String::from("/r"), vec![(".link", EntryKind::Symlink)]);
    let m = PatternMatcher::new(&String::from("hit"), true).unwrap();
    let entries = listing(&t, "/r");
    let contents = vec![Some(vec![Some(String::from("miss")), Some(String::from("hit"))])];
    let mut w = Walker::new(vec![String::from("/r")], 100, true);
    assert!(w.next_dir().is_some());
    w.visit_content(&m, &entries, &contents);
    let (_, b) = w.finish(-1);
    assert_eq!(b[4], vec!["FSH /r/.link\n2:hit"]);
}

#[test]
fn found_file_of_entry() {
    let f = pff::walk::FoundFile::of_entry(&String::from("/r/.cfg"), true, &String::from("x"), false);
    assert_eq!(f.p, "/r/.cfg/x");
    assert!(f.is_hidden && !f.is_sym);
    let f = pff::walk::FoundFile::of_entry(&String::from("/r/"), false, &String::from(".x"), true);
    assert_eq!(f.p, "/r/.x");
    assert!(f.is_hidden && f.is_sym);
    let f = pff::walk::FoundFile::of_entry(&String::from("/r"), false, &String::from("x"), false);
    assert!(!f.is_hidden);
}

#[test]
fn every_given_directory_is_read_despite_budget() {
    let mut t: Tree = BTreeMap::new();
    t.insert(String::from("/a"), vec![("f1", EntryKind::File), ("f2", EntryKind::File)]);
    t.insert(String::from("/b"), vec![]);
    let m = PatternMatcher::new(&String::from("b"), true).unwrap();
    let (over, b) = walk(&t, &m, vec![String::from("/a"), String::from("/b")], 1, true, 0);
    assert!(over.is_empty());
    assert_eq!(b[2], vec!["/b/"]);
}

#[test]
fn relative_hidden_root_marks_everything_hidden() {
    let mut t: Tree = BTreeMap::new();
    t.insert(String::from(".git"), vec![("x", EntryKind::File)]);
    t.insert(String::from("."), vec![("y", EntryKind::File)]);
    let m = PatternMatcher::new(&String::from("^[xy]$"), false).unwrap();
    let (_, b) = walk(&t, &m, vec![String::from(".git")], 100, false, 1);
    assert_eq!(b[3], vec![".git/x FRH"]);
    let (_, b) = walk(&t, &m, vec![String::from(".")], 100, false, 1);
    assert_eq!(b[0], vec!["./y FRR"]);
}

#[test]
fn unsorted_search_keeps_nothing() {
    let mut c = cfg();
    c.is_sorted = false;
    let r = search(&sample(), "a.txt", &c, "/root");
    assert!(r.is_empty());
}

#[test]
fn search_rounds_deal_and_merge_in_order() {
    let mut c = cfg();
    c.num_threads = 3;
    let mut s = Search::start(&c, vec![String::from("/a"), String::from("/b")], vec![String::from("/x")]);
    assert!(!s.is_done());
    let r = s.next_round(c.num_threads);
    assert_eq!(r, vec![vec![String::from("/a")], vec![String::from("/b")]]);
    assert!(s.is_done());
    s.end_round(vec![vec![String::from("/a/c")], vec![]], vec![vec![String::from("/b/z")], vec![String::from("/a/y")]]);
    assert_eq!(s.frontier, vec!["/a/c"]);
    assert_eq!(s.results, vec!["/x", "/b/z", "/a/y"]);
    assert_eq!(s.finish(0, true), vec!["/a/y", "/b/z", "/x"]);
}
