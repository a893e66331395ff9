use pff::config::Config;
use pff::find::prepare_search;
use pff::pattern::{ConfigError, PatternMatcher};

fn cfg(threads: usize, exact: bool) -> Config {
    Config {
        num_threads: threads,
        file_dir_limit: 2048,
        include_target_in_output: false,
        show_files: true,
        show_dirs: true,
        show_symlinks: true,
        filter_symlinks: false,
        show_hidden: true,
        filter_hidden: false,
        is_filtered: false,
        is_sorted: true,
        sort_asc: true,
        label_pos: 0,
        equality_match: exact,
        content_search: false,
    }
}

#[test]
fn exact_match_compares_whole_name() {
    let m = PatternMatcher::new(&String::from("a.txt"), true).unwrap();
    assert!(m.is_match("a.txt"));
    assert!(!m.is_match("ba.txt"));
    assert!(!m.is_match("a.tx"));
    assert!(!m.is_match("abtxt"));
}

#[test]
fn regex_match_searches_anywhere() {
    let m = PatternMatcher::new(&String::from("a.txt"), false).unwrap();
    assert!(m.is_match("a.txt"));
    assert!(m.is_match("xa_txty"));
    assert!(!m.is_match("b.txt"));
    let anchored = PatternMatcher::new(&String::from("^a.c$"), false).unwrap();
    assert!(anchored.is_match("abc"));
    assert!(!anchored.is_match("xabc"));
}

#[test]
fn invalid_regex_is_rejected() {
    let r = PatternMatcher::new(&String::from("foo(bar"), false);
    assert_eq!(r.err(), Some(ConfigError::InvalidPattern));
    assert!(PatternMatcher::new(&String::from("foo(bar"), true).is_ok());
}

#[test]
fn one_thread_is_a_config_error() {
    let r = prepare_search(&String::from("x"), &cfg(1, false));
    assert_eq!(r.err(), Some(ConfigError::InvalidThreadCount));
    let r = prepare_search(&String::from("foo(bar"), &cfg(0, false));
    assert_eq!(r.err(), Some(ConfigError::InvalidThreadCount));
}

#[test]
fn bad_pattern_after_thread_check() {
    let r = prepare_search(&String::from("foo(bar"), &cfg(2, false));
    assert_eq!(r.err(), Some(ConfigError::InvalidPattern));
    assert!(prepare_search(&String::from("foo(bar"), &cfg(2, true)).is_ok());
}

#[test]
fn error_messages() {
    assert_eq!(ConfigError::InvalidThreadCount.message(), "invalid number of threads, '-t' MUST be >= 2");
    assert_eq!(ConfigError::InvalidPattern.message(), "Failed to compile regex");
}

#[test]
fn content_lines_matching_todo() {
    let m = PatternMatcher::new(&String::from("TODO"), false).unwrap();
    let lines = vec![Some(String::from("x")), Some(String::from("TODO: y")), Some(String::from("TODO: z"))];
    let hits = m.grep_lines(&lines);
    assert_eq!(hits, vec![(2, String::from("TODO: y")), (3, String::from("TODO: z"))]);
}

#[test]
fn content_lines_exact_mode_and_none() {
    let m = PatternMatcher::new(&String::from("TODO"), true).unwrap();
    let lines = vec![Some(String::from("TODO")), Some(String::from("TODO: y")), Some(String::from("TODO"))];
    assert_eq!(m.grep_lines(&lines), vec![(1, String::from("TODO")), (3, String::from("TODO"))]);
    assert!(m.grep_lines(&Vec::new()).is_empty());
}

#[test]
fn unreadable_line_keeps_numbering() {
    let m = PatternMatcher::new(&String::from("TODO"), false).unwrap();
    let lines = vec![Some(String::from("x")), None, Some(String::from("TODO: z"))];
    assert_eq!(m.grep_lines(&lines), vec![(3, String::from("TODO: z"))]);
}
