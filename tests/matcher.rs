use static_compress::error::Error;
use static_compress::matcher::{decide_path, PathMatcher};
use static_compress::paths::destination_path;
use static_compress::roots::fix_filters;

#[test]
fn hidden_file_is_not_taken() {
    let mut filters = vec!["*.txt".to_string()];
    fix_filters(&mut filters);
    let m = PathMatcher::new(&filters, true).unwrap();
    assert!(m.admits("./a.txt", false));
    assert!(!m.admits("./.hidden.txt", false));
    assert_eq!(destination_path("./a.txt", "gz"), "./a.txt.gz");
}

#[test]
fn blacklisted_file_is_not_taken_even_when_matched() {
    let filters = vec!["./*".to_string()];
    let m = PathMatcher::new(&filters, true).unwrap();
    assert!(m.admits("./a.txt", false));
    assert!(!m.admits("./a.txt.gz", false));
    assert!(!m.admits("./b.BR", false));
}

#[test]
fn directories_are_descended_unless_hidden() {
    let filters = vec!["./*.txt".to_string()];
    let m = PathMatcher::new(&filters, true).unwrap();
    assert!(m.admits("./docs", true));
    assert!(!m.admits("./.git", true));
    assert!(!m.admits("./.git/a.txt", false));
}

#[test]
fn star_does_not_cross_directories() {
    let filters = vec!["./*.txt".to_string(), "./deep/**/*.md".to_string()];
    let m = PathMatcher::new(&filters, true).unwrap();
    assert!(!m.admits("./sub/a.txt", false));
    assert!(m.admits("./deep/x/y/z.md", false));
}

#[test]
fn case_insensitive_matching() {
    let filters = vec!["./*.txt".to_string()];
    assert!(!PathMatcher::new(&filters, true).unwrap().admits("./A.TXT", false));
    assert!(PathMatcher::new(&filters, false).unwrap().admits("./A.TXT", false));
}

#[test]
fn malformed_or_missing_patterns_are_refused() {
    let bad = vec!["./a[".to_string()];
    assert!(matches!(PathMatcher::new(&bad, true), Err(Error::InvalidIncludeFilter)));
    assert!(matches!(PathMatcher::new(&Vec::new(), true), Err(Error::InvalidUsage)));
}

#[test]
fn decision_with_given_match() {
    assert!(decide_path("./a.txt", false, true));
    assert!(!decide_path("./a.txt", false, false));
    assert!(!decide_path("./a.gz", false, true));
    assert!(!decide_path("./.a.txt", false, true));
    assert!(decide_path("./dir", true, false));
}
