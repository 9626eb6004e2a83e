use static_compress::paths::{
    compressed_extensions, destination_path, is_blacklisted, is_hidden, str_search,
};
use static_compress::roots::{extract_paths, fix_filters, search_root};
use static_compress::text::compare;
use std::cmp::Ordering;

#[test]
fn hidden_segments_are_detected() {
    assert!(is_hidden(".hidden.txt"));
    assert!(is_hidden("./.hidden.txt"));
    assert!(is_hidden("./.git/config"));
    assert!(is_hidden("a/.cache/b/c.txt"));
    assert!(!is_hidden("./a.txt"));
    assert!(!is_hidden("../docs/a.txt"));
    assert!(!is_hidden("."));
    assert!(!is_hidden("./dir.name/file"));
    assert!(!is_hidden(""));
}

#[test]
fn blacklisted_extensions_are_detected() {
    assert!(is_blacklisted("./a.txt.gz"));
    assert!(is_blacklisted("./IMAGE.WEBP"));
    assert!(is_blacklisted("x/y/archive.Br"));
    assert!(is_blacklisted("photo.jpg"));
    assert!(!is_blacklisted("./a.txt"));
    assert!(!is_blacklisted("./gz"));
    assert!(!is_blacklisted("./.gz"));
    assert!(!is_blacklisted("./a.gz/readme"));
    assert!(!is_blacklisted("./a."));
}

#[test]
fn blacklist_is_sorted() {
    let list = compressed_extensions();
    for w in list.windows(2) {
        assert_eq!(compare(w[0], w[1]), Ordering::Less);
    }
    assert!(list.contains(&"gz") && list.contains(&"br") && list.contains(&"webp"));
}

#[test]
fn str_search_finds_and_places() {
    let sorted = ["br", "gz", "webp"];
    assert_eq!(str_search(&sorted, "gz", true), Ok(1));
    assert_eq!(str_search(&sorted, "GZ", true), Err(0));
    assert_eq!(str_search(&sorted, "c", true), Err(1));
    assert_eq!(str_search(&sorted, "GZ", false), Ok(1));
    assert_eq!(str_search(&sorted, "WebP", false), Ok(2));
    assert_eq!(str_search(&sorted, "a", false), Err(0));
    assert_eq!(str_search(&sorted, "zz", true), Err(3));
    assert_eq!(str_search(&[], "x", true), Err(0));
}

#[test]
fn compare_orders_by_code_point() {
    assert_eq!(compare("abc", "abd"), Ordering::Less);
    assert_eq!(compare("ab", "abc"), Ordering::Less);
    assert_eq!(compare("b", "abc"), Ordering::Greater);
    assert_eq!(compare("Z", "a"), Ordering::Less);
    assert_eq!(compare("é", "z"), Ordering::Greater);
    assert_eq!(compare("", ""), Ordering::Equal);
}

#[test]
fn destination_appends_extension() {
    assert_eq!(destination_path("./a.txt", "gz"), "./a.txt.gz");
    assert_eq!(destination_path("dir/b", "br"), "dir/b.br");
}

#[test]
fn fix_filters_prefixes_relative_paths() {
    let mut f = vec![
        "*.txt".to_string(),
        "./src/*.rs".to_string(),
        "/etc/*.conf".to_string(),
        "docs/**/*.md".to_string(),
    ];
    fix_filters(&mut f);
    assert_eq!(f, vec!["./*.txt", "./src/*.rs", "/etc/*.conf", "./docs/**/*.md"]);
}

#[test]
fn search_roots_follow_literal_prefix() {
    assert_eq!(search_root("*.txt"), ".");
    assert_eq!(search_root("./*.txt"), ".");
    assert_eq!(search_root("./src/*.rs"), "./src");
    assert_eq!(search_root("src/*.rs"), "./src");
    assert_eq!(search_root("./a*.txt"), ".");
    assert_eq!(search_root("./docs/ch?/x"), "./docs");
    assert_eq!(search_root("./docs/chap{1,2}"), "./docs");
    assert_eq!(search_root("src/main.rs"), "./src/main.rs");
    assert_eq!(search_root("/usr/lib/*.so"), "/usr/lib");
    assert_eq!(search_root("/*.txt"), "/");
    assert_eq!(search_root("/a*"), "/");
    assert_eq!(search_root("./www/"), "./www");
}

#[test]
fn extract_paths_collapses_duplicates() {
    let filters = vec![
        "./*.txt".to_string(),
        "./*.html".to_string(),
        "./css/*.css".to_string(),
        "./css/".to_string(),
    ];
    let roots = extract_paths(&filters);
    assert_eq!(roots, vec!["."]);
    assert!(extract_paths(&Vec::new()).is_empty());
}

#[test]
fn nested_roots_are_left_out() {
    let roots = extract_paths(&vec!["./sub/*.txt".to_string(), "./*.txt".to_string()]);
    assert_eq!(roots, vec!["."]);
    let roots = extract_paths(&vec!["./a/*.txt".to_string(), "./ab/*.txt".to_string()]);
    assert_eq!(roots, vec!["./a", "./ab"]);
    let roots = extract_paths(&vec!["/usr/lib/*.so".to_string(), "/*.txt".to_string()]);
    assert_eq!(roots, vec!["/"]);
    let roots = extract_paths(&vec!["./x/y/*.md".to_string(), "./x/*.md".to_string(), "../up/*".to_string()]);
    assert_eq!(roots, vec!["./x", "../up"]);
}
