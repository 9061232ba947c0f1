use factorize::ignored::FsWatcherIgnored;

#[test]
fn test_none_ignores_nothing() {
    let ignored = FsWatcherIgnored::Nothing;
    assert!(!ignored.should_ignore("/src/index.ts"));
}

#[test]
fn test_single_path() {
    let ignored = FsWatcherIgnored::Path("node_modules".to_string());
    assert!(ignored.should_ignore("/project/node_modules/lodash/index.js"));
    assert!(!ignored.should_ignore("/project/src/index.ts"));
}

#[test]
fn test_multiple_paths() {
    let ignored = FsWatcherIgnored::Paths(vec![
        "node_modules".to_string(),
        ".git".to_string(),
        "dist".to_string(),
    ]);
    assert!(ignored.should_ignore("/project/node_modules/lodash/index.js"));
    assert!(ignored.should_ignore("/project/.git/HEAD"));
    assert!(ignored.should_ignore("/project/dist/bundle.js"));
    assert!(!ignored.should_ignore("/project/src/index.ts"));
}

#[test]
fn test_regex() {
    let ignored = FsWatcherIgnored::Regex(r"node_modules|\.git".to_string());
    assert!(ignored.should_ignore("/project/node_modules/lodash/index.js"));
    assert!(ignored.should_ignore("/project/.git/HEAD"));
    assert!(!ignored.should_ignore("/project/src/index.ts"));
}

#[test]
fn backslashes_are_read_as_separators() {
    let ignored = FsWatcherIgnored::Path("node_modules".to_string());
    assert!(ignored.should_ignore("C:\\project\\node_modules\\lodash\\index.js"));
}

#[test]
fn invalid_globs_are_left_out_of_the_set() {
    // `[` does not close, so neither glob is valid; the empty set builds and
    // matches nothing.
    let ignored = FsWatcherIgnored::Path("a[b".to_string());
    assert!(!ignored.should_ignore("/x/a[b/y"));
    assert!(!ignored.should_ignore("/x/ab/y"));
}

#[test]
fn an_invalid_regex_ignores_nothing() {
    let ignored = FsWatcherIgnored::Regex("(".to_string());
    assert!(!ignored.should_ignore("/x/(/y"));
}

#[test]
fn output_pattern_of_the_image_watcher() {
    let ignored = FsWatcherIgnored::Path("**/*.min.*".to_string());
    assert!(ignored.should_ignore("/pics/cat.min.jpg"));
    assert!(!ignored.should_ignore("/pics/cat.jpg"));
}

#[test]
fn default_ignores_nothing() {
    assert!(!FsWatcherIgnored::default().should_ignore("/node_modules/x"));
}
