use factorize::disk::{event_batch, recursive_patterns, RawEventKind, WatchPattern, WatchSet};
use factorize::events::{FsEvent, FsEventKind, FsWatcherOptions};
use factorize::executor::{ExecutorState, Notice};
use factorize::ignored::FsWatcherIgnored;
use factorize::paths::PathManager;
use factorize::scanner::{changed_events, missing_events, scan_targets};
use factorize::trigger::{find_associated_events, PathStatus};
use std::path::Path;

fn s(x: &str) -> String {
    x.to_string()
}

fn status_of(p: &str) -> PathStatus {
    let path = Path::new(p);
    PathStatus { exists: path.exists(), is_file: path.is_file(), is_dir: path.is_dir() }
}

fn ev(p: &str, kind: FsEventKind) -> FsEvent {
    FsEvent { path: s(p), kind }
}

#[test]
fn test_find_file_event() {
    let mut path_manager = PathManager::default();
    path_manager.update(
        (vec![s("/path/a/b/index.js")], vec![]),
        (vec![s("/path/a/b")], vec![]),
        (vec![], vec![]),
        "/",
    );

    let path = s("/path/a/b/index.js");
    let events = find_associated_events(&path, FsEventKind::Remove, status_of(&path), &path_manager);

    assert!(events.len() >= 2);
    assert!(events.contains(&ev("/path/a/b/index.js", FsEventKind::Remove)));
    assert!(events.contains(&ev("/path/a/b", FsEventKind::Change)));
}

#[test]
fn test_parent_directory_notification() {
    let mut path_manager = PathManager::default();
    path_manager.update(
        (vec![], vec![]),
        (vec![s("/path/a/b/c"), s("/path/a/b")], vec![]),
        (vec![], vec![]),
        "/",
    );

    let path = s("/path/a/b/c/index.js");
    let events = find_associated_events(&path, FsEventKind::Create, status_of(&path), &path_manager);

    assert!(events.contains(&ev("/path/a/b/c", FsEventKind::Change)));
    assert!(events.contains(&ev("/path/a/b", FsEventKind::Change)));
}

#[test]
fn parents_come_nearest_first_and_unwatched_paths_give_nothing_of_their_own() {
    let mut m = PathManager::default();
    m.update((vec![], vec![]), (vec![s("/p"), s("/p/q")], vec![]), (vec![], vec![]), "/");
    let path = s("/p/q/r.txt");
    let gone = PathStatus { exists: false, is_file: false, is_dir: false };
    let events = find_associated_events(&path, FsEventKind::Remove, gone, &m);
    assert_eq!(events, vec![ev("/p/q", FsEventKind::Change), ev("/p", FsEventKind::Change)]);
}

#[test]
fn an_existing_file_registered_as_missing_is_reported() {
    let mut m = PathManager::default();
    m.update((vec![], vec![]), (vec![], vec![]), (vec![s("/m/f")], vec![]), "/");
    let path = s("/m/f");
    let st = PathStatus { exists: true, is_file: true, is_dir: false };
    let events = find_associated_events(&path, FsEventKind::Create, st, &m);
    assert_eq!(events, vec![ev("/m/f", FsEventKind::Create)]);
}

#[test]
fn test_scan_detects_missing_files() {
    let mut path_manager = PathManager::default();
    path_manager.update((vec![s("/nonexistent/file.txt")], vec![]), (vec![], vec![]), (vec![], vec![]), "/");

    let (files, _dirs, missing) = scan_targets(&path_manager);
    let exists: Vec<bool> = files.iter().map(|p| Path::new(p).exists()).collect();
    let events = missing_events(&files, &exists, &missing);

    assert_eq!(events.len(), 1);
    assert_eq!(events[0].kind, FsEventKind::Remove);
    assert_eq!(events[0].path, s("/nonexistent/file.txt"));
}

#[test]
fn test_scan_detects_changed_files() {
    let start_time = std::time::SystemTime::now() - std::time::Duration::from_secs(60);
    let temp_file = tempfile::NamedTempFile::new().unwrap();
    let file = temp_file.path().to_string_lossy().into_owned();
    let mut path_manager = PathManager::default();
    path_manager.update((vec![file.clone()], vec![]), (vec![], vec![]), (vec![], vec![]), "/");

    let (files, _dirs, _missing) = scan_targets(&path_manager);
    let modified: Vec<bool> = files
        .iter()
        .map(|p| {
            Path::new(p)
                .metadata()
                .and_then(|m| m.modified().or_else(|_| m.created()))
                .map(|t| start_time < t)
                .unwrap_or(false)
        })
        .collect();
    let events = changed_events(&files, &modified);

    assert_eq!(events.len(), 1);
    assert_eq!(events[0].kind, FsEventKind::Change);
    assert_eq!(events[0].path, file);
}

#[test]
fn paths_registered_as_missing_are_not_reported_removed() {
    let files = vec![s("/a"), s("/b")];
    let exists = vec![false, false];
    let events = missing_events(&files, &exists, &vec![s("/b")]);
    assert_eq!(events, vec![ev("/a", FsEventKind::Remove)]);
}

#[test]
fn raw_notifications_are_classified_and_filtered() {
    let ig = FsWatcherIgnored::Path(s("node_modules"));
    let batch = event_batch(RawEventKind::ModifyData, vec![s("/p/node_modules/x.js"), s("/p/src/a.js")], &ig);
    assert_eq!(batch, vec![ev("/p/src/a.js", FsEventKind::Change)]);
    assert_eq!(event_batch(RawEventKind::Access, vec![s("/p/src/a.js")], &ig), vec![]);
    assert_eq!(event_batch(RawEventKind::Create, vec![s("/q")], &ig), vec![ev("/q", FsEventKind::Create)]);
    assert_eq!(event_batch(RawEventKind::Remove, vec![s("/q")], &ig), vec![ev("/q", FsEventKind::Remove)]);
    assert_eq!(event_batch(RawEventKind::ModifyOther, vec![s("/q")], &ig), vec![]);
}

fn pat(p: &str, recursive: bool) -> WatchPattern {
    WatchPattern { path: s(p), recursive }
}

fn apply_watch(set: &mut WatchSet, new: Vec<WatchPattern>) {
    let (stale, to_watch) = set.plan_watch(&new);
    set.remove_paths(&stale);
    for p in to_watch {
        set.insert(p);
    }
}

#[test]
fn test_watch_removes_stale_patterns() {
    let mut set = WatchSet::new();
    apply_watch(&mut set, vec![pat("/a", false), pat("/b", false)]);
    assert_eq!(set.len(), 2);

    apply_watch(&mut set, vec![pat("/b", false), pat("/c", false)]);
    assert_eq!(set.len(), 2);
    let paths: Vec<String> = set.patterns().iter().map(|p| p.path.clone()).collect();
    assert!(paths.contains(&s("/b")));
    assert!(paths.contains(&s("/c")));
    assert!(!paths.contains(&s("/a")));
}

#[test]
fn a_watch_plan_names_stale_paths_and_new_patterns_once() {
    let mut set = WatchSet::new();
    apply_watch(&mut set, vec![pat("/a", false), pat("/b", false)]);
    let (stale, to_watch) = set.plan_watch(&vec![pat("/b", false), pat("/c", true), pat("/c", true), pat("/b", true)]);
    assert_eq!(stale, vec![s("/a")]);
    assert_eq!(to_watch, vec![pat("/c", true), pat("/b", true)]);
}

#[test]
fn plain_paths_are_watched_recursively() {
    assert_eq!(recursive_patterns(vec![s("/a")]), vec![pat("/a", true)]);
}

#[test]
fn executor_collects_and_flushes_once() {
    let mut ex = ExecutorState::new(None);
    assert_eq!(ex.aggregate_timeout(), 50);
    let (notices, arm) = ex.on_batch(&vec![
        ev("/a", FsEventKind::Change),
        ev("/b", FsEventKind::Remove),
        ev("/a", FsEventKind::Create),
    ]);
    assert!(arm);
    assert_eq!(notices, vec![Notice::Change(s("/a")), Notice::Delete(s("/b")), Notice::Change(s("/a"))]);
    let (changed, deleted) = ex.on_timeout().unwrap();
    assert_eq!(changed, vec![s("/a")]);
    assert_eq!(deleted, vec![s("/b")]);
    assert!(ex.on_timeout().is_none());
}

#[test]
fn a_paused_executor_does_not_arm_the_timer() {
    let mut ex = ExecutorState::new(Some(100));
    assert_eq!(ex.aggregate_timeout(), 100);
    ex.pause();
    let (_, arm) = ex.on_batch(&vec![ev("/a", FsEventKind::Change)]);
    assert!(!arm);
}

#[test]
fn watcher_options_default() {
    let o = FsWatcherOptions::default();
    assert_eq!(o.aggregate_timeout, None);
    assert!(!o.follow_symlinks);
    assert_eq!(o.poll_interval, None);
}

#[test]
fn a_watched_directory_matches_however_its_path_is_written() {
    let mut m = PathManager::default();
    m.update((vec![], vec![]), (vec![s("/p/src/")], vec![]), (vec![], vec![]), "/");
    let gone = PathStatus { exists: false, is_file: false, is_dir: false };
    let events = find_associated_events(&s("/p/src/a.js"), FsEventKind::Remove, gone, &m);
    assert_eq!(events, vec![ev("/p/src", FsEventKind::Change)]);
    let events = find_associated_events(&s("/p//src"), FsEventKind::Remove, gone, &m);
    assert_eq!(events, vec![ev("/p//src", FsEventKind::Remove)]);
}

#[test]
fn watching_again_changes_nothing_and_paths_match_by_components() {
    let mut set = WatchSet::new();
    apply_watch(&mut set, vec![pat("/a", false), pat("/b/", true)]);
    let new = vec![pat("/a", false), pat("/b", true), pat("/a", false)];
    let (stale, to_watch) = set.plan_watch(&new);
    assert!(stale.is_empty());
    assert!(to_watch.is_empty());
    assert!(new.iter().all(|p| set.contains(p)));
    apply_watch(&mut set, new);
    assert_eq!(set.len(), 2);
}

#[test]
fn batches_collect_until_the_aggregate_and_a_paused_executor_never_arms() {
    let mut ex = ExecutorState::new(Some(10));
    let (_, arm1) = ex.on_batch(&vec![ev("/a", FsEventKind::Create)]);
    let (_, arm2) = ex.on_batch(&vec![ev("/b", FsEventKind::Remove), ev("/a", FsEventKind::Change)]);
    assert!(arm1 && arm2);
    let (changed, deleted) = ex.on_timeout().unwrap();
    assert_eq!(changed, vec![s("/a")]);
    assert_eq!(deleted, vec![s("/b")]);

    let mut ex = ExecutorState::new(None);
    ex.pause();
    let (_, arm1) = ex.on_batch(&vec![ev("/a", FsEventKind::Create)]);
    let (_, arm2) = ex.on_batch(&vec![ev("/b", FsEventKind::Remove)]);
    assert!(!arm1 && !arm2);
}
