use factorize::ignored::FsWatcherIgnored;
use factorize::paths::{PathManager, PathTracker};

fn s(x: &str) -> String {
    x.to_string()
}

#[test]
fn test_path_tracker_add_remove() {
    let mut tracker = PathTracker::default();
    let path = s("/src/index.ts");

    tracker.add(path.clone());
    assert!(tracker.all().contains(&path));
    assert!(tracker.added().contains(&path));

    tracker.remove(path.clone());
    assert!(!tracker.all().contains(&path));
    assert!(tracker.removed().contains(&path));
}

#[test]
fn test_path_manager_update() {
    let ignored = FsWatcherIgnored::Path(s("**/node_modules/**"));
    let mut manager = PathManager::new(ignored);

    manager.update(
        (vec![s("/src/index.ts")], vec![]),
        (vec![s("/src"), s("/project/node_modules/lodash")], vec![]),
        (vec![s("/src/missing.ts")], vec![]),
        "/",
    );

    let accessor = manager.access();

    assert!(accessor.files().0.contains(&s("/src/index.ts")));

    assert!(accessor.directories().0.contains(&s("/src")));
    assert!(!accessor.directories().0.contains(&s("/project/node_modules/lodash")));

    assert!(accessor.missing().0.contains(&s("/src/missing.ts")));

    assert_eq!(accessor.all().len(), 3);
}

#[test]
fn test_path_manager_reset() {
    let mut manager = PathManager::default();

    manager.update((vec![s("/src/index.ts")], vec![]), (vec![], vec![]), (vec![], vec![]), "/");

    assert_eq!(manager.access().files().1.len(), 1);

    manager.reset();
    assert_eq!(manager.access().files().1.len(), 0);
    assert_eq!(manager.access().files().0.len(), 1);
}

#[test]
fn relative_paths_are_joined_to_the_working_directory() {
    let mut manager = PathManager::default();
    manager.update((vec![s("src/a.ts")], vec![]), (vec![], vec![]), (vec![], vec![]), "/work");
    assert_eq!(manager.access().files().0, &vec![s("/work/src/a.ts")]);
}

#[test]
fn update_adds_before_it_removes() {
    let mut tracker = PathTracker::new();
    tracker.update(vec![s("/a"), s("/b")], vec![s("/a")], &FsWatcherIgnored::Nothing, "/");
    assert_eq!(tracker.all(), &vec![s("/b")]);
    assert!(tracker.added().contains(&s("/a")));
    assert!(tracker.removed().contains(&s("/a")));
}

#[test]
fn adding_twice_keeps_one_entry() {
    let mut tracker = PathTracker::new();
    tracker.add(s("/x"));
    tracker.add(s("/x"));
    assert_eq!(tracker.all().len(), 1);
    assert_eq!(tracker.added().len(), 1);
}

#[test]
fn paths_are_compared_by_components() {
    let mut tracker = PathTracker::default();
    tracker.add(s("/a/b/"));
    tracker.add(s("/a/b"));
    tracker.add(s("/a/./b"));
    assert_eq!(tracker.all(), &vec![s("/a/b/")]);
    tracker.remove(s("/a//b"));
    assert!(tracker.all().is_empty());
    assert_eq!(tracker.removed(), &vec![s("/a//b")]);
}
