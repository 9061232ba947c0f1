//! Events for paths that changed before the watcher was attached: registered
//! paths that no longer exist become `Remove` events, and paths modified
//! after the start time become `Change` events.

use vstd::prelude::*;
use crate::events::{events_view, FsEvent, FsEventKind};
use crate::paths::{contains_path, key_set, PathKey, PathManager};
use crate::fspath::path_components;
use crate::text::strs;
use crate::trigger::EventView;

verus! {

/// A `Remove` for each path of `paths` that does not exist and is not
/// registered as missing (compared as paths), in order.
pub open spec fn missing_events_spec(paths: Seq<Seq<char>>, exists: Seq<bool>, missing: Set<PathKey>) -> Seq<EventView>
    decreases paths.len(),
{
    if paths.len() == 0 {
        seq![]
    } else {
        let rest = missing_events_spec(paths.drop_last(), exists.take(paths.len() - 1), missing);
        if !exists[paths.len() - 1] && !missing.contains(path_components(paths.last())) {
            rest.push((paths.last(), FsEventKind::Remove))
        } else {
            rest
        }
    }
}

/// A `Change` for each path of `paths` modified after the start time, in order.
pub open spec fn changed_events_spec(paths: Seq<Seq<char>>, modified_after: Seq<bool>) -> Seq<EventView>
    decreases paths.len(),
{
    if paths.len() == 0 {
        seq![]
    } else {
        let rest = changed_events_spec(paths.drop_last(), modified_after.take(paths.len() - 1));
        if modified_after[paths.len() - 1] {
            rest.push((paths.last(), FsEventKind::Change))
        } else {
            rest
        }
    }
}

/// The removals found by a scan, exactly: an event is among them when, and
/// only when, it is a `Remove` of a listed path that does not exist and is
/// not registered as missing; there is at most one per listed path.
pub proof fn lemma_missing_events(paths: Seq<Seq<char>>, exists: Seq<bool>, missing: Set<PathKey>)
    requires
        paths.len() == exists.len(),
    ensures
        missing_events_spec(paths, exists, missing).len() <= paths.len(),
        forall|e: EventView|
            #![trigger missing_events_spec(paths, exists, missing).contains(e)]
            missing_events_spec(paths, exists, missing).contains(e) <==> exists|i: int|
                0 <= i < paths.len() && !exists[i] && !missing.contains(path_components(paths[i])) && e == (
                    paths[i],
                    FsEventKind::Remove,
                ),
    decreases paths.len(),
{
    if paths.len() > 0 {
        let n = paths.len() - 1;
        let ip = paths.drop_last();
        let ie = exists.take(n);
        lemma_missing_events(ip, ie, missing);
        let rest = missing_events_spec(ip, ie, missing);
        let all = missing_events_spec(paths, exists, missing);
        let hit = !exists[n] && !missing.contains(path_components(paths.last()));
        assert(all == if hit { rest.push((paths.last(), FsEventKind::Remove)) } else { rest });
        assert forall|e: EventView|
            #![trigger missing_events_spec(paths, exists, missing).contains(e)]
            missing_events_spec(paths, exists, missing).contains(e) <==> exists|i: int|
                0 <= i < paths.len() && !exists[i] && !missing.contains(path_components(paths[i])) && e == (
                    paths[i],
                    FsEventKind::Remove,
                ) by {
            if all.contains(e) {
                let t = choose|t: int| 0 <= t < all.len() && all[t] == e;
                if t < rest.len() {
                    assert(rest[t] == e);
                    assert(rest.contains(e));
                    let i = choose|i: int|
                        0 <= i < ip.len() && !ie[i] && !missing.contains(path_components(ip[i])) && e == (
                            ip[i],
                            FsEventKind::Remove,
                        );
                    assert(ip[i] == paths[i] && ie[i] == exists[i]);
                } else {
                    assert(paths[n] == paths.last());
                }
            }
            if exists|i: int|
                0 <= i < paths.len() && !exists[i] && !missing.contains(path_components(paths[i])) && e == (
                    paths[i],
                    FsEventKind::Remove,
                ) {
                let i = choose|i: int|
                    0 <= i < paths.len() && !exists[i] && !missing.contains(path_components(paths[i])) && e == (
                        paths[i],
                        FsEventKind::Remove,
                    );
                if i < n {
                    assert(ip[i] == paths[i] && ie[i] == exists[i]);
                    assert(rest.contains(e));
                    let t = choose|t: int| 0 <= t < rest.len() && rest[t] == e;
                    assert(all[t] == e);
                } else {
                    assert(all[rest.len() as int] == e);
                }
            }
        }
    }
}

/// The changes found by a scan, exactly: an event is among them when, and
/// only when, it is a `Change` of a listed path modified after the start
/// time; there is at most one per listed path.
pub proof fn lemma_changed_events(paths: Seq<Seq<char>>, modified_after: Seq<bool>)
    requires
        paths.len() == modified_after.len(),
    ensures
        changed_events_spec(paths, modified_after).len() <= paths.len(),
        forall|e: EventView|
            #![trigger changed_events_spec(paths, modified_after).contains(e)]
            changed_events_spec(paths, modified_after).contains(e) <==> exists|i: int|
                0 <= i < paths.len() && modified_after[i] && e == (paths[i], FsEventKind::Change),
    decreases paths.len(),
{
    if paths.len() > 0 {
        let n = paths.len() - 1;
        let ip = paths.drop_last();
        let im = modified_after.take(n);
        lemma_changed_events(ip, im);
        let rest = changed_events_spec(ip, im);
        let all = changed_events_spec(paths, modified_after);
        assert(all == if modified_after[n] { rest.push((paths.last(), FsEventKind::Change)) } else { rest });
        assert forall|e: EventView|
            #![trigger changed_events_spec(paths, modified_after).contains(e)]
            changed_events_spec(paths, modified_after).contains(e) <==> exists|i: int|
                0 <= i < paths.len() && modified_after[i] && e == (paths[i], FsEventKind::Change) by {
            if all.contains(e) {
                let t = choose|t: int| 0 <= t < all.len() && all[t] == e;
                if t < rest.len() {
                    assert(rest[t] == e);
                    assert(rest.contains(e));
                    let i = choose|i: int| 0 <= i < ip.len() && im[i] && e == (ip[i], FsEventKind::Change);
                    assert(ip[i] == paths[i] && im[i] == modified_after[i]);
                } else {
                    assert(paths[n] == paths.last());
                }
            }
            if exists|i: int| 0 <= i < paths.len() && modified_after[i] && e == (paths[i], FsEventKind::Change) {
                let i = choose|i: int| 0 <= i < paths.len() && modified_after[i] && e == (paths[i], FsEventKind::Change);
                if i < n {
                    assert(ip[i] == paths[i] && im[i] == modified_after[i]);
                    assert(rest.contains(e));
                    let t = choose|t: int| 0 <= t < rest.len() && rest[t] == e;
                    assert(all[t] == e);
                } else {
                    assert(all[rest.len() as int] == e);
                }
            }
        }
    }
}

/// `Remove` events for the paths that do not exist (`exists[i]` tells for
/// `paths[i]`) and are not among `missing`.
pub fn missing_events(paths: &Vec<String>, exists: &Vec<bool>, missing: &Vec<String>) -> (r: Vec<FsEvent>)
    requires
        paths.len() == exists.len(),
    ensures
        events_view(r@) == missing_events_spec(strs(paths@), exists@, key_set(missing@)),
{
    let mut r: Vec<FsEvent> = Vec::new();
    let mut i: usize = 0;
    while i < paths.len()
        invariant
            i <= paths.len(),
            paths.len() == exists.len(),
            events_view(r@) == missing_events_spec(strs(paths@).take(i as int), exists@.take(i as int), key_set(missing@)),
        decreases paths.len() - i,
    {
        let ghost r0 = events_view(r@);
        assert(strs(paths@).take(i + 1).drop_last() =~= strs(paths@).take(i as int));
        assert(exists@.take(i + 1).take(i as int) =~= exists@.take(i as int));
        if !exists[i] && !contains_path(missing, paths[i].as_str()) {
            r.push(FsEvent { path: paths[i].clone(), kind: FsEventKind::Remove });
            assert(events_view(r@) =~= r0.push((paths@[i as int]@, FsEventKind::Remove)));
        }
        i += 1;
    }
    assert(strs(paths@).take(paths.len() as int) =~= strs(paths@));
    assert(exists@.take(paths.len() as int) =~= exists@);
    r
}

/// `Change` events for the paths modified after the start time
/// (`modified_after[i]` tells for `paths[i]`).
pub fn changed_events(paths: &Vec<String>, modified_after: &Vec<bool>) -> (r: Vec<FsEvent>)
    requires
        paths.len() == modified_after.len(),
    ensures
        events_view(r@) == changed_events_spec(strs(paths@), modified_after@),
{
    let mut r: Vec<FsEvent> = Vec::new();
    let mut i: usize = 0;
    while i < paths.len()
        invariant
            i <= paths.len(),
            paths.len() == modified_after.len(),
            events_view(r@) == changed_events_spec(strs(paths@).take(i as int), modified_after@.take(i as int)),
        decreases paths.len() - i,
    {
        let ghost r0 = events_view(r@);
        assert(strs(paths@).take(i + 1).drop_last() =~= strs(paths@).take(i as int));
        assert(modified_after@.take(i + 1).take(i as int) =~= modified_after@.take(i as int));
        if modified_after[i] {
            r.push(FsEvent { path: paths[i].clone(), kind: FsEventKind::Change });
            assert(events_view(r@) =~= r0.push((paths@[i as int]@, FsEventKind::Change)));
        }
        i += 1;
    }
    assert(strs(paths@).take(paths.len() as int) =~= strs(paths@));
    assert(modified_after@.take(paths.len() as int) =~= modified_after@);
    r
}

/// What a scan looks at: the files added by the last update, the directories
/// added by the last update, and every missing path.
pub fn scan_targets(manager: &PathManager) -> (r: (Vec<String>, Vec<String>, Vec<String>))
    requires
        manager.wf(),
    ensures
        key_set(r.0@) == manager.spec_files().added_set(),
        key_set(r.1@) == manager.spec_directories().added_set(),
        key_set(r.2@) == manager.spec_missing().all_set(),
{
    let accessor = manager.access();
    let (_, added_files, _) = accessor.files();
    let (_, added_dirs, _) = accessor.directories();
    let (missing_all, _, _) = accessor.missing();
    (added_files.clone(), added_dirs.clone(), missing_all.clone())
}

} // verus!
