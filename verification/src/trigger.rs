//! Which events a file-system change produces: one for the changed path when
//! it is watched, and a `Change` for every watched directory above it.

use vstd::prelude::*;
use crate::events::{events_view, FsEvent, FsEventKind};
use crate::fspath::{ancestors_of, path_ancestors, path_components};
use crate::paths::{contains_path, key_set, PathKey, PathManager};
use crate::text::strs;

verus! {

/// What the file system says of a path when its event arrives.
#[derive(Debug, Clone, Copy)]
pub struct PathStatus {
    pub exists: bool,
    pub is_file: bool,
    pub is_dir: bool,
}

/// An event in view form.
pub type EventView = (Seq<char>, FsEventKind);

/// `[(p, kind)]` when `cond`, else nothing.
pub open spec fn event_if(cond: bool, p: Seq<char>, kind: FsEventKind) -> Seq<EventView> {
    if cond {
        seq![(p, kind)]
    } else {
        seq![]
    }
}

/// The event for the path itself: an existing file registered as a file or as
/// missing, an existing directory registered as a directory or as missing, or
/// a vanished path registered in any of the three. The registered paths are
/// taken by their components, as `Path`'s `==` compares them.
pub open spec fn own_events(
    p: Seq<char>,
    kind: FsEventKind,
    st: PathStatus,
    files: Set<PathKey>,
    dirs: Set<PathKey>,
    missing: Set<PathKey>,
) -> Seq<EventView> {
    let k = path_components(p);
    if st.exists {
        event_if(st.is_file && (files.contains(k) || missing.contains(k)), p, kind) + event_if(
            st.is_dir && (dirs.contains(k) || missing.contains(k)),
            p,
            kind,
        )
    } else {
        event_if(files.contains(k) || dirs.contains(k) || missing.contains(k), p, kind)
    }
}

/// A `Change` for each path of `anc` that is a watched directory, in order.
pub open spec fn dir_events(anc: Seq<Seq<char>>, dirs: Set<PathKey>) -> Seq<EventView>
    decreases anc.len(),
{
    if anc.len() == 0 {
        seq![]
    } else {
        dir_events(anc.drop_last(), dirs) + event_if(
            dirs.contains(path_components(anc.last())),
            anc.last(),
            FsEventKind::Change,
        )
    }
}

/// A `Change` for each watched directory among the proper ancestors of `p`,
/// nearest first.
pub open spec fn parent_events(p: Seq<char>, dirs: Set<PathKey>) -> Seq<EventView> {
    let anc = path_ancestors(p);
    if anc.len() == 0 {
        seq![]
    } else {
        dir_events(anc.drop_first(), dirs)
    }
}

/// The event for the path itself, case by case: an existing file is reported
/// exactly when it is registered as a file or as missing; an existing
/// directory exactly when it is registered as a directory or as missing; an
/// existing path that is neither never; a vanished path exactly when it is
/// registered in any of the three. A reported event is the path with the
/// change's own kind, once.
pub proof fn lemma_own_events(
    p: Seq<char>,
    kind: FsEventKind,
    st: PathStatus,
    files: Set<PathKey>,
    dirs: Set<PathKey>,
    missing: Set<PathKey>,
)
    ensures
        ({
            let k = path_components(p);
            let own = own_events(p, kind, st, files, dirs, missing);
            &&& st.exists && st.is_file && !st.is_dir ==> own == (if files.contains(k) || missing.contains(k) {
                seq![(p, kind)]
            } else {
                Seq::<EventView>::empty()
            })
            &&& st.exists && st.is_dir && !st.is_file ==> own == (if dirs.contains(k) || missing.contains(k) {
                seq![(p, kind)]
            } else {
                Seq::<EventView>::empty()
            })
            &&& st.exists && !st.is_file && !st.is_dir ==> own.len() == 0
            &&& !st.exists ==> own == (if files.contains(k) || dirs.contains(k) || missing.contains(k) {
                seq![(p, kind)]
            } else {
                Seq::<EventView>::empty()
            })
            &&& own.len() <= 2
            &&& forall|i: int| 0 <= i < own.len() ==> #[trigger] own[i] == (p, kind)
        }),
{
    let k = path_components(p);
    let own = own_events(p, kind, st, files, dirs, missing);
    let e = seq![(p, kind)];
    let a = event_if(st.is_file && (files.contains(k) || missing.contains(k)), p, kind);
    let b = event_if(st.is_dir && (dirs.contains(k) || missing.contains(k)), p, kind);
    if st.exists {
        assert(own == a + b);
        assert(a + Seq::<EventView>::empty() =~= a);
        assert(Seq::<EventView>::empty() + b =~= b);
        assert forall|i: int| 0 <= i < own.len() implies #[trigger] own[i] == (p, kind) by {
            if i < a.len() {
                assert(own[i] == a[i]);
            } else {
                assert(own[i] == b[i - a.len()]);
            }
        }
    }
}

/// Every event `dir_events` yields is a `Change` for a watched directory of `anc`.
pub proof fn lemma_dir_events(anc: Seq<Seq<char>>, dirs: Set<PathKey>)
    ensures
        forall|k: int| 0 <= k < dir_events(anc, dirs).len() ==> {
            &&& (#[trigger] dir_events(anc, dirs)[k]).1 == FsEventKind::Change
            &&& dirs.contains(path_components(dir_events(anc, dirs)[k].0))
            &&& anc.contains(dir_events(anc, dirs)[k].0)
        },
    decreases anc.len(),
{
    if anc.len() > 0 {
        lemma_dir_events(anc.drop_last(), dirs);
        let rest = dir_events(anc.drop_last(), dirs);
        assert forall|k: int| 0 <= k < dir_events(anc, dirs).len() implies {
            &&& (#[trigger] dir_events(anc, dirs)[k]).1 == FsEventKind::Change
            &&& dirs.contains(path_components(dir_events(anc, dirs)[k].0))
            &&& anc.contains(dir_events(anc, dirs)[k].0)
        } by {
            if k < rest.len() {
                assert(dir_events(anc, dirs)[k] == rest[k]);
                let t = choose|t: int| 0 <= t < anc.drop_last().len() && anc.drop_last()[t] == rest[k].0;
                assert(anc[t] == rest[k].0);
            } else {
                assert(anc[anc.len() - 1] == anc.last());
            }
        }
    }
}

/// No watched directory is missed: every path of `anc` that is a watched
/// directory gets its `Change`.
pub proof fn lemma_dir_events_complete(anc: Seq<Seq<char>>, dirs: Set<PathKey>)
    ensures
        forall|t: int|
            0 <= t < anc.len() && dirs.contains(path_components(#[trigger] anc[t])) ==> dir_events(
                anc,
                dirs,
            ).contains((anc[t], FsEventKind::Change)),
    decreases anc.len(),
{
    if anc.len() > 0 {
        let init = anc.drop_last();
        lemma_dir_events_complete(init, dirs);
        let rest = dir_events(init, dirs);
        let last = event_if(dirs.contains(path_components(anc.last())), anc.last(), FsEventKind::Change);
        assert(dir_events(anc, dirs) == rest + last);
        assert forall|t: int|
            0 <= t < anc.len() && dirs.contains(path_components(#[trigger] anc[t])) implies dir_events(
                anc,
                dirs,
            ).contains((anc[t], FsEventKind::Change)) by {
            if t < init.len() {
                assert(init[t] == anc[t]);
                let u = choose|u: int| 0 <= u < rest.len() && rest[u] == (init[t], FsEventKind::Change);
                assert((rest + last)[u] == rest[u]);
            } else {
                assert((rest + last)[rest.len() as int] == last[0]);
            }
        }
    }
}

/// Every watched directory among the proper ancestors of `p` (all but `p`
/// itself) is reported changed.
pub proof fn lemma_parent_events_complete(p: Seq<char>, dirs: Set<PathKey>)
    ensures
        forall|t: int|
            1 <= t < path_ancestors(p).len() && dirs.contains(path_components(#[trigger] path_ancestors(p)[t]))
                ==> parent_events(p, dirs).contains((path_ancestors(p)[t], FsEventKind::Change)),
{
    let anc = path_ancestors(p);
    if anc.len() > 0 {
        lemma_dir_events_complete(anc.drop_first(), dirs);
        assert forall|t: int|
            1 <= t < anc.len() && dirs.contains(path_components(#[trigger] anc[t])) implies parent_events(
                p,
                dirs,
            ).contains((anc[t], FsEventKind::Change)) by {
            assert(anc.drop_first()[t - 1] == anc[t]);
        }
    }
}

/// Parent directories are always reported as changed, whatever happened to
/// the child: every parent event is a `Change` of a watched directory that is
/// an ancestor of the path.
pub proof fn lemma_parent_events_are_changes(p: Seq<char>, dirs: Set<PathKey>)
    ensures
        forall|k: int| 0 <= k < parent_events(p, dirs).len() ==> {
            &&& (#[trigger] parent_events(p, dirs)[k]).1 == FsEventKind::Change
            &&& dirs.contains(path_components(parent_events(p, dirs)[k].0))
            &&& path_ancestors(p).contains(parent_events(p, dirs)[k].0)
        },
{
    let anc = path_ancestors(p);
    if anc.len() > 0 {
        lemma_dir_events(anc.drop_first(), dirs);
        assert forall|k: int| 0 <= k < parent_events(p, dirs).len() implies path_ancestors(p).contains(
            #[trigger] parent_events(p, dirs)[k].0,
        ) by {
            let t = choose|t: int| 0 <= t < anc.drop_first().len() && anc.drop_first()[t] == parent_events(p, dirs)[k].0;
            assert(anc[t + 1] == parent_events(p, dirs)[k].0);
        }
    }
}

/// Appends a `Change` event for every proper ancestor of `path` that
/// `directories` holds (compared as paths), nearest first.
pub fn find_parent_directories(path: &str, directories: &Vec<String>, events: &mut Vec<FsEvent>)
    ensures
        events_view(final(events)@) == events_view(old(events)@) + parent_events(
            path@,
            key_set(directories@),
        ),
{
    let anc = ancestors_of(path);
    let ghost av = strs(anc@);
    let ghost dirs = key_set(directories@);
    if anc.len() == 0 {
        assert(events_view(events@) =~= events_view(old(events)@) + parent_events(path@, dirs));
        return;
    }
    let ghost rest = av.drop_first();
    let mut i: usize = 1;
    assert(events_view(events@) =~= events_view(old(events)@) + dir_events(rest.take(0), dirs));
    while i < anc.len()
        invariant
            1 <= i <= anc.len(),
            av == strs(anc@),
            av == path_ancestors(path@),
            rest == av.drop_first(),
            dirs == key_set(directories@),
            events_view(events@) == events_view(old(events)@) + dir_events(rest.take(i - 1), dirs),
        decreases anc.len() - i,
    {
        let a = &anc[i];
        let ghost e0 = events_view(events@);
        assert(rest.take(i as int).drop_last() =~= rest.take(i - 1));
        assert(rest.take(i as int).last() == a@);
        if contains_path(directories, a.as_str()) {
            events.push(FsEvent { path: a.clone(), kind: FsEventKind::Change });
            assert(events_view(events@) =~= e0.push((a@, FsEventKind::Change)));
        }
        assert(events_view(events@) =~= events_view(old(events)@) + dir_events(rest.take(i as int), dirs));
        i += 1;
    }
    assert(rest.take(anc.len() - 1) =~= rest);
}

/// The events that a change of `kind` at `path` produces, given what the file
/// system says of `path`: the event for the path itself (see `own_events`),
/// then a `Change` for each watched directory above it.
pub fn find_associated_events(path: &String, kind: FsEventKind, status: PathStatus, manager: &PathManager) -> (r: Vec<FsEvent>)
    requires
        manager.wf(),
    ensures
        events_view(r@) == own_events(
            path@,
            kind,
            status,
            manager.spec_files().all_set(),
            manager.spec_directories().all_set(),
            manager.spec_missing().all_set(),
        ) + parent_events(path@, manager.spec_directories().all_set()),
{
    let accessor = manager.access();
    let (files, _, _) = accessor.files();
    let (directories, _, _) = accessor.directories();
    let (missing, _, _) = accessor.missing();
    let in_files = contains_path(files, path.as_str());
    let in_dirs = contains_path(directories, path.as_str());
    let in_missing = contains_path(missing, path.as_str());
    let mut events: Vec<FsEvent> = Vec::new();
    if status.exists {
        if status.is_file && (in_files || in_missing) {
            events.push(FsEvent { path: path.clone(), kind });
        }
        if status.is_dir && (in_dirs || in_missing) {
            events.push(FsEvent { path: path.clone(), kind });
        }
    } else if in_files || in_dirs || in_missing {
        events.push(FsEvent { path: path.clone(), kind });
    }
    let ghost own = events_view(events@);
    assert(own =~= own_events(
        path@,
        kind,
        status,
        manager.spec_files().all_set(),
        manager.spec_directories().all_set(),
        manager.spec_missing().all_set(),
    ));
    find_parent_directories(path.as_str(), directories, &mut events);
    events
}

} // verus!
