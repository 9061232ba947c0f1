//! The decisions of the disk watcher: which raw notifications become events,
//! which paths of an event are kept, and the bookkeeping of watch patterns
//! (stale ones are dropped when a new set is watched).

use vstd::prelude::*;
use crate::events::{events_view, FsEvent, FsEventKind};
use crate::ignored::{ignores, FsWatcherIgnored};
use crate::fspath::{path_components, same_path};
use crate::paths::{path_keys, PathKey};
use crate::text::strs;
use crate::trigger::EventView;

verus! {

/// The kind of a raw notification, as the OS watcher reports it.
#[derive(Debug, Clone, Copy, PartialEq, Eq, Structural)]
pub enum RawEventKind {
    Any,
    Access,
    Create,
    ModifyAny,
    ModifyData,
    ModifyMetadata,
    ModifyName,
    ModifyOther,
    Remove,
    Other,
}

/// The event kind a raw notification maps to: creations, data, metadata and
/// name changes, and removals; other notifications are dropped.
pub open spec fn classify_spec(k: RawEventKind) -> Option<FsEventKind> {
    match k {
        RawEventKind::Create => Some(FsEventKind::Create),
        RawEventKind::ModifyAny | RawEventKind::ModifyData | RawEventKind::ModifyMetadata
        | RawEventKind::ModifyName => Some(FsEventKind::Change),
        RawEventKind::Remove => Some(FsEventKind::Remove),
        _ => None,
    }
}

/// The event kind for a raw notification, if it is kept.
pub fn classify(k: RawEventKind) -> (r: Option<FsEventKind>)
    ensures
        r == classify_spec(k),
{
    match k {
        RawEventKind::Create => Some(FsEventKind::Create),
        RawEventKind::ModifyAny | RawEventKind::ModifyData | RawEventKind::ModifyMetadata
        | RawEventKind::ModifyName => Some(FsEventKind::Change),
        RawEventKind::Remove => Some(FsEventKind::Remove),
        _ => None,
    }
}

/// `(p, kind)` for each path of `paths` that `ig` does not exclude, in order.
pub open spec fn kept_events(paths: Seq<Seq<char>>, kind: FsEventKind, ig: FsWatcherIgnored) -> Seq<EventView>
    decreases paths.len(),
{
    if paths.len() == 0 {
        seq![]
    } else {
        let rest = kept_events(paths.drop_last(), kind, ig);
        if ignores(ig, paths.last()) {
            rest
        } else {
            rest.push((paths.last(), kind))
        }
    }
}

/// Which notifications are kept, kind by kind: a creation gives `Create`;
/// a modification of the data, of the metadata, of the name (a rename), or
/// of an unknown sort gives `Change`; a removal gives `Remove`; any other
/// modification, an access and any other notification give nothing.
pub proof fn lemma_classify()
    ensures
        classify_spec(RawEventKind::Create) == Some(FsEventKind::Create),
        classify_spec(RawEventKind::ModifyAny) == Some(FsEventKind::Change),
        classify_spec(RawEventKind::ModifyData) == Some(FsEventKind::Change),
        classify_spec(RawEventKind::ModifyMetadata) == Some(FsEventKind::Change),
        classify_spec(RawEventKind::ModifyName) == Some(FsEventKind::Change),
        classify_spec(RawEventKind::Remove) == Some(FsEventKind::Remove),
        classify_spec(RawEventKind::ModifyOther) is None,
        classify_spec(RawEventKind::Access) is None,
        classify_spec(RawEventKind::Any) is None,
        classify_spec(RawEventKind::Other) is None,
{
}

/// The kept events are the paths that `ig` does not exclude, in their order,
/// each with the notification's kind.
pub proof fn lemma_kept_events(paths: Seq<Seq<char>>, kind: FsEventKind, ig: FsWatcherIgnored)
    ensures
        kept_events(paths, kind, ig) == paths.filter(|p: Seq<char>| !ignores(ig, p)).map_values(
            |p: Seq<char>| (p, kind),
        ),
    decreases paths.len(),
{
    reveal(Seq::filter);
    let f = |p: Seq<char>| !ignores(ig, p);
    let g = |p: Seq<char>| (p, kind);
    if paths.len() > 0 {
        lemma_kept_events(paths.drop_last(), kind, ig);
        assert(paths.filter(f) == (if f(paths.last()) {
            paths.drop_last().filter(f).push(paths.last())
        } else {
            paths.drop_last().filter(f)
        }));
        assert(paths.drop_last().filter(f).push(paths.last()).map_values(g) =~= paths.drop_last().filter(
            f,
        ).map_values(g).push((paths.last(), kind)));
    } else {
        assert(paths.filter(f) =~= paths);
        assert(kept_events(paths, kind, ig) =~= paths.filter(f).map_values(g));
    }
}

/// The batch for a raw notification on `paths`: empty when the kind is
/// dropped, else one event per path not excluded by `ig`.
pub open spec fn raw_batch(k: RawEventKind, paths: Seq<Seq<char>>, ig: FsWatcherIgnored) -> Seq<EventView> {
    match classify_spec(k) {
        Some(kind) => kept_events(paths, kind, ig),
        None => seq![],
    }
}

/// The events for a raw notification (see `raw_batch`).
pub fn event_batch(k: RawEventKind, paths: Vec<String>, ignored: &FsWatcherIgnored) -> (r: Vec<FsEvent>)
    ensures
        events_view(r@) == raw_batch(k, strs(paths@), *ignored),
{
    let mut r: Vec<FsEvent> = Vec::new();
    let kind = match classify(k) {
        Some(kind) => kind,
        None => return r,
    };
    let mut i: usize = 0;
    while i < paths.len()
        invariant
            i <= paths.len(),
            classify_spec(k) == Some(kind),
            events_view(r@) == kept_events(strs(paths@).take(i as int), kind, *ignored),
        decreases paths.len() - i,
    {
        let ghost r0 = events_view(r@);
        assert(strs(paths@).take(i + 1).drop_last() =~= strs(paths@).take(i as int));
        if !ignored.should_ignore(paths[i].as_str()) {
            r.push(FsEvent { path: paths[i].clone(), kind });
            assert(events_view(r@) =~= r0.push((paths@[i as int]@, kind)));
        }
        i += 1;
    }
    assert(strs(paths@).take(paths.len() as int) =~= strs(paths@));
    r
}

/// A watched path and whether its subdirectories are watched too.
#[derive(Debug, Clone, PartialEq, Eq, Hash)]
pub struct WatchPattern {
    pub path: String,
    pub recursive: bool,
}

/// A pattern as the watcher compares it: its path by components, and
/// whether it is recursive.
pub type PatternKey = (PathKey, bool);

/// The view of a pattern.
pub open spec fn pattern_view(p: WatchPattern) -> PatternKey {
    (path_components(p.path@), p.recursive)
}

/// The views of a sequence of patterns.
pub open spec fn patterns_view(ps: Seq<WatchPattern>) -> Seq<PatternKey> {
    ps.map_values(|p: WatchPattern| pattern_view(p))
}

/// The paths of a set of pattern views.
pub open spec fn paths_of(ps: Set<PatternKey>) -> Set<PathKey> {
    ps.map(|p: PatternKey| p.0)
}

fn copy_pattern(p: &WatchPattern) -> (r: WatchPattern)
    ensures
        pattern_view(r) == pattern_view(*p),
{
    WatchPattern { path: p.path.clone(), recursive: p.recursive }
}

fn same_pattern(a: &WatchPattern, b: &WatchPattern) -> (r: bool)
    ensures
        r == (pattern_view(*a) == pattern_view(*b)),
{
    a.recursive == b.recursive && same_path(a.path.as_str(), b.path.as_str())
}

fn has_pattern(v: &Vec<WatchPattern>, p: &WatchPattern) -> (r: bool)
    ensures
        r == patterns_view(v@).contains(pattern_view(*p)),
{
    let mut i: usize = 0;
    while i < v.len()
        invariant
            i <= v.len(),
            forall|j: int| 0 <= j < i ==> pattern_view(v@[j]) != pattern_view(*p),
        decreases v.len() - i,
    {
        if same_pattern(&v[i], p) {
            assert(patterns_view(v@)[i as int] == pattern_view(*p));
            return true;
        }
        i += 1;
    }
    assert(!patterns_view(v@).contains(pattern_view(*p))) by {
        if patterns_view(v@).contains(pattern_view(*p)) {
            let j = choose|j: int| 0 <= j < patterns_view(v@).len() && patterns_view(v@)[j] == pattern_view(*p);
            assert(pattern_view(v@[j]) == pattern_view(*p));
        }
    }
    false
}

fn has_path(v: &Vec<WatchPattern>, path: &String) -> (r: bool)
    ensures
        r == exists|j: int| 0 <= j < v@.len() && path_components(v@[j].path@) == path_components(path@),
{
    let mut i: usize = 0;
    while i < v.len()
        invariant
            i <= v.len(),
            forall|j: int| 0 <= j < i ==> path_components(v@[j].path@) != path_components(path@),
        decreases v.len() - i,
    {
        if same_path(v[i].path.as_str(), path.as_str()) {
            return true;
        }
        i += 1;
    }
    false
}

/// The patterns given for plain paths: each path, watched recursively.
pub fn recursive_patterns(paths: Vec<String>) -> (r: Vec<WatchPattern>)
    ensures
        patterns_view(r@) == strs(paths@).map_values(|p: Seq<char>| (path_components(p), true)),
{
    let mut r: Vec<WatchPattern> = Vec::new();
    let mut i: usize = 0;
    while i < paths.len()
        invariant
            i <= paths.len(),
            patterns_view(r@) == strs(paths@).take(i as int).map_values(|p: Seq<char>| (path_components(p), true)),
        decreases paths.len() - i,
    {
        let ghost r0 = patterns_view(r@);
        r.push(WatchPattern { path: paths[i].clone(), recursive: true });
        assert(patterns_view(r@) =~= r0.push((path_components(paths@[i as int]@), true)));
        assert(strs(paths@).take(i + 1).map_values(|p: Seq<char>| (path_components(p), true)) =~= strs(paths@).take(i as int).map_values(|p: Seq<char>| (path_components(p), true)).push((path_components(paths@[i as int]@), true)));
        i += 1;
    }
    assert(strs(paths@).take(paths.len() as int) =~= strs(paths@));
    r
}

/// Watching a new set of patterns drops every watched pattern whose path the
/// new set does not mention: removing the stale paths keeps exactly the
/// patterns whose path is among the new patterns' paths. After the new
/// patterns are inserted, every watched path is one of the new paths.
pub proof fn lemma_watch_replaces(current: Set<PatternKey>, new: Set<PatternKey>, stale: Set<PathKey>)
    requires
        stale == paths_of(current).difference(paths_of(new)),
    ensures
        current.filter(|p: PatternKey| !stale.contains(p.0)) == current.filter(
            |p: PatternKey| paths_of(new).contains(p.0),
        ),
        paths_of(current.filter(|p: PatternKey| !stale.contains(p.0)).union(new)) == paths_of(new),
{
    let kept = current.filter(|p: PatternKey| !stale.contains(p.0));
    assert forall|p: PatternKey| current.contains(p) implies (!stale.contains(p.0) <==> paths_of(new).contains(p.0)) by {
        assert(paths_of(current).contains(p.0));
    }
    assert(kept =~= current.filter(|p: PatternKey| paths_of(new).contains(p.0)));
    assert forall|x: PathKey| paths_of(kept.union(new)).contains(x) implies paths_of(new).contains(x) by {
        let p = choose|p: PatternKey| kept.union(new).contains(p) && p.0 == x;
        if kept.contains(p) {
            assert(paths_of(new).contains(p.0));
        } else {
            assert(new.contains(p));
        }
    }
    assert forall|x: PathKey| paths_of(new).contains(x) implies paths_of(kept.union(new)).contains(x) by {
        let p = choose|p: PatternKey| new.contains(p) && p.0 == x;
        assert(kept.union(new).contains(p));
    }
    assert(paths_of(kept.union(new)) =~= paths_of(new));
}

/// Watching the set that is already watched changes nothing: no path is
/// stale, every new pattern is already watched (so none is watched anew),
/// and the watched set stays as it was.
pub proof fn lemma_watch_again(current: Set<PatternKey>, new: Set<PatternKey>)
    requires
        new == current,
    ensures
        paths_of(current).difference(paths_of(new)).is_empty(),
        forall|p: PatternKey| new.contains(p) ==> current.contains(p),
        current.filter(|p: PatternKey| !paths_of(current).difference(paths_of(new)).contains(p.0)).union(new)
            == current,
{
    let stale = paths_of(current).difference(paths_of(new));
    assert(stale =~= Set::<PathKey>::empty());
    assert(current.filter(|p: PatternKey| !stale.contains(p.0)).union(new) =~= current);
}

/// Carrying out a watch plan replaces the watched set as watching `new`
/// should: dropping the stale paths and adding the unwatched new patterns
/// leaves the watched patterns whose path `new` has, together with all of
/// `new`; every watched path is then one of `new`'s.
pub proof fn lemma_watch_plan(current: Set<PatternKey>, new: Set<PatternKey>, stale: Set<PathKey>, added: Set<PatternKey>)
    requires
        stale == paths_of(current).difference(paths_of(new)),
        added == new.difference(current),
    ensures
        current.filter(|p: PatternKey| !stale.contains(p.0)).union(added) == current.filter(
            |p: PatternKey| paths_of(new).contains(p.0),
        ).union(new),
        paths_of(current.filter(|p: PatternKey| !stale.contains(p.0)).union(added)) == paths_of(new),
{
    lemma_watch_replaces(current, new, stale);
    let kept = current.filter(|p: PatternKey| !stale.contains(p.0));
    assert forall|p: PatternKey| new.contains(p) implies kept.union(added).contains(p) by {
        if current.contains(p) {
            assert(paths_of(new).contains(p.0));
            assert(!stale.contains(p.0));
        }
    }
    assert(kept.union(added) =~= kept.union(new));
}

/// The patterns currently watched, each once.
pub struct WatchSet {
    patterns: Vec<WatchPattern>,
}

impl WatchSet {
    /// The watched patterns.
    pub closed spec fn pattern_set(&self) -> Set<PatternKey> {
        patterns_view(self.patterns@).to_set()
    }

    /// No pattern is held twice.
    pub closed spec fn wf(&self) -> bool {
        patterns_view(self.patterns@).no_duplicates()
    }

    /// Nothing watched.
    pub fn new() -> (r: Self)
        ensures
            r.wf(),
            r.pattern_set().is_empty(),
    {
        let r = WatchSet { patterns: Vec::new() };
        assert(r.pattern_set() =~= Set::<PatternKey>::empty());
        r
    }

    /// The number of watched patterns.
    pub fn len(&self) -> (r: usize)
        requires
            self.wf(),
        ensures
            r == self.pattern_set().len(),
    {
        proof {
            patterns_view(self.patterns@).unique_seq_to_set();
        }
        self.patterns.len()
    }

    /// The watched patterns, each once.
    pub fn patterns(&self) -> (r: &Vec<WatchPattern>)
        requires
            self.wf(),
        ensures
            patterns_view(r@).to_set() == self.pattern_set(),
            patterns_view(r@).no_duplicates(),
    {
        &self.patterns
    }

    /// Whether `p` is watched.
    pub fn contains(&self, p: &WatchPattern) -> (r: bool)
        ensures
            r == self.pattern_set().contains(pattern_view(*p)),
    {
        has_pattern(&self.patterns, p)
    }

    /// The paths of the watched patterns that none of `new` watches: these must
    /// be unwatched (a path watched in both modes appears twice).
    pub fn stale_paths(&self, new: &Vec<WatchPattern>) -> (r: Vec<String>)
        ensures
            path_keys(r@).to_set() == paths_of(self.pattern_set()).difference(
                paths_of(patterns_view(new@).to_set()),
            ),
    {
        let mut r: Vec<String> = Vec::new();
        let mut i: usize = 0;
        let ghost cur = patterns_view(self.patterns@);
        let ghost newp = paths_of(patterns_view(new@).to_set());
        while i < self.patterns.len()
            invariant
                i <= self.patterns.len(),
                cur == patterns_view(self.patterns@),
                newp == paths_of(patterns_view(new@).to_set()),
                path_keys(r@).to_set() == paths_of(cur.take(i as int).to_set()).difference(newp),
            decreases self.patterns.len() - i,
        {
            let p = &self.patterns[i];
            let ghost r0 = path_keys(r@);
            let ghost t0 = cur.take(i as int);
            let ghost t1 = cur.take(i + 1);
            assert(t1 =~= t0.push(pattern_view(*p)));
            let in_new = has_path(new, &p.path);
            assert(in_new == newp.contains(path_components(p.path@))) by {
                if in_new {
                    let j = choose|j: int| 0 <= j < new@.len() && path_components(new@[j].path@) == path_components(p.path@);
                    assert(patterns_view(new@)[j] == pattern_view(new@[j]));
                    assert(patterns_view(new@).to_set().contains(pattern_view(new@[j])));
                }
                if newp.contains(path_components(p.path@)) {
                    let x = choose|x: PatternKey| patterns_view(new@).to_set().contains(x) && x.0 == path_components(p.path@);
                    let j = choose|j: int| 0 <= j < patterns_view(new@).len() && patterns_view(new@)[j] == x;
                    assert(path_components(new@[j].path@) == path_components(p.path@));
                }
            }
            if !in_new {
                r.push(p.path.clone());
                assert(path_keys(r@) =~= r0.push(path_components(p.path@)));
            }
            assert(path_keys(r@).to_set() =~= paths_of(t1.to_set()).difference(newp)) by {
                assert forall|x: PathKey| path_keys(r@).to_set().contains(x) implies paths_of(t1.to_set()).difference(newp).contains(x) by {
                    let j = choose|j: int| 0 <= j < path_keys(r@).len() && path_keys(r@)[j] == x;
                    if j < r0.len() {
                        assert(r0[j] == x);
                        assert(r0.to_set().contains(x));
                        let y = choose|y: PatternKey| t0.to_set().contains(y) && y.0 == x;
                        let k = choose|k: int| 0 <= k < t0.len() && t0[k] == y;
                        assert(t1[k] == y);
                        assert(t1.to_set().contains(y));
                    } else {
                        assert(t1[i as int] == pattern_view(*p));
                        assert(t1.to_set().contains(pattern_view(*p)));
                    }
                }
                assert forall|x: PathKey| paths_of(t1.to_set()).difference(newp).contains(x) implies path_keys(r@).to_set().contains(x) by {
                    let y = choose|y: PatternKey| t1.to_set().contains(y) && y.0 == x;
                    let k = choose|k: int| 0 <= k < t1.len() && t1[k] == y;
                    if k < i {
                        assert(t0[k] == y);
                        assert(t0.to_set().contains(y));
                        assert(paths_of(t0.to_set()).contains(x));
                        assert(r0.to_set().contains(x));
                        let j = choose|j: int| 0 <= j < r0.len() && r0[j] == x;
                        assert(path_keys(r@)[j] == x);
                    } else {
                        assert(path_keys(r@)[r0.len() as int] == x);
                    }
                }
            }
            i += 1;
        }
        assert(cur.take(self.patterns.len() as int) =~= cur);
        r
    }

    /// Plans watching the patterns `new`: the paths to unwatch (those of
    /// watched patterns whose path no pattern of `new` has) and the patterns of
    /// `new` not watched yet, each once, in the order of `new`. The caller
    /// unwatches the paths and drops them (`remove_paths`), then watches each
    /// returned pattern and records it (`insert`); see `lemma_watch_plan`.
    pub fn plan_watch(&self, new: &Vec<WatchPattern>) -> (r: (Vec<String>, Vec<WatchPattern>))
        requires
            self.wf(),
        ensures
            path_keys(r.0@).to_set() == paths_of(self.pattern_set()).difference(
                paths_of(patterns_view(new@).to_set()),
            ),
            patterns_view(r.1@).no_duplicates(),
            patterns_view(r.1@).to_set() == patterns_view(new@).to_set().difference(self.pattern_set()),
    {
        let stale = self.stale_paths(new);
        let ghost cur = self.pattern_set();
        let mut r: Vec<WatchPattern> = Vec::new();
        let mut i: usize = 0;
        while i < new.len()
            invariant
                i <= new.len(),
                cur == self.pattern_set(),
                patterns_view(r@).no_duplicates(),
                patterns_view(r@).to_set() == patterns_view(new@).take(i as int).to_set().difference(cur),
            decreases new.len() - i,
        {
            let ghost r0 = patterns_view(r@);
            let ghost t0 = patterns_view(new@).take(i as int);
            let ghost t1 = patterns_view(new@).take(i + 1);
            let ghost x = pattern_view(new@[i as int]);
            assert(t1 =~= t0.push(x));
            let watched = self.contains(&new[i]);
            if !watched && !has_pattern(&r, &new[i]) {
                r.push(copy_pattern(&new[i]));
                assert(patterns_view(r@) =~= r0.push(x));
            }
            assert(patterns_view(r@).to_set() =~= t1.to_set().difference(cur)) by {
                assert forall|y| patterns_view(r@).to_set().contains(y) implies t1.to_set().difference(cur).contains(y) by {
                    let j = choose|j: int| 0 <= j < patterns_view(r@).len() && patterns_view(r@)[j] == y;
                    if j < r0.len() {
                        assert(r0[j] == y);
                        assert(r0.to_set().contains(y));
                        let k = choose|k: int| 0 <= k < t0.len() && t0[k] == y;
                        assert(t1[k] == y);
                    } else {
                        assert(t1[i as int] == y);
                    }
                }
                assert forall|y| t1.to_set().difference(cur).contains(y) implies patterns_view(r@).to_set().contains(y) by {
                    let k = choose|k: int| 0 <= k < t1.len() && t1[k] == y;
                    if k < i {
                        assert(t0[k] == y);
                        assert(t0.to_set().contains(y));
                        assert(r0.to_set().contains(y));
                        let j = choose|j: int| 0 <= j < r0.len() && r0[j] == y;
                        assert(patterns_view(r@)[j] == y);
                    } else if r0.contains(y) {
                        let j = choose|j: int| 0 <= j < r0.len() && r0[j] == y;
                        assert(patterns_view(r@)[j] == y);
                    } else {
                        assert(patterns_view(r@)[r0.len() as int] == y);
                    }
                }
            }
            i += 1;
        }
        assert(patterns_view(new@).take(new.len() as int) =~= patterns_view(new@));
        (stale, r)
    }

    /// Drops every pattern whose path is among `stale`.
    pub fn remove_paths(&mut self, stale: &Vec<String>)
        requires
            old(self).wf(),
        ensures
            final(self).wf(),
            final(self).pattern_set() == old(self).pattern_set().filter(
                |p: PatternKey| !path_keys(stale@).contains(p.0),
            ),
    {
        let ghost cur = patterns_view(self.patterns@);
        let ghost st = path_keys(stale@);
        let mut kept: Vec<WatchPattern> = Vec::new();
        let mut i: usize = 0;
        while i < self.patterns.len()
            invariant
                i <= self.patterns.len(),
                cur == patterns_view(self.patterns@),
                st == path_keys(stale@),
                cur.no_duplicates(),
                patterns_view(kept@).no_duplicates(),
                forall|t: int|
                    0 <= t < patterns_view(kept@).len() ==> !st.contains(#[trigger] patterns_view(kept@)[t].0) && exists|j: int|
                        0 <= j < i && cur[j] == patterns_view(kept@)[t],
                forall|j: int| 0 <= j < i && !st.contains(cur[j].0) ==> patterns_view(kept@).contains(#[trigger] cur[j]),
            decreases self.patterns.len() - i,
        {
            let ghost k0 = patterns_view(kept@);
            let mut hit = false;
            let mut j: usize = 0;
            while j < stale.len()
                invariant
                    j <= stale.len(),
                    i < self.patterns.len(),
                    hit == exists|t: int| 0 <= t < j && path_components(stale@[t]@) == path_components(self.patterns@[i as int].path@),
                decreases stale.len() - j,
            {
                if same_path(stale[j].as_str(), self.patterns[i].path.as_str()) {
                    hit = true;
                }
                j += 1;
            }
            assert(hit == st.contains(cur[i as int].0)) by {
                if hit {
                    let t = choose|t: int| 0 <= t < stale.len() && path_components(stale@[t]@) == path_components(self.patterns@[i as int].path@);
                    assert(st[t] == cur[i as int].0);
                }
                if st.contains(cur[i as int].0) {
                    let t = choose|t: int| 0 <= t < st.len() && st[t] == cur[i as int].0;
                    assert(path_components(stale@[t]@) == path_components(self.patterns@[i as int].path@));
                }
            }
            if !hit {
                kept.push(copy_pattern(&self.patterns[i]));
                assert(patterns_view(kept@) =~= k0.push(cur[i as int]));
                assert(!k0.contains(cur[i as int])) by {
                    if k0.contains(cur[i as int]) {
                        let t = choose|t: int| 0 <= t < k0.len() && k0[t] == cur[i as int];
                        let j = choose|j: int| 0 <= j < i && cur[j] == k0[t];
                        assert(cur[j] == cur[i as int]);
                    }
                }
                assert forall|t: int| 0 <= t < patterns_view(kept@).len() implies !st.contains(#[trigger] patterns_view(kept@)[t].0) && exists|j: int|
                    0 <= j < i + 1 && cur[j] == patterns_view(kept@)[t] by {
                    if t < k0.len() {
                        assert(patterns_view(kept@)[t] == k0[t]);
                    } else {
                        assert(cur[i as int] == patterns_view(kept@)[t]);
                    }
                }
                assert forall|j: int| 0 <= j < i + 1 && !st.contains(cur[j].0) implies patterns_view(kept@).contains(#[trigger] cur[j]) by {
                    if j < i {
                        let t = choose|t: int| 0 <= t < k0.len() && k0[t] == cur[j];
                        assert(patterns_view(kept@)[t] == cur[j]);
                    } else {
                        assert(patterns_view(kept@)[k0.len() as int] == cur[j]);
                    }
                }
            }
            i += 1;
        }
        assert(patterns_view(kept@).to_set() =~= old(self).pattern_set().filter(
            |p: PatternKey| !path_keys(stale@).contains(p.0),
        )) by {
            assert forall|x| patterns_view(kept@).to_set().contains(x) implies old(self).pattern_set().filter(
                |p: PatternKey| !path_keys(stale@).contains(p.0),
            ).contains(x) by {
                let t = choose|t: int| 0 <= t < patterns_view(kept@).len() && patterns_view(kept@)[t] == x;
                assert(!st.contains(patterns_view(kept@)[t].0));
                let j = choose|j: int| 0 <= j < i && cur[j] == patterns_view(kept@)[t];
                assert(cur.contains(x));
            }
            assert forall|x| old(self).pattern_set().filter(
                |p: PatternKey| !path_keys(stale@).contains(p.0),
            ).contains(x) implies patterns_view(kept@).to_set().contains(x) by {
                let k = choose|k: int| 0 <= k < cur.len() && cur[k] == x;
                assert(patterns_view(kept@).contains(cur[k]));
            }
        }
        self.patterns = kept;
    }

    /// Starts watching `p` (no change when it is watched already).
    pub fn insert(&mut self, p: WatchPattern)
        requires
            old(self).wf(),
        ensures
            final(self).wf(),
            final(self).pattern_set() == old(self).pattern_set().insert(pattern_view(p)),
    {
        let ghost before = patterns_view(self.patterns@);
        if has_pattern(&self.patterns, &p) {
            assert(self.pattern_set() =~= old(self).pattern_set().insert(pattern_view(p)));
            return;
        }
        self.patterns.push(p);
        assert(patterns_view(self.patterns@) =~= before.push(pattern_view(p)));
        assert(self.pattern_set() =~= old(self).pattern_set().insert(pattern_view(p))) by {
            assert forall|x| self.pattern_set().contains(x) implies old(self).pattern_set().insert(pattern_view(p)).contains(x) by {
                let j = choose|j: int| 0 <= j < patterns_view(self.patterns@).len() && patterns_view(self.patterns@)[j] == x;
                if j < before.len() {
                    assert(before[j] == x);
                }
            }
            assert forall|x| old(self).pattern_set().insert(pattern_view(p)).contains(x) implies self.pattern_set().contains(x) by {
                if x == pattern_view(p) {
                    assert(patterns_view(self.patterns@)[before.len() as int] == x);
                } else {
                    let j = choose|j: int| 0 <= j < before.len() && before[j] == x;
                    assert(patterns_view(self.patterns@)[j] == x);
                }
            }
        }
    }
}

} // verus!
