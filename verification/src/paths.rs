//! Bookkeeping of watched paths: files, directories and missing paths, each
//! with the paths currently watched and those added or removed by the last
//! update.

use vstd::prelude::*;
use crate::fspath::{is_absolute, join_path, path_components, path_is_absolute, path_join, same_path};
use crate::ignored::{ignores, FsWatcherIgnored};
use crate::text::strs;

verus! {

/// The set of the strings of `v`.
pub open spec fn str_set(v: Seq<String>) -> Set<Seq<char>> {
    strs(v).to_set()
}

/// A path as `Path`'s `==` sees it: its components.
pub type PathKey = Seq<Seq<char>>;

/// The components of each path of `v`.
pub open spec fn path_keys(v: Seq<String>) -> Seq<PathKey> {
    v.map_values(|s: String| path_components(s@))
}

/// The paths of `v`, each taken by its components.
pub open spec fn key_set(v: Seq<String>) -> Set<PathKey> {
    path_keys(v).to_set()
}

/// `p` made absolute against the working directory `cwd`.
pub open spec fn abs_path(cwd: Seq<char>, p: Seq<char>) -> Seq<char> {
    if path_is_absolute(p) {
        p
    } else {
        path_join(cwd, p)
    }
}

/// The absolute forms of the paths of `ps` that `ig` does not exclude, by
/// their components.
pub open spec fn kept_abs(cwd: Seq<char>, ig: FsWatcherIgnored, ps: Seq<Seq<char>>) -> Set<PathKey> {
    Set::new(|x: PathKey| exists|i: int| 0 <= i < ps.len() && !ignores(ig, ps[i]) && x == path_components(abs_path(cwd, ps[i])))
}

/// The absolute forms of the paths of `ps`, by their components.
pub open spec fn all_abs(cwd: Seq<char>, ps: Seq<Seq<char>>) -> Set<PathKey> {
    Set::new(|x: PathKey| exists|i: int| 0 <= i < ps.len() && x == path_components(abs_path(cwd, ps[i])))
}

/// Whether `v` holds a path equal to `p`, component by component.
pub fn contains_path(v: &Vec<String>, p: &str) -> (r: bool)
    ensures
        r == key_set(v@).contains(path_components(p@)),
{
    let mut i: usize = 0;
    while i < v.len()
        invariant
            i <= v.len(),
            forall|j: int| 0 <= j < i ==> path_components(v@[j]@) != path_components(p@),
        decreases v.len() - i,
    {
        if same_path(v[i].as_str(), p) {
            assert(path_keys(v@)[i as int] == path_components(p@));
            return true;
        }
        i += 1;
    }
    assert(!key_set(v@).contains(path_components(p@))) by {
        if path_keys(v@).contains(path_components(p@)) {
            let j = choose|j: int| 0 <= j < path_keys(v@).len() && path_keys(v@)[j] == path_components(p@);
            assert(path_components(v@[j]@) == path_components(p@));
        }
    }
    false
}

/// Adds `s` to `v` unless a path equal to it is there already.
fn insert_path(v: &mut Vec<String>, s: String)
    requires
        path_keys(old(v)@).no_duplicates(),
    ensures
        path_keys(final(v)@).no_duplicates(),
        key_set(final(v)@) == key_set(old(v)@).insert(path_components(s@)),
{
    let ghost k = path_components(s@);
    let found = contains_path(v, s.as_str());
    if found {
        assert(key_set(v@) =~= key_set(old(v)@).insert(k));
        return;
    }
    let ghost before = path_keys(v@);
    v.push(s);
    assert(path_keys(v@) =~= before.push(k));
    assert(!before.contains(k));
    assert(key_set(v@) =~= key_set(old(v)@).insert(k)) by {
        assert forall|x: PathKey| key_set(v@).contains(x) implies key_set(old(v)@).insert(k).contains(x) by {
            let j = choose|j: int| 0 <= j < path_keys(v@).len() && path_keys(v@)[j] == x;
            if j < before.len() {
                assert(before[j] == x);
            }
        }
        assert forall|x: PathKey| key_set(old(v)@).insert(k).contains(x) implies key_set(v@).contains(x) by {
            if x == k {
                assert(path_keys(v@)[before.len() as int] == x);
            } else {
                let j = choose|j: int| 0 <= j < before.len() && before[j] == x;
                assert(path_keys(v@)[j] == x);
            }
        }
    }
}

/// Removes from `v` the path equal to `s`.
fn remove_path(v: &mut Vec<String>, s: &String)
    requires
        path_keys(old(v)@).no_duplicates(),
    ensures
        path_keys(final(v)@).no_duplicates(),
        key_set(final(v)@) == key_set(old(v)@).remove(path_components(s@)),
{
    let ghost orig = path_keys(v@);
    let ghost k = path_components(s@);
    let mut kept: Vec<String> = Vec::new();
    let mut i: usize = 0;
    while i < v.len()
        invariant
            i <= v.len(),
            path_keys(v@) == orig,
            k == path_components(s@),
            orig.no_duplicates(),
            path_keys(kept@).no_duplicates(),
            forall|t: int|
                0 <= t < path_keys(kept@).len() ==> #[trigger] path_keys(kept@)[t] != k && exists|j: int|
                    0 <= j < i && orig[j] == path_keys(kept@)[t],
            forall|j: int| 0 <= j < i && orig[j] != k ==> path_keys(kept@).contains(#[trigger] orig[j]),
        decreases v.len() - i,
    {
        let ghost k0 = path_keys(kept@);
        if !same_path(v[i].as_str(), s.as_str()) {
            kept.push(v[i].clone());
            assert(path_keys(kept@) =~= k0.push(orig[i as int]));
            assert(!k0.contains(orig[i as int])) by {
                if k0.contains(orig[i as int]) {
                    let t = choose|t: int| 0 <= t < k0.len() && k0[t] == orig[i as int];
                    let j = choose|j: int| 0 <= j < i && orig[j] == k0[t];
                    assert(orig[j] == orig[i as int]);
                }
            }
            assert forall|j: int| 0 <= j < i + 1 && orig[j] != k implies path_keys(kept@).contains(#[trigger] orig[j]) by {
                if j < i {
                    let t = choose|t: int| 0 <= t < k0.len() && k0[t] == orig[j];
                    assert(path_keys(kept@)[t] == orig[j]);
                } else {
                    assert(path_keys(kept@)[k0.len() as int] == orig[j]);
                }
            }
            assert forall|t: int| 0 <= t < path_keys(kept@).len() implies #[trigger] path_keys(kept@)[t] != k && exists|j: int|
                    0 <= j < i + 1 && orig[j] == path_keys(kept@)[t] by {
                if t < k0.len() {
                    assert(path_keys(kept@)[t] == k0[t]);
                } else {
                    assert(orig[i as int] == path_keys(kept@)[t]);
                }
            }
        }
        i += 1;
    }
    assert(key_set(kept@) =~= key_set(old(v)@).remove(k)) by {
        assert forall|x: PathKey| key_set(kept@).contains(x) implies key_set(old(v)@).remove(k).contains(x) by {
            let t = choose|t: int| 0 <= t < path_keys(kept@).len() && path_keys(kept@)[t] == x;
            let j = choose|j: int| 0 <= j < v.len() && orig[j] == path_keys(kept@)[t];
            assert(path_keys(old(v)@)[j] == x);
        }
        assert forall|x: PathKey| key_set(old(v)@).remove(k).contains(x) implies key_set(kept@).contains(x) by {
            let j = choose|j: int| 0 <= j < orig.len() && orig[j] == x;
            assert(path_keys(kept@).contains(orig[j]));
        }
    }
    *v = kept;
}

/// Watched paths of one kind.
pub struct PathTracker {
    all: Vec<String>,
    added: Vec<String>,
    removed: Vec<String>,
}

impl PathTracker {
    /// Each list holds every path at most once.
    pub closed spec fn wf(&self) -> bool {
        &&& path_keys(self.all@).no_duplicates()
        &&& path_keys(self.added@).no_duplicates()
        &&& path_keys(self.removed@).no_duplicates()
    }

    /// The paths currently watched.
    pub closed spec fn all_set(&self) -> Set<PathKey> {
        key_set(self.all@)
    }

    /// The paths currently watched, in the order they were first added.
    pub closed spec fn all_seq(&self) -> Seq<Seq<char>> {
        strs(self.all@)
    }

    /// The paths added since the last reset.
    pub closed spec fn added_set(&self) -> Set<PathKey> {
        key_set(self.added@)
    }

    /// The paths removed since the last reset.
    pub closed spec fn removed_set(&self) -> Set<PathKey> {
        key_set(self.removed@)
    }

    /// A tracker without paths.
    pub fn new() -> (r: Self)
        ensures
            r.wf(),
            r.all_set() == Set::<PathKey>::empty(),
            r.added_set() == Set::<PathKey>::empty(),
            r.removed_set() == Set::<PathKey>::empty(),
    {
        let r = PathTracker { all: Vec::new(), added: Vec::new(), removed: Vec::new() };
        assert(r.all_set() =~= Set::<PathKey>::empty());
        assert(r.added_set() =~= Set::<PathKey>::empty());
        assert(r.removed_set() =~= Set::<PathKey>::empty());
        r
    }

    /// The paths currently watched, each once.
    pub fn all(&self) -> (r: &Vec<String>)
        requires
            self.wf(),
        ensures
            strs(r@) == self.all_seq(),
            key_set(r@) == self.all_set(),
            path_keys(r@).no_duplicates(),
    {
        &self.all
    }

    /// The paths added since the last reset, each once.
    pub fn added(&self) -> (r: &Vec<String>)
        requires
            self.wf(),
        ensures
            key_set(r@) == self.added_set(),
            path_keys(r@).no_duplicates(),
    {
        &self.added
    }

    /// The paths removed since the last reset, each once.
    pub fn removed(&self) -> (r: &Vec<String>)
        requires
            self.wf(),
        ensures
            key_set(r@) == self.removed_set(),
            path_keys(r@).no_duplicates(),
    {
        &self.removed
    }

    /// Forgets what the last update added and removed.
    pub fn reset(&mut self)
        requires
            old(self).wf(),
        ensures
            final(self).wf(),
            final(self).all_set() == old(self).all_set(),
            final(self).all_seq() == old(self).all_seq(),
            final(self).added_set() == Set::<PathKey>::empty(),
            final(self).removed_set() == Set::<PathKey>::empty(),
    {
        self.added = Vec::new();
        self.removed = Vec::new();
        assert(self.added_set() =~= Set::<PathKey>::empty());
        assert(self.removed_set() =~= Set::<PathKey>::empty());
    }

    /// Starts watching `path`, recording it as added.
    pub fn add(&mut self, path: String)
        requires
            old(self).wf(),
        ensures
            final(self).wf(),
            final(self).all_set() == old(self).all_set().insert(path_components(path@)),
            final(self).added_set() == old(self).added_set().insert(path_components(path@)),
            final(self).removed_set() == old(self).removed_set(),
    {
        insert_path(&mut self.added, path.clone());
        insert_path(&mut self.all, path);
    }

    /// Stops watching `path`, recording it as removed.
    pub fn remove(&mut self, path: String)
        requires
            old(self).wf(),
        ensures
            final(self).wf(),
            final(self).all_set() == old(self).all_set().remove(path_components(path@)),
            final(self).added_set() == old(self).added_set(),
            final(self).removed_set() == old(self).removed_set().insert(path_components(path@)),
    {
        remove_path(&mut self.all, &path);
        insert_path(&mut self.removed, path);
    }

    /// Adds the paths of `added` that `ignored` does not exclude, then removes
    /// the paths of `removed`; relative paths are first joined to `cwd`.
    pub fn update(&mut self, added: Vec<String>, removed: Vec<String>, ignored: &FsWatcherIgnored, cwd: &str)
        requires
            old(self).wf(),
        ensures
            final(self).wf(),
            final(self).all_set() == old(self).all_set().union(kept_abs(cwd@, *ignored, strs(added@)))
                .difference(all_abs(cwd@, strs(removed@))),
            final(self).added_set() == old(self).added_set().union(
                kept_abs(cwd@, *ignored, strs(added@)),
            ),
            final(self).removed_set() == old(self).removed_set().union(
                all_abs(cwd@, strs(removed@)),
            ),
    {
        let ghost a0 = self.all_set();
        let ghost d0 = self.added_set();
        let ghost r0 = self.removed_set();
        let ghost ads = strs(added@);
        let ghost rms = strs(removed@);
        let mut i: usize = 0;
        assert(kept_abs(cwd@, *ignored, ads.take(0)) =~= Set::<PathKey>::empty());
        assert(a0.union(Set::<PathKey>::empty()) =~= a0);
        assert(d0.union(Set::<PathKey>::empty()) =~= d0);
        while i < added.len()
            invariant
                i <= added.len(),
                ads == strs(added@),
                self.all_set() == a0.union(kept_abs(cwd@, *ignored, ads.take(i as int))),
                self.added_set() == d0.union(kept_abs(cwd@, *ignored, ads.take(i as int))),
                self.removed_set() == r0,
                self.wf(),
            decreases added.len() - i,
        {
            let p = &added[i];
            let skip = ignored.should_ignore(p.as_str());
            let ghost t0 = ads.take(i as int);
            let ghost t1 = ads.take(i + 1);
            let ghost before = kept_abs(cwd@, *ignored, t0);
            let ghost after = kept_abs(cwd@, *ignored, t1);
            if !skip {
                let abs = if is_absolute(p.as_str()) {
                    p.clone()
                } else {
                    join_path(cwd, p.as_str())
                };
                assert(abs@ == abs_path(cwd@, ads[i as int]));
                self.add(abs);
                assert(after =~= before.insert(path_components(abs_path(cwd@, ads[i as int])))) by {
                    assert forall|x: PathKey| after.contains(x) implies before.insert(
                        path_components(abs_path(cwd@, ads[i as int])),
                    ).contains(x) by {
                        let j = choose|j: int|
                            0 <= j < i + 1 && !ignores(*ignored, t1[j]) && x
                                == path_components(abs_path(cwd@, t1[j]));
                        if j < i {
                            assert(t0[j] == t1[j]);
                        }
                    }
                    assert forall|x: PathKey| before.insert(path_components(abs_path(cwd@, ads[i as int]))).contains(x) implies after.contains(x) by {
                        if x == path_components(abs_path(cwd@, ads[i as int])) {
                            assert(t1[i as int] == ads[i as int]);
                        } else {
                            let j = choose|j: int|
                                0 <= j < i && !ignores(*ignored, t0[j]) && x
                                    == path_components(abs_path(cwd@, t0[j]));
                            assert(t1[j] == t0[j]);
                        }
                    }
                }
                assert(self.all_set() =~= a0.union(after));
                assert(self.added_set() =~= d0.union(after));
            } else {
                assert(after =~= before) by {
                    assert forall|x: PathKey| after.contains(x) implies before.contains(x) by {
                        let j = choose|j: int|
                            0 <= j < i + 1 && !ignores(*ignored, t1[j]) && x
                                == path_components(abs_path(cwd@, t1[j]));
                        assert(j != i);
                        assert(t0[j] == t1[j]);
                    }
                    assert forall|x: PathKey| before.contains(x) implies after.contains(x) by {
                        let j = choose|j: int|
                            0 <= j < i && !ignores(*ignored, t0[j]) && x
                                == path_components(abs_path(cwd@, t0[j]));
                        assert(t1[j] == t0[j]);
                    }
                }
            }
            i += 1;
        }
        assert(ads.take(added.len() as int) =~= ads);
        let ghost kept = kept_abs(cwd@, *ignored, ads);
        let mut k: usize = 0;
        assert(all_abs(cwd@, rms.take(0)) =~= Set::<PathKey>::empty());
        assert(a0.union(kept).difference(Set::<PathKey>::empty()) =~= a0.union(kept));
        assert(r0.union(Set::<PathKey>::empty()) =~= r0);
        while k < removed.len()
            invariant
                k <= removed.len(),
                rms == strs(removed@),
                self.all_set() == a0.union(kept).difference(all_abs(cwd@, rms.take(k as int))),
                self.added_set() == d0.union(kept),
                self.removed_set() == r0.union(all_abs(cwd@, rms.take(k as int))),
                self.wf(),
            decreases removed.len() - k,
        {
            let p = &removed[k];
            let abs = if is_absolute(p.as_str()) {
                p.clone()
            } else {
                join_path(cwd, p.as_str())
            };
            let ghost t0 = rms.take(k as int);
            let ghost t1 = rms.take(k + 1);
            let ghost before = all_abs(cwd@, t0);
            let ghost after = all_abs(cwd@, t1);
            assert(abs@ == abs_path(cwd@, rms[k as int]));
            self.remove(abs);
            assert(after =~= before.insert(path_components(abs_path(cwd@, rms[k as int])))) by {
                assert forall|x: PathKey| after.contains(x) implies before.insert(
                    path_components(abs_path(cwd@, rms[k as int])),
                ).contains(x) by {
                    let j = choose|j: int| 0 <= j < k + 1 && x == path_components(abs_path(cwd@, t1[j]));
                    if j < k {
                        assert(t0[j] == t1[j]);
                    }
                }
                assert forall|x: PathKey| before.insert(path_components(abs_path(cwd@, rms[k as int]))).contains(x) implies after.contains(x) by {
                    if x == path_components(abs_path(cwd@, rms[k as int])) {
                        assert(t1[k as int] == rms[k as int]);
                    } else {
                        let j = choose|j: int| 0 <= j < k && x == path_components(abs_path(cwd@, t0[j]));
                        assert(t1[j] == t0[j]);
                    }
                }
            }
            assert(self.all_set() =~= a0.union(kept).difference(after));
            assert(self.removed_set() =~= r0.union(after));
            k += 1;
        }
        assert(rms.take(removed.len() as int) =~= rms);
    }
}

impl Default for PathTracker {
    fn default() -> (r: Self)
        ensures
            r.wf(),
            r.all_set() == Set::<PathKey>::empty(),
            r.added_set() == Set::<PathKey>::empty(),
            r.removed_set() == Set::<PathKey>::empty(),
    {
        PathTracker::new()
    }
}


/// What `PathTracker::update` does to a tracker, as its contract states it.
pub open spec fn tracker_updated(
    before: PathTracker,
    after: PathTracker,
    added: Seq<Seq<char>>,
    removed: Seq<Seq<char>>,
    ignored: FsWatcherIgnored,
    cwd: Seq<char>,
) -> bool {
    &&& after.wf()
    &&& after.all_set() == before.all_set().union(kept_abs(cwd, ignored, added)).difference(
        all_abs(cwd, removed),
    )
    &&& after.added_set() == before.added_set().union(kept_abs(cwd, ignored, added))
    &&& after.removed_set() == before.removed_set().union(all_abs(cwd, removed))
}

/// What an update does to a tracker, path by path: a removed path is no
/// longer watched and is recorded as removed; an added path that is not
/// ignored and not removed in the same update is watched and recorded as
/// added; an ignored path is not recorded as added unless an equal path was
/// added without being ignored; and every watched path was watched before or
/// was added without being ignored. Relative paths are taken against `cwd`,
/// absolute ones as they are.
pub proof fn lemma_tracker_update(
    before: PathTracker,
    after: PathTracker,
    added: Seq<Seq<char>>,
    removed: Seq<Seq<char>>,
    ig: FsWatcherIgnored,
    cwd: Seq<char>,
)
    requires
        tracker_updated(before, after, added, removed, ig, cwd),
    ensures
        forall|i: int|
            0 <= i < removed.len() ==> !after.all_set().contains(path_components(abs_path(cwd, #[trigger] removed[i])))
                && after.removed_set().contains(path_components(abs_path(cwd, removed[i]))),
        forall|i: int|
            0 <= i < added.len() && !ignores(ig, #[trigger] added[i]) ==> after.added_set().contains(
                path_components(abs_path(cwd, added[i])),
            ) && (!all_abs(cwd, removed).contains(path_components(abs_path(cwd, added[i])))
                ==> after.all_set().contains(path_components(abs_path(cwd, added[i])))),
        forall|x: PathKey|
            #[trigger] after.all_set().contains(x) ==> before.all_set().contains(x) || exists|i: int|
                0 <= i < added.len() && !ignores(ig, added[i]) && x == path_components(abs_path(cwd, added[i])),
        forall|x: PathKey|
            #[trigger] after.added_set().contains(x) ==> before.added_set().contains(x) || exists|i: int|
                0 <= i < added.len() && !ignores(ig, added[i]) && x == path_components(abs_path(cwd, added[i])),
        forall|p: Seq<char>| path_is_absolute(p) ==> #[trigger] abs_path(cwd, p) == p,
        forall|p: Seq<char>| !path_is_absolute(p) ==> #[trigger] abs_path(cwd, p) == path_join(cwd, p),
{
    assert forall|i: int| 0 <= i < removed.len() implies !after.all_set().contains(
        path_components(abs_path(cwd, #[trigger] removed[i])),
    ) && after.removed_set().contains(path_components(abs_path(cwd, removed[i]))) by {
        assert(all_abs(cwd, removed).contains(path_components(abs_path(cwd, removed[i]))));
    }
    assert forall|i: int| 0 <= i < added.len() && !ignores(ig, #[trigger] added[i]) implies after.added_set().contains(
        path_components(abs_path(cwd, added[i])),
    ) && (!all_abs(cwd, removed).contains(path_components(abs_path(cwd, added[i]))) ==> after.all_set().contains(
        path_components(abs_path(cwd, added[i])),
    )) by {
        assert(kept_abs(cwd, ig, added).contains(path_components(abs_path(cwd, added[i]))));
    }
}

/// Read-only view of the three trackers of a `PathManager`.
pub struct PathAccessor<'a> {
    files: &'a PathTracker,
    directories: &'a PathTracker,
    missing: &'a PathTracker,
}

impl<'a> PathAccessor<'a> {
    /// The tracker of watched files.
    pub closed spec fn spec_files(&self) -> PathTracker {
        *self.files
    }

    /// The tracker of watched directories.
    pub closed spec fn spec_directories(&self) -> PathTracker {
        *self.directories
    }

    /// The tracker of watched missing paths.
    pub closed spec fn spec_missing(&self) -> PathTracker {
        *self.missing
    }

    /// The three trackers are well formed.
    pub open spec fn wf(&self) -> bool {
        self.spec_files().wf() && self.spec_directories().wf() && self.spec_missing().wf()
    }

    /// Files: (all, added, removed).
    pub fn files(&self) -> (r: (&Vec<String>, &Vec<String>, &Vec<String>))
        requires
            self.wf(),
        ensures
            strs(r.0@) == self.spec_files().all_seq(),
            key_set(r.0@) == self.spec_files().all_set(),
            key_set(r.1@) == self.spec_files().added_set(),
            key_set(r.2@) == self.spec_files().removed_set(),
            path_keys(r.0@).no_duplicates(),
            path_keys(r.1@).no_duplicates(),
            path_keys(r.2@).no_duplicates(),
    {
        (self.files.all(), self.files.added(), self.files.removed())
    }

    /// Directories: (all, added, removed).
    pub fn directories(&self) -> (r: (&Vec<String>, &Vec<String>, &Vec<String>))
        requires
            self.wf(),
        ensures
            strs(r.0@) == self.spec_directories().all_seq(),
            key_set(r.0@) == self.spec_directories().all_set(),
            key_set(r.1@) == self.spec_directories().added_set(),
            key_set(r.2@) == self.spec_directories().removed_set(),
            path_keys(r.0@).no_duplicates(),
            path_keys(r.1@).no_duplicates(),
            path_keys(r.2@).no_duplicates(),
    {
        (self.directories.all(), self.directories.added(), self.directories.removed())
    }

    /// Missing paths: (all, added, removed).
    pub fn missing(&self) -> (r: (&Vec<String>, &Vec<String>, &Vec<String>))
        requires
            self.wf(),
        ensures
            strs(r.0@) == self.spec_missing().all_seq(),
            key_set(r.0@) == self.spec_missing().all_set(),
            key_set(r.1@) == self.spec_missing().added_set(),
            key_set(r.2@) == self.spec_missing().removed_set(),
            path_keys(r.0@).no_duplicates(),
            path_keys(r.1@).no_duplicates(),
            path_keys(r.2@).no_duplicates(),
    {
        (self.missing.all(), self.missing.added(), self.missing.removed())
    }

    /// Every watched path: the files, then the directories, then the missing
    /// paths (a path watched in two kinds appears twice).
    pub fn all(&self) -> (r: Vec<String>)
        requires
            self.wf(),
        ensures
            strs(r@) == self.spec_files().all_seq() + self.spec_directories().all_seq()
                + self.spec_missing().all_seq(),
    {
        let mut r: Vec<String> = Vec::new();
        append_strs(&mut r, self.files.all());
        append_strs(&mut r, self.directories.all());
        append_strs(&mut r, self.missing.all());
        r
    }
}

/// Appends clones of the strings of `src` to `dst`.
fn append_strs(dst: &mut Vec<String>, src: &Vec<String>)
    ensures
        strs(final(dst)@) == strs(old(dst)@) + strs(src@),
{
    let mut i: usize = 0;
    while i < src.len()
        invariant
            i <= src.len(),
            strs(dst@) == strs(old(dst)@) + strs(src@).take(i as int),
        decreases src.len() - i,
    {
        let ghost d0 = strs(dst@);
        dst.push(src[i].clone());
        assert(strs(dst@) =~= d0.push(src@[i as int]@));
        assert(strs(src@).take(i + 1) =~= strs(src@).take(i as int).push(src@[i as int]@));
        i += 1;
    }
    assert(strs(src@).take(src.len() as int) =~= strs(src@));
}

/// Watched files, directories and missing paths, with the ignore patterns
/// applied to every path added.
pub struct PathManager {
    files: PathTracker,
    directories: PathTracker,
    missing: PathTracker,
    ignored: FsWatcherIgnored,
}

impl PathManager {
    /// The tracker of watched files.
    pub closed spec fn spec_files(&self) -> PathTracker {
        self.files
    }

    /// The tracker of watched directories.
    pub closed spec fn spec_directories(&self) -> PathTracker {
        self.directories
    }

    /// The tracker of watched missing paths.
    pub closed spec fn spec_missing(&self) -> PathTracker {
        self.missing
    }

    /// The ignore patterns.
    pub closed spec fn spec_ignored(&self) -> FsWatcherIgnored {
        self.ignored
    }

    /// The three trackers are well formed.
    pub open spec fn wf(&self) -> bool {
        self.spec_files().wf() && self.spec_directories().wf() && self.spec_missing().wf()
    }

    /// A manager without paths, ignoring what `ignored` excludes.
    pub fn new(ignored: FsWatcherIgnored) -> (r: Self)
        ensures
            r.wf(),
            r.spec_ignored() == ignored,
            r.spec_files().all_set().is_empty() && r.spec_files().added_set().is_empty()
                && r.spec_files().removed_set().is_empty(),
            r.spec_directories().all_set().is_empty() && r.spec_directories().added_set().is_empty()
                && r.spec_directories().removed_set().is_empty(),
            r.spec_missing().all_set().is_empty() && r.spec_missing().added_set().is_empty()
                && r.spec_missing().removed_set().is_empty(),
    {
        PathManager {
            files: PathTracker::new(),
            directories: PathTracker::new(),
            missing: PathTracker::new(),
            ignored,
        }
    }

    /// The ignore patterns.
    pub fn ignored(&self) -> (r: &FsWatcherIgnored)
        ensures
            *r == self.spec_ignored(),
    {
        &self.ignored
    }

    /// Forgets what the last update added and removed, in all three trackers.
    pub fn reset(&mut self)
        requires
            old(self).wf(),
        ensures
            final(self).wf(),
            final(self).spec_ignored() == old(self).spec_ignored(),
            final(self).spec_files().all_set() == old(self).spec_files().all_set(),
            final(self).spec_files().all_seq() == old(self).spec_files().all_seq(),
            final(self).spec_files().added_set().is_empty(),
            final(self).spec_files().removed_set().is_empty(),
            final(self).spec_directories().all_set() == old(self).spec_directories().all_set(),
            final(self).spec_directories().all_seq() == old(self).spec_directories().all_seq(),
            final(self).spec_directories().added_set().is_empty(),
            final(self).spec_directories().removed_set().is_empty(),
            final(self).spec_missing().all_set() == old(self).spec_missing().all_set(),
            final(self).spec_missing().all_seq() == old(self).spec_missing().all_seq(),
            final(self).spec_missing().added_set().is_empty(),
            final(self).spec_missing().removed_set().is_empty(),
    {
        self.files.reset();
        self.directories.reset();
        self.missing.reset();
    }

    /// Updates each tracker with its (added, removed) paths; relative paths are
    /// joined to `cwd`, the working directory.
    pub fn update(
        &mut self,
        files: (Vec<String>, Vec<String>),
        directories: (Vec<String>, Vec<String>),
        missing: (Vec<String>, Vec<String>),
        cwd: &str,
    )
        requires
            old(self).wf(),
        ensures
            final(self).wf(),
            final(self).spec_ignored() == old(self).spec_ignored(),
            tracker_updated(old(self).spec_files(), final(self).spec_files(), strs(files.0@), strs(files.1@), old(self).spec_ignored(), cwd@),
            tracker_updated(old(self).spec_directories(), final(self).spec_directories(), strs(directories.0@), strs(directories.1@), old(self).spec_ignored(), cwd@),
            tracker_updated(old(self).spec_missing(), final(self).spec_missing(), strs(missing.0@), strs(missing.1@), old(self).spec_ignored(), cwd@),
    {
        self.files.update(files.0, files.1, &self.ignored, cwd);
        self.directories.update(directories.0, directories.1, &self.ignored, cwd);
        self.missing.update(missing.0, missing.1, &self.ignored, cwd);
    }

    /// Read-only access to the three trackers.
    pub fn access(&self) -> (r: PathAccessor<'_>)
        ensures
            r.spec_files() == self.spec_files(),
            r.spec_directories() == self.spec_directories(),
            r.spec_missing() == self.spec_missing(),
    {
        PathAccessor { files: &self.files, directories: &self.directories, missing: &self.missing }
    }
}

impl Default for PathManager {
    fn default() -> (r: Self)
        ensures
            r.wf(),
            r.spec_ignored() is Nothing,
            r.spec_files().all_set().is_empty() && r.spec_files().added_set().is_empty()
                && r.spec_files().removed_set().is_empty(),
            r.spec_directories().all_set().is_empty() && r.spec_directories().added_set().is_empty()
                && r.spec_directories().removed_set().is_empty(),
            r.spec_missing().all_set().is_empty() && r.spec_missing().added_set().is_empty()
                && r.spec_missing().removed_set().is_empty(),
    {
        PathManager::new(FsWatcherIgnored::Nothing)
    }
}

} // verus!
