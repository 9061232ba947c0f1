//! The bundler core: the module scan worklist, the link order and the code
//! generator. Reading files, awaiting plugins and probing the file system are
//! done by the caller, which feeds the results to [`ScanState`].

use std::collections::VecDeque;
use vstd::prelude::*;
use vstd::string::StringExecFns;
use crate::text::{chars_of, contains_str, string_from_chars, strs, trim_end, trim_end_chars};

verus! {

/// Where the bundle starts.
#[derive(Debug, Clone)]
pub struct BundlerOptions {
    /// Path of the entry module.
    pub input: String,
}

/// A scanned module: its id (canonical path), its (transformed) code and the
/// ids of the modules it imports, in import order.
#[derive(Debug)]
pub struct Module {
    pub id: String,
    pub code: String,
    pub deps: Vec<String>,
}

/// The scanned modules, in scan order until `link` reorders them.
#[derive(Debug)]
pub struct ModuleGraph {
    pub modules: Vec<Module>,
}

/// The generated bundle and the ids of its modules, in output order.
#[derive(Debug)]
pub struct Output {
    pub code: String,
    pub modules: Vec<String>,
}

/// The ids of a sequence of modules.
pub open spec fn module_ids(ms: Seq<Module>) -> Seq<Seq<char>> {
    ms.map_values(|m: Module| m.id@)
}

/// The specifiers that resolved, in order.
pub open spec fn resolved_ids(r: Seq<Option<String>>) -> Seq<Seq<char>>
    decreases r.len(),
{
    if r.len() == 0 {
        seq![]
    } else {
        let rest = resolved_ids(r.drop_last());
        match r.last() {
            Some(s) => rest.push(s@),
            None => rest,
        }
    }
}

/// Position of the first element of `q` that `seen` does not hold, or `q.len()`.
pub open spec fn first_unseen(q: Seq<Seq<char>>, seen: Seq<Seq<char>>) -> int
    decreases q.len(),
{
    if q.len() == 0 {
        0
    } else if !seen.contains(q[0]) {
        0
    } else {
        1 + first_unseen(q.drop_first(), seen)
    }
}

/// Whether `x` is an import of one of the first `n` modules of `ms`.
pub open spec fn imported_before(ms: Seq<Module>, n: int, x: Seq<char>) -> bool {
    exists|i: int, j: int|
        0 <= i < n && i < ms.len() && 0 <= j < ms[i].deps@.len() && #[trigger] ms[i].deps@[j]@ == x
}

/// `first_unseen` is the position of the first queued id not yet seen: it
/// lies in `0..=q.len()`, below the length exactly when some queued id is
/// unseen, the id there is unseen, and every id before it has been seen.
pub proof fn lemma_first_unseen(q: Seq<Seq<char>>, seen: Seq<Seq<char>>)
    ensures
        0 <= first_unseen(q, seen) <= q.len(),
        first_unseen(q, seen) < q.len() <==> exists|j: int| 0 <= j < q.len() && !seen.contains(#[trigger] q[j]),
        first_unseen(q, seen) < q.len() ==> !seen.contains(q[first_unseen(q, seen)]),
        forall|j: int| 0 <= j < first_unseen(q, seen) ==> seen.contains(#[trigger] q[j]),
    decreases q.len(),
{
    if q.len() > 0 && seen.contains(q[0]) {
        let rest = q.drop_first();
        lemma_first_unseen(rest, seen);
        assert forall|j: int| 0 <= j < first_unseen(q, seen) implies seen.contains(#[trigger] q[j]) by {
            if j > 0 {
                assert(q[j] == rest[j - 1]);
            }
        }
        if exists|j: int| 0 <= j < q.len() && !seen.contains(#[trigger] q[j]) {
            let j = choose|j: int| 0 <= j < q.len() && !seen.contains(#[trigger] q[j]);
            assert(rest[j - 1] == q[j]);
        }
        if exists|j: int| 0 <= j < rest.len() && !seen.contains(#[trigger] rest[j]) {
            let j = choose|j: int| 0 <= j < rest.len() && !seen.contains(#[trigger] rest[j]);
            assert(q[j + 1] == rest[j]);
        }
    }
}

/// The resolved ids of a module are the specifiers that resolved, in order,
/// each by its id.
pub proof fn lemma_resolved_ids(r: Seq<Option<String>>)
    ensures
        resolved_ids(r) == r.filter(|o: Option<String>| o is Some).map_values(|o: Option<String>| o.unwrap()@),
    decreases r.len(),
{
    reveal(Seq::filter);
    let f = |o: Option<String>| o is Some;
    let g = |o: Option<String>| o.unwrap()@;
    if r.len() > 0 {
        let init = r.drop_last();
        lemma_resolved_ids(init);
        assert(init.filter(f).push(r.last()).map_values(g) =~= init.filter(f).map_values(g).push(
            r.last().unwrap()@,
        ));
    } else {
        assert(r.filter(f) =~= r);
        assert(resolved_ids(r) =~= r.filter(f).map_values(g));
    }
}

/// Zero or one id.
pub open spec fn opt_id(o: Option<Seq<char>>) -> Seq<Seq<char>> {
    match o {
        Some(x) => seq![x],
        None => seq![],
    }
}

/// The worklist of a module scan: ids still to visit, ids already visited,
/// the module being processed and the modules done.
pub struct ScanState {
    queue: VecDeque<String>,
    seen: Vec<String>,
    pending: Option<String>,
    modules: Vec<Module>,
    entry: Ghost<Seq<char>>,
}

impl ScanState {
    /// Ids waiting in the queue, front first.
    pub closed spec fn queued(&self) -> Seq<Seq<char>> {
        strs(self.queue@)
    }

    /// Ids taken from the queue so far, in order.
    pub closed spec fn seen_ids(&self) -> Seq<Seq<char>> {
        strs(self.seen@)
    }

    /// The id handed out by `next_module` and not yet finished.
    pub closed spec fn pending_id(&self) -> Option<Seq<char>> {
        match self.pending {
            Some(p) => Some(p@),
            None => None,
        }
    }

    /// The modules finished so far, in scan order.
    pub closed spec fn scanned(&self) -> Seq<Module> {
        self.modules@
    }

    /// The id the scan started from.
    pub closed spec fn entry_id(&self) -> Seq<char> {
        self.entry@
    }

    /// The state's invariant: the visited ids are the finished modules followed by
    /// the pending one, nothing is visited twice, every import of a finished
    /// module has been visited or is still queued, every visited id but the
    /// entry is an import of a module finished before it, and (once the entry
    /// is visited) every queued id is an import of a finished module.
    pub closed spec fn wf(&self) -> bool {
        &&& forall|t: int|
            #![trigger self.seen_ids()[t]]
            0 < t < self.seen_ids().len() ==> imported_before(self.modules@, t, self.seen_ids()[t])
        &&& self.seen_ids().len() > 0 ==> forall|k: int|
            #![trigger self.queued()[k]]
            0 <= k < self.queued().len() ==> imported_before(
                self.modules@,
                self.modules@.len() as int,
                self.queued()[k],
            )
        &&& (self.seen_ids().len() == 0 ==> self.queued() == seq![self.entry_id()])
        &&& (self.seen_ids().len() > 0 ==> self.seen_ids()[0] == self.entry_id())
        &&& self.seen_ids() == module_ids(self.scanned()) + opt_id(self.pending_id())
        &&& self.seen_ids().no_duplicates()
        &&& forall|i: int, j: int|
            0 <= i < self.modules@.len() && 0 <= j < self.modules@[i].deps@.len() ==> {
                ||| #[trigger] self.seen_ids().contains(self.modules@[i].deps@[j]@)
                ||| self.queued().contains(self.modules@[i].deps@[j]@)
            }
    }

    /// A scan that starts at `entry`.
    pub fn new(entry: String) -> (r: Self)
        ensures
            r.wf(),
            r.queued() == seq![entry@],
            r.seen_ids() == Seq::<Seq<char>>::empty(),
            r.pending_id() is None,
            r.scanned() == Seq::<Module>::empty(),
            r.entry_id() == entry@,
    {
        let ghost e = entry@;
        let mut queue = VecDeque::new();
        queue.push_back(entry);
        let r = ScanState { queue, seen: Vec::new(), pending: None, modules: Vec::new(), entry: Ghost(e) };
        assert(r.queued() =~= seq![entry@]);
        assert(r.seen_ids() =~= Seq::<Seq<char>>::empty());
        assert(module_ids(r.scanned()) + opt_id(r.pending_id()) =~= Seq::<Seq<char>>::empty());
        r
    }

    /// The id of the next module to process: the pending one if there is one,
    /// else the first queued id not yet visited, which becomes pending. Queued
    /// ids already visited are dropped on the way. `None` ends the scan.
    pub fn next_module(&mut self) -> (r: Option<String>)
        requires
            old(self).wf(),
        ensures
            final(self).wf(),
            final(self).scanned() == old(self).scanned(),
            final(self).entry_id() == old(self).entry_id(),
            old(self).pending_id() is Some ==> {
                &&& r is Some
                &&& old(self).pending_id() == Some(r.unwrap()@)
                &&& final(self).queued() == old(self).queued()
                &&& final(self).seen_ids() == old(self).seen_ids()
                &&& final(self).pending_id() == old(self).pending_id()
            },
            old(self).pending_id() is None ==> ({
                let k = first_unseen(old(self).queued(), old(self).seen_ids());
                if k < old(self).queued().len() {
                    &&& r is Some
                    &&& r.unwrap()@ == old(self).queued()[k]
                    &&& final(self).queued() == old(self).queued().skip(k + 1)
                    &&& final(self).seen_ids() == old(self).seen_ids().push(r.unwrap()@)
                    &&& final(self).pending_id() == Some(r.unwrap()@)
                } else {
                    &&& r is None
                    &&& final(self).queued() == Seq::<Seq<char>>::empty()
                    &&& final(self).seen_ids() == old(self).seen_ids()
                    &&& final(self).pending_id() is None
                }
            }),
    {
        if let Some(p) = &self.pending {
            return Some(p.clone());
        }
        let ghost q0 = self.queued();
        let ghost seen0 = self.seen_ids();
        let ghost mut popped: int = 0;
        assert(q0.skip(0) =~= q0);
        loop
            invariant
                old(self).pending_id() is None,
                old(self).queued() == q0,
                old(self).seen_ids() == seen0,
                self.entry == old(self).entry,
                seen0.len() == 0 ==> popped == 0 && q0 == seq![self.entry_id()],
                seen0.len() > 0 ==> seen0[0] == self.entry_id(),
                self.pending is None,
                self.seen_ids() == seen0,
                self.modules@ == old(self).modules@,
                self.seen_ids() == module_ids(self.scanned()),
                self.seen_ids().no_duplicates(),
                0 <= popped <= q0.len(),
                self.queued() == q0.skip(popped),
                first_unseen(q0, seen0) == popped + first_unseen(q0.skip(popped), seen0),
                forall|t: int|
                    #![trigger self.seen_ids()[t]]
                    0 < t < self.seen_ids().len() ==> imported_before(self.modules@, t, self.seen_ids()[t]),
                seen0.len() > 0 ==> forall|k: int|
                    #![trigger self.queued()[k]]
                    0 <= k < self.queued().len() ==> imported_before(
                        self.modules@,
                        self.modules@.len() as int,
                        self.queued()[k],
                    ),
                forall|i: int, j: int|
                    0 <= i < self.modules@.len() && 0 <= j < self.modules@[i].deps@.len() ==> {
                        ||| #[trigger] self.seen_ids().contains(self.modules@[i].deps@[j]@)
                        ||| self.queued().contains(self.modules@[i].deps@[j]@)
                    },
            decreases self.queue@.len(),
        {
            let ghost before = self.queued();
            match self.queue.pop_front() {
                None => {
                    assert(before.len() == 0);
                    return None;
                },
                Some(id) => {
                    assert(self.queued() =~= before.drop_first());
                    assert(q0.skip(popped + 1) =~= before.drop_first());
                    let found = contains_str(&self.seen, &id);
                    assert(found == seen0.contains(id@));
                    assert(seen0.len() > 0 ==> forall|k: int|
                        #![trigger self.queued()[k]]
                        0 <= k < self.queued().len() ==> imported_before(
                            self.modules@,
                            self.modules@.len() as int,
                            self.queued()[k],
                        )) by {
                        assert forall|k: int| 0 <= k < self.queued().len() implies #[trigger] self.queued()[k] == before[k + 1] by {}
                    }
                    if !found {
                        self.seen.push(id.clone());
                        self.pending = Some(id.clone());
                        assert(self.seen_ids() =~= seen0.push(id@));
                        assert(module_ids(self.scanned()).len() == self.modules@.len());
                        assert forall|t: int|
                            #![trigger self.seen_ids()[t]]
                            0 < t < self.seen_ids().len() implies imported_before(self.modules@, t, self.seen_ids()[t]) by {
                            if t < seen0.len() {
                                assert(self.seen_ids()[t] == seen0[t]);
                            } else {
                                assert(before[0] == id@);
                            }
                        }
                        assert(module_ids(self.scanned()) + opt_id(self.pending_id())
                            =~= seen0.push(id@));
                        assert(self.seen_ids().no_duplicates()) by {
                            assert forall|a: int, b: int|
                                0 <= a < self.seen_ids().len() && 0 <= b
                                    < self.seen_ids().len() && a != b implies self.seen_ids()[a]
                                != self.seen_ids()[b] by {
                                if a == seen0.len() as int {
                                    assert(self.seen_ids()[b] == seen0[b]);
                                    assert(seen0.contains(seen0[b]));
                                } else if b == seen0.len() as int {
                                    assert(self.seen_ids()[a] == seen0[a]);
                                    assert(seen0.contains(seen0[a]));
                                }
                            }
                        }
                        assert forall|i: int, j: int|
                            0 <= i < self.modules@.len() && 0 <= j
                                < self.modules@[i].deps@.len() implies {
                            ||| #[trigger] self.seen_ids().contains(self.modules@[i].deps@[j]@)
                            ||| self.queued().contains(self.modules@[i].deps@[j]@)
                        } by {
                            let d = self.modules@[i].deps@[j]@;
                            if seen0.contains(d) {
                                let t = choose|t: int| 0 <= t < seen0.len() && seen0[t] == d;
                                assert(self.seen_ids()[t] == d);
                            } else if before.contains(d) {
                                let t = choose|t: int| 0 <= t < before.len() && before[t] == d;
                                if t == 0 {
                                    assert(self.seen_ids()[seen0.len() as int] == d);
                                } else {
                                    assert(self.queued()[t - 1] == d);
                                }
                            }
                        }
                        return Some(id);
                    }
                    proof {
                        popped = popped + 1;
                        assert forall|i: int, j: int|
                            0 <= i < self.modules@.len() && 0 <= j
                                < self.modules@[i].deps@.len() implies {
                            ||| #[trigger] self.seen_ids().contains(self.modules@[i].deps@[j]@)
                            ||| self.queued().contains(self.modules@[i].deps@[j]@)
                        } by {
                            let d = self.modules@[i].deps@[j]@;
                            if !seen0.contains(d) && before.contains(d) {
                                let t = choose|t: int| 0 <= t < before.len() && before[t] == d;
                                assert(t != 0);
                                assert(self.queued()[t - 1] == d);
                            }
                        }
                    }
                },
            }
        }
    }

    /// Finishes the pending module with its code and, for each of its import
    /// specifiers in order, the id it resolved to (if any). The resolved ids
    /// become the module's deps and are queued. Without a pending module this
    /// does nothing.
    pub fn finish_module(&mut self, code: String, resolved: Vec<Option<String>>)
        requires
            old(self).wf(),
        ensures
            final(self).wf(),
            final(self).entry_id() == old(self).entry_id(),
            old(self).pending_id() is None ==> {
                &&& final(self).queued() == old(self).queued()
                &&& final(self).seen_ids() == old(self).seen_ids()
                &&& final(self).pending_id() is None
                &&& final(self).scanned() == old(self).scanned()
            },
            old(self).pending_id() is Some ==> {
                let m = final(self).scanned().last();
                &&& final(self).scanned().len() == old(self).scanned().len() + 1
                &&& final(self).scanned().drop_last() == old(self).scanned()
                &&& Some(m.id@) == old(self).pending_id()
                &&& m.code@ == code@
                &&& strs(m.deps@) == resolved_ids(resolved@)
                &&& final(self).queued() == old(self).queued() + resolved_ids(resolved@)
                &&& final(self).seen_ids() == old(self).seen_ids()
                &&& final(self).pending_id() is None
            },
    {
        let id = match self.pending.take() {
            Some(id) => id,
            None => return,
        };
        let ghost q0 = self.queued();
        let mut deps: Vec<String> = Vec::new();
        let mut i: usize = 0;
        while i < resolved.len()
            invariant
                i <= resolved.len(),
                self.seen == old(self).seen,
                self.modules == old(self).modules,
                self.entry == old(self).entry,
                self.pending is None,
                strs(deps@) == resolved_ids(resolved@.take(i as int)),
                self.queued() == q0 + strs(deps@),
            decreases resolved.len() - i,
        {
            assert(resolved@.take(i + 1).drop_last() =~= resolved@.take(i as int));
            assert(resolved@.take(i + 1).last() == resolved@[i as int]);
            let ghost d0 = strs(deps@);
            let ghost qb = self.queued();
            match &resolved[i] {
                Some(dep) => {
                    let d1 = dep.clone();
                    let d2 = dep.clone();
                    deps.push(d1);
                    self.queue.push_back(d2);
                    assert(strs(deps@) =~= d0.push(dep@));
                    assert(self.queued() =~= qb.push(dep@));
                    assert(self.queued() =~= q0 + strs(deps@));
                },
                None => {},
            }
            i += 1;
            assert(strs(deps@) =~= resolved_ids(resolved@.take(i as int)));
        }
        assert(resolved@.take(resolved.len() as int) =~= resolved@);
        let ghost old_mods = self.modules@;
        self.modules.push(Module { id, code, deps });
        assert(self.modules@.drop_last() =~= old_mods);
        assert(module_ids(self.scanned()) =~= module_ids(old_mods).push(id@));
        assert(self.seen_ids() =~= module_ids(self.scanned()) + opt_id(self.pending_id()));
        assert forall|a: int, b: int|
            0 <= a < self.modules@.len() && 0 <= b < self.modules@[a].deps@.len() implies {
            ||| #[trigger] self.seen_ids().contains(self.modules@[a].deps@[b]@)
            ||| self.queued().contains(self.modules@[a].deps@[b]@)
        } by {
            let d = self.modules@[a].deps@[b]@;
            if a < old_mods.len() {
                assert(self.modules@[a] == old_mods[a]);
                if q0.contains(d) {
                    let t = choose|t: int| 0 <= t < q0.len() && q0[t] == d;
                    assert(self.queued()[t] == d);
                }
            } else {
                assert(self.queued()[q0.len() + b] == d);
            }
        }
        assert forall|t: int|
            #![trigger self.seen_ids()[t]]
            0 < t < self.seen_ids().len() implies imported_before(self.modules@, t, self.seen_ids()[t]) by {
            let x = self.seen_ids()[t];
            assert(imported_before(old_mods, t, x));
            let (i, j) = choose|i: int, j: int|
                0 <= i < t && i < old_mods.len() && 0 <= j < old_mods[i].deps@.len() && #[trigger] old_mods[i].deps@[j]@ == x;
            assert(self.modules@[i] == old_mods[i]);
            assert(self.modules@[i].deps@[j]@ == x);
        }
        assert forall|k: int|
            #![trigger self.queued()[k]]
            0 <= k < self.queued().len() implies imported_before(
                self.modules@,
                self.modules@.len() as int,
                self.queued()[k],
            ) by {
            let x = self.queued()[k];
            if k < q0.len() {
                assert(x == q0[k]);
                assert(imported_before(old_mods, old_mods.len() as int, x));
                let (i, j) = choose|i: int, j: int|
                    0 <= i < old_mods.len() && i < old_mods.len() && 0 <= j < old_mods[i].deps@.len() && #[trigger] old_mods[i].deps@[j]@ == x;
                assert(self.modules@[i] == old_mods[i]);
                assert(self.modules@[i].deps@[j]@ == x);
            } else {
                let last = old_mods.len() as int;
                assert(self.modules@[last].deps@[k - q0.len()]@ == x);
            }
        }
    }

    /// The modules scanned so far, in scan order.
    pub fn into_graph(self) -> (g: ModuleGraph)
        ensures
            g.modules@ == self.scanned(),
    {
        ModuleGraph { modules: self.modules }
    }
}

/// When the scan has ended (nothing pending, nothing queued), the graph is
/// closed: every import of every scanned module is itself a scanned module,
/// no module was scanned twice, the entry was scanned first, and every other
/// module is an import of a module scanned before it.
pub proof fn lemma_scan_closed(st: ScanState)
    requires
        st.wf(),
        st.queued().len() == 0,
        st.pending_id() is None,
    ensures
        st.scanned().len() > 0,
        st.scanned()[0].id@ == st.entry_id(),
        module_ids(st.scanned()).no_duplicates(),
        forall|i: int, j: int|
            0 <= i < st.scanned().len() && 0 <= j < st.scanned()[i].deps@.len() ==> module_ids(
                st.scanned(),
            ).contains(#[trigger] st.scanned()[i].deps@[j]@),
        forall|t: int| 0 < t < st.scanned().len() ==> imported_before(st.scanned(), t, #[trigger] st.scanned()[t].id@),
{
    assert(st.seen_ids() =~= module_ids(st.scanned()));
    assert(st.seen_ids()[0] == module_ids(st.scanned())[0]);
    assert forall|t: int| 0 < t < st.scanned().len() implies imported_before(
        st.scanned(),
        t,
        #[trigger] st.scanned()[t].id@,
    ) by {
        assert(st.seen_ids()[t] == st.scanned()[t].id@);
    }
}

/// Whether `ids` holds the import of every module of `ms` whose id it holds.
pub open spec fn closed_under_imports(ms: Seq<Module>, ids: Set<Seq<char>>) -> bool {
    forall|i: int, j: int|
        0 <= i < ms.len() && 0 <= j < ms[i].deps@.len() && ids.contains(ms[i].id@) ==> ids.contains(
            #[trigger] ms[i].deps@[j]@,
        )
}

/// A finished scan holds no module more than it must: every set of ids that
/// holds the entry and the imports of each of its scanned modules holds every
/// scanned module. With `lemma_scan_closed`, the scanned ids are the least
/// set that holds the entry and is closed under resolved imports.
pub proof fn lemma_scan_least(st: ScanState, ids: Set<Seq<char>>)
    requires
        st.wf(),
        st.queued().len() == 0,
        st.pending_id() is None,
        ids.contains(st.entry_id()),
        closed_under_imports(st.scanned(), ids),
    ensures
        forall|t: int| 0 <= t < st.scanned().len() ==> ids.contains(#[trigger] st.scanned()[t].id@),
{
    lemma_scan_closed(st);
    assert forall|t: int| 0 <= t < st.scanned().len() implies ids.contains(
        #[trigger] st.scanned()[t].id@,
    ) by {
        lemma_scanned_in(st.scanned(), st.entry_id(), ids, t);
    }
}

/// Induction on the scan position for `lemma_scan_least`.
proof fn lemma_scanned_in(ms: Seq<Module>, entry: Seq<char>, ids: Set<Seq<char>>, t: int)
    requires
        0 <= t < ms.len(),
        ms[0].id@ == entry,
        ids.contains(entry),
        closed_under_imports(ms, ids),
        forall|u: int| 0 < u < ms.len() ==> imported_before(ms, u, #[trigger] ms[u].id@),
    ensures
        ids.contains(ms[t].id@),
    decreases t,
{
    if t > 0 {
        assert(imported_before(ms, t, ms[t].id@));
        let (i, j) = choose|i: int, j: int|
            0 <= i < t && i < ms.len() && 0 <= j < ms[i].deps@.len() && #[trigger] ms[i].deps@[j]@ == ms[t].id@;
        lemma_scanned_in(ms, entry, ids, i);
        assert(ids.contains(ms[i].deps@[j]@));
    }
}


/// The text emitted for one module: a header line naming it, its code without
/// trailing white space, and a blank line.
pub open spec fn module_chunk(m: Module) -> Seq<char> {
    "// === "@ + m.id@ + " ===\n"@ + trim_end(m.code@) + "\n\n"@
}

/// The bundle text: the chunks of the modules, in order.
pub open spec fn bundle_code(ms: Seq<Module>) -> Seq<char>
    decreases ms.len(),
{
    if ms.len() == 0 {
        seq![]
    } else {
        bundle_code(ms.drop_last()) + module_chunk(ms.last())
    }
}

/// Whether module `a` imports the id of module `b`.
pub open spec fn imports(a: Module, b: Module) -> bool {
    strs(a.deps@).contains(b.id@)
}

/// Whether `r[k]` imports none of the other modules of `r`.
pub open spec fn is_ready(r: Seq<Module>, k: int) -> bool {
    forall|j: int| 0 <= j < r.len() && j != k ==> !imports(r[k], #[trigger] r[j])
}

/// Scanning down from `k` to 1, the first index whose module is ready; the
/// last index of `r` where there is none. Index 0 is never picked while
/// other modules wait.
pub open spec fn last_ready(r: Seq<Module>, k: int) -> int
    decreases k,
{
    if k < 1 {
        r.len() - 1
    } else if is_ready(r, k) {
        k
    } else {
        last_ready(r, k - 1)
    }
}

/// The index of the module that linking takes next from the waiting `r`: the
/// last ready one apart from the first, else (on an import cycle) the last.
pub open spec fn link_pick(r: Seq<Module>) -> int {
    last_ready(r, r.len() - 1)
}

/// The link order of `r`: the picked module, then the link order of the others.
pub open spec fn link_order(r: Seq<Module>) -> Seq<Module>
    decreases r.len(),
{
    if r.len() == 0 {
        seq![]
    } else {
        let k = link_pick(r);
        proof {
            lemma_last_ready_range(r, r.len() - 1);
        }
        seq![r[k]] + link_order(r.remove(k))
    }
}

/// Every module comes after the other modules that it imports.
pub open spec fn deps_first(s: Seq<Module>) -> bool {
    forall|i: int, j: int|
        0 <= i < s.len() && 0 <= j < s.len() && i != j && #[trigger] imports(s[i], s[j]) ==> j < i
}

/// `rank` orders the imports of `r`: a module that imports another module of
/// `r` has a different id, ranked strictly higher. Such a ranking exists
/// exactly when the imports among the modules of `r` form no cycle.
pub open spec fn ranked(r: Seq<Module>, rank: spec_fn(Seq<char>) -> nat) -> bool {
    forall|i: int, j: int|
        0 <= i < r.len() && 0 <= j < r.len() && #[trigger] imports(r[i], r[j]) ==> r[j].id@
            != r[i].id@ && rank(r[j].id@) < rank(r[i].id@)
}

/// `last_ready` gives an index of `r`, and not 0 while `r` holds more than one
/// module.
pub proof fn lemma_last_ready_range(r: Seq<Module>, k: int)
    requires
        r.len() > 0,
        k <= r.len() - 1,
    ensures
        0 <= last_ready(r, k) < r.len(),
        r.len() > 1 ==> last_ready(r, k) >= 1,
    decreases k,
{
    if k >= 1 && !is_ready(r, k) {
        lemma_last_ready_range(r, k - 1);
    }
}

/// Where a ready index `m` (not 0) lies at or below `k`, `last_ready` finds a
/// ready index between them.
proof fn lemma_last_ready_finds(r: Seq<Module>, k: int, m: int)
    requires
        1 <= m <= k < r.len(),
        is_ready(r, m),
    ensures
        m <= last_ready(r, k) <= k,
        is_ready(r, last_ready(r, k)),
    decreases k - m,
{
    if !is_ready(r, k) {
        lemma_last_ready_finds(r, k - 1, m);
    }
}

/// An index of `r` whose id has the least rank.
proof fn lemma_least_rank(r: Seq<Module>, rank: spec_fn(Seq<char>) -> nat) -> (k: int)
    requires
        r.len() > 0,
    ensures
        0 <= k < r.len(),
        forall|j: int| 0 <= j < r.len() ==> rank(r[k].id@) <= rank(#[trigger] r[j].id@),
    decreases r.len(),
{
    if r.len() == 1 {
        0
    } else {
        let k0 = lemma_least_rank(r.drop_last(), rank);
        let last = r.len() - 1;
        if rank(r[last].id@) < rank(r[k0].id@) {
            assert forall|j: int| 0 <= j < r.len() implies rank(r[last].id@) <= rank(
                #[trigger] r[j].id@,
            ) by {
                if j < last {
                    assert(r.drop_last()[j] == r[j]);
                }
            }
            last
        } else {
            assert forall|j: int| 0 <= j < r.len() implies rank(r[k0].id@) <= rank(
                #[trigger] r[j].id@,
            ) by {
                if j < last {
                    assert(r.drop_last()[j] == r[j]);
                }
            }
            assert(r.drop_last()[k0] == r[k0]);
            k0
        }
    }
}

/// Taking a module out keeps a ranking.
proof fn lemma_ranked_remove(r: Seq<Module>, rank: spec_fn(Seq<char>) -> nat, k: int)
    requires
        ranked(r, rank),
        0 <= k < r.len(),
    ensures
        ranked(r.remove(k), rank),
{
    let r2 = r.remove(k);
    assert forall|i: int, j: int|
        0 <= i < r2.len() && 0 <= j < r2.len() && #[trigger] imports(
            r2[i],
            r2[j],
        ) implies r2[j].id@ != r2[i].id@ && rank(r2[j].id@) < rank(r2[i].id@) by {
        let i0 = if i < k { i } else { i + 1 };
        let j0 = if j < k { j } else { j + 1 };
        assert(r2[i] == r[i0]);
        assert(r2[j] == r[j0]);
        assert(imports(r[i0], r[j0]));
    }
}

/// Linking reorders the modules: it drops none and adds none.
pub proof fn lemma_link_permutes(r: Seq<Module>)
    ensures
        link_order(r).to_multiset() == r.to_multiset(),
    decreases r.len(),
{
    broadcast use vstd::seq_lib::group_to_multiset_ensures;

    if r.len() > 0 {
        let k = link_pick(r);
        lemma_last_ready_range(r, r.len() - 1);
        let r2 = r.remove(k);
        lemma_link_permutes(r2);
        let l2 = link_order(r2);
        assert(seq![r[k]] + l2 =~= l2.insert(0, r[k]));
        assert(link_order(r) == l2.insert(0, r[k]));
        assert(r.to_multiset().count(r[k]) > 0) by {
            assert(r.contains(r[k]));
        }
        assert(r.to_multiset().remove(r[k]).insert(r[k]) =~= r.to_multiset());
    } else {
        assert(link_order(r) =~= r);
    }
}

/// Linking ends with the first module, the entry of a scan, whatever the
/// imports are.
pub proof fn lemma_link_entry_last(r: Seq<Module>)
    requires
        r.len() > 0,
    ensures
        link_order(r).len() == r.len(),
        link_order(r).last() == r[0],
    decreases r.len(),
{
    let k = link_pick(r);
    lemma_last_ready_range(r, r.len() - 1);
    let r2 = r.remove(k);
    if r.len() == 1 {
        assert(k == 0);
        assert(link_order(r2) =~= Seq::<Module>::empty());
        assert(link_order(r) =~= seq![r[0]]);
    } else {
        lemma_link_entry_last(r2);
        assert(r2[0] == r[0]);
        let l = link_order(r);
        assert(l == seq![r[k]] + link_order(r2));
        assert(l.last() == link_order(r2).last());
    }
}

/// A module other than the first of a scan ranks below the first: it was
/// imported, directly or through other modules, by the first.
proof fn lemma_rank_below_first(r: Seq<Module>, rank: spec_fn(Seq<char>) -> nat, t: int)
    requires
        ranked(r, rank),
        forall|u: int| 0 < u < r.len() ==> imported_before(r, u, #[trigger] r[u].id@),
        0 < t < r.len(),
    ensures
        rank(r[t].id@) < rank(r[0].id@),
    decreases t,
{
    assert(imported_before(r, t, r[t].id@));
    let (i, j) = choose|i: int, j: int|
        0 <= i < t && i < r.len() && 0 <= j < r[i].deps@.len() && #[trigger] r[i].deps@[j]@ == r[t].id@;
    assert(strs(r[i].deps@)[j] == r[t].id@);
    assert(imports(r[i], r[t]));
    if i > 0 {
        lemma_rank_below_first(r, rank, i);
    }
}

/// Induction for `lemma_link_deps_first`, on modules none of which imports
/// the first.
proof fn lemma_link_deps_first_from(r: Seq<Module>, rank: spec_fn(Seq<char>) -> nat)
    requires
        ranked(r, rank),
        forall|i: int| 0 <= i < r.len() ==> !imports(#[trigger] r[i], r[0]),
    ensures
        deps_first(link_order(r)),
    decreases r.len(),
{
    broadcast use vstd::seq_lib::group_to_multiset_ensures;

    if r.len() == 1 {
        lemma_link_entry_last(r);
    } else if r.len() > 1 {
        let rest = r.drop_first();
        let k1 = lemma_least_rank(rest, rank);
        let m = k1 + 1;
        assert(rest[k1] == r[m]);
        assert(is_ready(r, m)) by {
            assert forall|j: int| 0 <= j < r.len() && j != m implies !imports(
                r[m],
                #[trigger] r[j],
            ) by {
                if imports(r[m], r[j]) && j > 0 {
                    assert(rest[j - 1] == r[j]);
                    assert(rank(r[j].id@) < rank(r[m].id@));
                }
            }
        }
        lemma_last_ready_finds(r, r.len() - 1, m);
        let k = link_pick(r);
        let r2 = r.remove(k);
        lemma_ranked_remove(r, rank, k);
        assert(r2[0] == r[0]);
        assert forall|i: int| 0 <= i < r2.len() implies !imports(#[trigger] r2[i], r2[0]) by {
            let i0 = if i < k { i } else { i + 1 };
            assert(r2[i] == r[i0]);
        }
        lemma_link_deps_first_from(r2, rank);
        lemma_link_permutes(r2);
        let l2 = link_order(r2);
        let l = link_order(r);
        assert(l == seq![r[k]] + l2);
        assert forall|i: int, j: int|
            0 <= i < l.len() && 0 <= j < l.len() && i != j && #[trigger] imports(
                l[i],
                l[j],
            ) implies j < i by {
            if i == 0 {
                assert(l[i] == r[k]);
                assert(l2.contains(l[j])) by {
                    assert(l2[j - 1] == l[j]);
                }
                assert(l2.to_multiset().count(l[j]) > 0);
                assert(r2.to_multiset().count(l[j]) > 0);
                assert(r2.contains(l[j]));
                let t = choose|t: int| 0 <= t < r2.len() && r2[t] == l[j];
                let t0 = if t < k { t } else { t + 1 };
                assert(r2[t] == r[t0]);
                assert(!imports(r[k], r[t0]));
            } else if j > 0 {
                assert(l[i] == l2[i - 1]);
                assert(l[j] == l2[j - 1]);
                assert(imports(l2[i - 1], l2[j - 1]));
            }
        }
    }
}

/// On the modules of a scan (each but the first imported by one scanned
/// before it, as `lemma_scan_closed` gives) whose imports form no cycle (a
/// ranking exists), linking puts every module after all the modules it
/// imports.
pub proof fn lemma_link_deps_first(r: Seq<Module>, rank: spec_fn(Seq<char>) -> nat)
    requires
        ranked(r, rank),
        forall|t: int| 0 < t < r.len() ==> imported_before(r, t, #[trigger] r[t].id@),
    ensures
        deps_first(link_order(r)),
{
    assert forall|i: int| 0 <= i < r.len() implies !imports(#[trigger] r[i], r[0]) by {
        if imports(r[i], r[0]) && i > 0 {
            lemma_rank_below_first(r, rank, i);
        }
    }
    lemma_link_deps_first_from(r, rank);
}

/// Whether `r[k]` imports none of the other modules of `r`.
fn module_ready(r: &Vec<Module>, k: usize) -> (b: bool)
    requires
        k < r.len(),
    ensures
        b == is_ready(r@, k as int),
{
    let mut j: usize = 0;
    while j < r.len()
        invariant
            k < r.len(),
            j <= r.len(),
            forall|t: int| 0 <= t < j && t != k ==> !imports(r@[k as int], #[trigger] r@[t]),
        decreases r.len() - j,
    {
        if j != k && contains_str(&r[k].deps, &r[j].id) {
            assert(imports(r@[k as int], r@[j as int]));
            return false;
        }
        j += 1;
    }
    true
}

/// The index `link_pick(r)`.
fn pick_index(r: &Vec<Module>) -> (k: usize)
    requires
        r.len() > 0,
    ensures
        k == link_pick(r@),
{
    let mut i: usize = r.len() - 1;
    while i >= 1
        invariant
            i <= r.len() - 1,
            link_pick(r@) == last_ready(r@, i as int),
        decreases i,
    {
        if module_ready(r, i) {
            return i;
        }
        i -= 1;
    }
    r.len() - 1
}

/// The bundle of a sequence of modules is the bundle of a first part followed
/// by the bundle of the rest; a single module's part is its header line, its
/// code without trailing white space and a blank line.
pub proof fn lemma_bundle_code(a: Seq<Module>, b: Seq<Module>, m: Module)
    ensures
        bundle_code(a + b) == bundle_code(a) + bundle_code(b),
        bundle_code(seq![m]) == "// === "@ + m.id@ + " ===\n"@ + trim_end(m.code@) + "\n\n"@,
    decreases b.len(),
{
    if b.len() == 0 {
        assert(a + b =~= a);
        assert(bundle_code(a) + bundle_code(b) =~= bundle_code(a));
    } else {
        lemma_bundle_code(a, b.drop_last(), m);
        assert((a + b).drop_last() =~= a + b.drop_last());
        assert((a + b).last() == b.last());
    }
    assert(seq![m].drop_last() =~= Seq::<Module>::empty());
    assert(seq![m].last() == m);
    assert(bundle_code(Seq::<Module>::empty()) == Seq::<char>::empty());
    assert(Seq::<char>::empty() + module_chunk(m) =~= module_chunk(m));
}

/// A bundler for one entry, with the plugins that its caller runs during scans.
pub struct Bundler<P> {
    options: BundlerOptions,
    plugins: Vec<P>,
}

impl<P> Bundler<P> {
    /// The options the bundler was made with.
    pub closed spec fn spec_options(&self) -> BundlerOptions {
        self.options
    }

    /// The plugins the bundler was made with.
    pub closed spec fn spec_plugins(&self) -> Seq<P> {
        self.plugins@
    }

    /// A bundler without plugins.
    pub fn new(options: BundlerOptions) -> (b: Self)
        ensures
            b.spec_options() == options,
            b.spec_plugins() == Seq::<P>::empty(),
    {
        Bundler { options, plugins: Vec::new() }
    }

    /// A bundler with the given plugins, run in the given order.
    pub fn with_plugins(options: BundlerOptions, plugins: Vec<P>) -> (b: Self)
        ensures
            b.spec_options() == options,
            b.spec_plugins() == plugins@,
    {
        Bundler { options, plugins }
    }

    /// The bundler's options.
    pub fn options(&self) -> (r: &BundlerOptions)
        ensures
            *r == self.spec_options(),
    {
        &self.options
    }

    /// The bundler's plugins, in order.
    pub fn plugins(&self) -> (r: &Vec<P>)
        ensures
            r@ == self.spec_plugins(),
    {
        &self.plugins
    }

    /// Execution order: dependencies first, the entry last. Modules are taken
    /// one at a time: each time the last waiting module, apart from the first,
    /// that imports no other waiting module; when there is none (an import
    /// cycle), the last waiting module. The first module is taken only when it
    /// is the last one left.
    pub fn link(&self, graph: ModuleGraph) -> (g: ModuleGraph)
        ensures
            g.modules@ == link_order(graph.modules@),
            g.modules@.to_multiset() == graph.modules@.to_multiset(),
            graph.modules@.len() > 0 ==> g.modules@.last() == graph.modules@[0],
    {
        let ghost orig = graph.modules@;
        let mut rest = graph.modules;
        let mut out: Vec<Module> = Vec::new();
        assert(out@ + link_order(rest@) =~= link_order(orig));
        while rest.len() > 0
            invariant
                out@ + link_order(rest@) == link_order(orig),
            decreases rest.len(),
        {
            let ghost r0 = rest@;
            let ghost o0 = out@;
            let k = pick_index(&rest);
            proof {
                lemma_last_ready_range(r0, r0.len() - 1);
            }
            let m = rest.remove(k);
            out.push(m);
            assert(rest@ == r0.remove(k as int));
            assert(link_order(r0) == seq![r0[k as int]] + link_order(r0.remove(k as int)));
            assert(out@ + link_order(rest@) =~= o0 + link_order(r0));
        }
        assert(out@ =~= out@ + link_order(rest@));
        proof {
            lemma_link_permutes(orig);
            if orig.len() > 0 {
                lemma_link_entry_last(orig);
            }
        }
        ModuleGraph { modules: out }
    }

    /// Concatenates the module chunks into the bundle and lists the module ids
    /// in the same order.
    pub fn generate(&self, graph: ModuleGraph) -> (o: Output)
        ensures
            o.code@ == bundle_code(graph.modules@),
            strs(o.modules@) == module_ids(graph.modules@),
    {
        let ms = &graph.modules;
        let mut code = String::new();
        let mut ids: Vec<String> = Vec::new();
        let mut i: usize = 0;
        while i < ms.len()
            invariant
                i <= ms.len(),
                code@ == bundle_code(ms@.take(i as int)),
                strs(ids@) == module_ids(ms@.take(i as int)),
            decreases ms.len() - i,
        {
            let m = &ms[i];
            let ghost ids0 = strs(ids@);
            let trimmed = string_from_chars(&trim_end_chars(&chars_of(m.code.as_str())));
            code.append("// === ");
            code.append(m.id.as_str());
            code.append(" ===\n");
            code.append(trimmed.as_str());
            code.append("\n\n");
            ids.push(m.id.clone());
            assert(ms@.take(i + 1).drop_last() =~= ms@.take(i as int));
            assert(ms@.take(i + 1).last() == ms@[i as int]);
            assert(code@ =~= bundle_code(ms@.take(i + 1)));
            assert(strs(ids@) =~= ids0.push(m.id@));
            assert(module_ids(ms@.take(i + 1)) =~= module_ids(ms@.take(i as int)).push(m.id@));
            i += 1;
        }
        assert(ms@.take(ms.len() as int) =~= ms@);
        Output { code, modules: ids }
    }
}

} // verus!
