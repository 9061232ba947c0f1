//! The decisions of the event executor: which handler notifications an event
//! batch produces, what is aggregated, when the aggregate timer is armed and
//! what the aggregate handler receives.

use vstd::prelude::*;
use crate::events::{EventAggregateHandler, EventHandler, FsEvent, FsEventKind};
use crate::paths::str_set;
use crate::text::{contains_str, strs};

verus! {

/// Aggregate timeout used when none is configured, in milliseconds.
pub const DEFAULT_AGGREGATE_TIMEOUT: u32 = 50;

/// Without a configured timeout, the aggregate timer waits 50 ms.
pub proof fn lemma_default_timeout()
    ensures
        DEFAULT_AGGREGATE_TIMEOUT == 50,
{
}

/// A notification for the immediate handler.
#[derive(Debug, Clone, PartialEq, Eq)]
pub enum Notice {
    Change(String),
    Delete(String),
}

/// The view of a notice: whether it is a deletion, and its path.
pub open spec fn notice_view(n: Notice) -> (bool, Seq<char>) {
    match n {
        Notice::Change(p) => (false, p@),
        Notice::Delete(p) => (true, p@),
    }
}

/// The notices for a batch: a change for each `Change` or `Create` event, a
/// deletion for each `Remove` event, in order.
pub open spec fn batch_notices(batch: Seq<FsEvent>) -> Seq<(bool, Seq<char>)> {
    batch.map_values(|e: FsEvent| (e.kind == FsEventKind::Remove, e.path@))
}

/// The paths of the events of `batch` whose removal flag is `deleted`.
pub open spec fn batch_paths(batch: Seq<FsEvent>, deleted: bool) -> Set<Seq<char>> {
    Set::new(|p: Seq<char>| exists|i: int| 0 <= i < batch.len() && (batch[i].kind == FsEventKind::Remove) == deleted && batch[i].path@ == p)
}

/// One notice per event, in order: a deletion for a `Remove`, a change for a
/// `Create` or a `Change`, each with the event's path; and a path is
/// collected as changed (deleted) exactly when some event of the batch other
/// than a removal (a removal) has it.
pub proof fn lemma_batch_notices(batch: Seq<FsEvent>)
    ensures
        batch_notices(batch).len() == batch.len(),
        forall|i: int|
            0 <= i < batch.len() ==> {
                &&& (#[trigger] batch_notices(batch)[i]).1 == batch[i].path@
                &&& (batch[i].kind == FsEventKind::Remove ==> batch_notices(batch)[i].0)
                &&& (batch[i].kind == FsEventKind::Create ==> !batch_notices(batch)[i].0)
                &&& (batch[i].kind == FsEventKind::Change ==> !batch_notices(batch)[i].0)
            },
        forall|p: Seq<char>|
            #[trigger] batch_paths(batch, false).contains(p) <==> exists|i: int|
                0 <= i < batch.len() && batch[i].kind != FsEventKind::Remove && batch[i].path@ == p,
        forall|p: Seq<char>|
            #[trigger] batch_paths(batch, true).contains(p) <==> exists|i: int|
                0 <= i < batch.len() && batch[i].kind == FsEventKind::Remove && batch[i].path@ == p,
{
}

/// Taking two batches in turn notifies and collects as taking them as one:
/// the notices follow each other and the collected paths unite.
pub proof fn lemma_batches_compose(b1: Seq<FsEvent>, b2: Seq<FsEvent>)
    ensures
        batch_notices(b1 + b2) == batch_notices(b1) + batch_notices(b2),
        batch_paths(b1 + b2, false) == batch_paths(b1, false).union(batch_paths(b2, false)),
        batch_paths(b1 + b2, true) == batch_paths(b1, true).union(batch_paths(b2, true)),
{
    assert(batch_notices(b1 + b2) =~= batch_notices(b1) + batch_notices(b2));
    let b = b1 + b2;
    assert forall|d: bool| #[trigger] batch_paths(b, d) =~= batch_paths(b1, d).union(batch_paths(b2, d)) by {
        assert forall|p: Seq<char>| batch_paths(b, d).contains(p) implies batch_paths(b1, d).union(batch_paths(b2, d)).contains(p) by {
            let i = choose|i: int| 0 <= i < b.len() && (b[i].kind == FsEventKind::Remove) == d && b[i].path@ == p;
            if i < b1.len() {
                assert(b1[i] == b[i]);
            } else {
                assert(b2[i - b1.len()] == b[i]);
            }
        }
        assert forall|p: Seq<char>| batch_paths(b1, d).union(batch_paths(b2, d)).contains(p) implies batch_paths(b, d).contains(p) by {
            if batch_paths(b1, d).contains(p) {
                let i = choose|i: int| 0 <= i < b1.len() && (b1[i].kind == FsEventKind::Remove) == d && b1[i].path@ == p;
                assert(b[i] == b1[i]);
            } else {
                let i = choose|i: int| 0 <= i < b2.len() && (b2[i].kind == FsEventKind::Remove) == d && b2[i].path@ == p;
                assert(b[i + b1.len()] == b2[i]);
            }
        }
    }
    assert(batch_paths(b, false) =~= batch_paths(b1, false).union(batch_paths(b2, false)));
    assert(batch_paths(b, true) =~= batch_paths(b1, true).union(batch_paths(b2, true)));
}

/// Changed and deleted paths collected since the last aggregate.
#[derive(Debug)]
pub struct FilesData {
    changed: Vec<String>,
    deleted: Vec<String>,
}

impl FilesData {
    /// The changed paths.
    pub closed spec fn changed_set(&self) -> Set<Seq<char>> {
        str_set(self.changed@)
    }

    /// The deleted paths.
    pub closed spec fn deleted_set(&self) -> Set<Seq<char>> {
        str_set(self.deleted@)
    }

    /// Each path is held at most once per list.
    pub closed spec fn wf(&self) -> bool {
        strs(self.changed@).no_duplicates() && strs(self.deleted@).no_duplicates()
    }

    /// Nothing collected.
    pub fn new() -> (r: Self)
        ensures
            r.wf(),
            r.changed_set().is_empty(),
            r.deleted_set().is_empty(),
    {
        let r = FilesData { changed: Vec::new(), deleted: Vec::new() };
        assert(r.changed_set() =~= Set::<Seq<char>>::empty());
        assert(r.deleted_set() =~= Set::<Seq<char>>::empty());
        r
    }

    /// Whether nothing has been collected.
    pub fn is_empty(&self) -> (r: bool)
        requires
            self.wf(),
        ensures
            r == (self.changed_set().is_empty() && self.deleted_set().is_empty()),
    {
        let r = self.changed.len() == 0 && self.deleted.len() == 0;
        proof {
            if self.changed.len() > 0 {
                assert(strs(self.changed@)[0] == self.changed@[0]@);
                assert(strs(self.changed@).contains(self.changed@[0]@));
                assert(self.changed_set().contains(self.changed@[0]@));
            }
            if self.deleted.len() > 0 {
                assert(strs(self.deleted@)[0] == self.deleted@[0]@);
                assert(strs(self.deleted@).contains(self.deleted@[0]@));
                assert(self.deleted_set().contains(self.deleted@[0]@));
            }
            if self.changed.len() == 0 {
                assert(self.changed_set() =~= Set::<Seq<char>>::empty());
            }
            if self.deleted.len() == 0 {
                assert(self.deleted_set() =~= Set::<Seq<char>>::empty());
            }
        }
        r
    }
}

/// Adds `s` to `v` unless it is there already.
fn insert_path(v: &mut Vec<String>, s: String)
    requires
        strs(old(v)@).no_duplicates(),
    ensures
        strs(final(v)@).no_duplicates(),
        str_set(final(v)@) == str_set(old(v)@).insert(s@),
{
    if contains_str(v, &s) {
        assert(str_set(v@) =~= str_set(old(v)@).insert(s@));
        return;
    }
    let ghost before = strs(v@);
    v.push(s);
    assert(strs(v@) =~= before.push(s@));
    assert(str_set(v@) =~= str_set(old(v)@).insert(s@)) by {
        assert forall|x: Seq<char>| str_set(v@).contains(x) implies str_set(old(v)@).insert(s@).contains(x) by {
            let j = choose|j: int| 0 <= j < strs(v@).len() && strs(v@)[j] == x;
            if j < before.len() {
                assert(before[j] == x);
            }
        }
        assert forall|x: Seq<char>| str_set(old(v)@).insert(s@).contains(x) implies str_set(v@).contains(x) by {
            if x == s@ {
                assert(strs(v@)[before.len() as int] == x);
            } else {
                let j = choose|j: int| 0 <= j < before.len() && before[j] == x;
                assert(strs(v@)[j] == x);
            }
        }
    }
}

/// The executor's state: the aggregate timeout, what has been collected and
/// whether the watcher is paused.
pub struct ExecutorState {
    aggregate_timeout: u32,
    files_data: FilesData,
    paused: bool,
}

impl ExecutorState {
    /// The aggregate timeout in milliseconds.
    pub closed spec fn spec_timeout(&self) -> u32 {
        self.aggregate_timeout
    }

    /// The changed paths collected since the last aggregate.
    pub closed spec fn changed_set(&self) -> Set<Seq<char>> {
        self.files_data.changed_set()
    }

    /// The deleted paths collected since the last aggregate.
    pub closed spec fn deleted_set(&self) -> Set<Seq<char>> {
        self.files_data.deleted_set()
    }

    /// Whether the watcher is paused.
    pub closed spec fn spec_paused(&self) -> bool {
        self.paused
    }

    /// The collected lists repeat nothing.
    pub closed spec fn wf(&self) -> bool {
        self.files_data.wf()
    }

    /// A running executor with nothing collected; the timeout defaults to 50 ms.
    pub fn new(aggregate_timeout: Option<u32>) -> (r: Self)
        ensures
            r.wf(),
            r.spec_timeout() == (match aggregate_timeout {
                Some(t) => t,
                None => DEFAULT_AGGREGATE_TIMEOUT,
            }),
            r.changed_set().is_empty(),
            r.deleted_set().is_empty(),
            !r.spec_paused(),
    {
        let t = match aggregate_timeout {
            Some(t) => t,
            None => DEFAULT_AGGREGATE_TIMEOUT,
        };
        ExecutorState { aggregate_timeout: t, files_data: FilesData::new(), paused: false }
    }

    /// The aggregate timeout in milliseconds.
    pub fn aggregate_timeout(&self) -> (r: u32)
        ensures
            r == self.spec_timeout(),
    {
        self.aggregate_timeout
    }

    /// Pauses the watcher: later batches no longer arm the aggregate timer.
    pub fn pause(&mut self)
        requires
            old(self).wf(),
        ensures
            final(self).wf(),
            final(self).spec_paused(),
            final(self).spec_timeout() == old(self).spec_timeout(),
            final(self).changed_set() == old(self).changed_set(),
            final(self).deleted_set() == old(self).deleted_set(),
    {
        self.paused = true;
    }

    /// Takes in a batch of events: returns the notices for the immediate
    /// handler, in order, and whether to (re)arm the aggregate timer, which is
    /// when the watcher is not paused. The batch's paths are collected.
    pub fn on_batch(&mut self, batch: &Vec<FsEvent>) -> (r: (Vec<Notice>, bool))
        requires
            old(self).wf(),
        ensures
            final(self).wf(),
            batch_taken(*old(self), *final(self), batch@, r.1),
            r.0@.map_values(|n: Notice| notice_view(n)) == batch_notices(batch@),
            r.1 == !old(self).spec_paused(),
            final(self).changed_set() == old(self).changed_set().union(batch_paths(batch@, false)),
            final(self).deleted_set() == old(self).deleted_set().union(batch_paths(batch@, true)),
            final(self).spec_paused() == old(self).spec_paused(),
            final(self).spec_timeout() == old(self).spec_timeout(),
    {
        let ghost c0 = self.changed_set();
        let ghost d0 = self.deleted_set();
        let mut notices: Vec<Notice> = Vec::new();
        let mut i: usize = 0;
        assert(batch_paths(batch@.take(0), false) =~= Set::<Seq<char>>::empty());
        assert(batch_paths(batch@.take(0), true) =~= Set::<Seq<char>>::empty());
        assert(c0.union(Set::<Seq<char>>::empty()) =~= c0);
        assert(d0.union(Set::<Seq<char>>::empty()) =~= d0);
        while i < batch.len()
            invariant
                i <= batch.len(),
                self.wf(),
                self.paused == old(self).paused,
                self.aggregate_timeout == old(self).aggregate_timeout,
                notices@.map_values(|n: Notice| notice_view(n)) == batch_notices(batch@.take(i as int)),
                self.changed_set() == c0.union(batch_paths(batch@.take(i as int), false)),
                self.deleted_set() == d0.union(batch_paths(batch@.take(i as int), true)),
            decreases batch.len() - i,
        {
            let ev = &batch[i];
            let path = ev.path.clone();
            let ghost n0 = notices@.map_values(|n: Notice| notice_view(n));
            let ghost t0 = batch@.take(i as int);
            let ghost t1 = batch@.take(i + 1);
            assert(t1 =~= t0.push(batch@[i as int]));
            match ev.kind {
                FsEventKind::Change | FsEventKind::Create => {
                    notices.push(Notice::Change(path.clone()));
                    assert(notices@.map_values(|n: Notice| notice_view(n)) =~= n0.push((false, ev.path@)));
                    insert_path(&mut self.files_data.changed, path);
                },
                FsEventKind::Remove => {
                    notices.push(Notice::Delete(path.clone()));
                    assert(notices@.map_values(|n: Notice| notice_view(n)) =~= n0.push((true, ev.path@)));
                    insert_path(&mut self.files_data.deleted, path);
                },
            }
            assert(batch_notices(t1) =~= batch_notices(t0).push((ev.kind == FsEventKind::Remove, ev.path@)));
            assert(notices@.map_values(|n: Notice| notice_view(n)) =~= batch_notices(t1));
            assert(batch_paths(t1, false) =~= batch_paths(t0, false).union(
                if batch@[i as int].kind == FsEventKind::Remove { Set::<Seq<char>>::empty() } else { set![batch@[i as int].path@] },
            )) by {
                assert forall|p: Seq<char>| batch_paths(t1, false).contains(p) implies batch_paths(t0, false).contains(p) || (batch@[i as int].kind != FsEventKind::Remove && p == batch@[i as int].path@) by {
                    let j = choose|j: int| 0 <= j < t1.len() && (t1[j].kind == FsEventKind::Remove) == false && t1[j].path@ == p;
                    if j < i {
                        assert(t0[j] == t1[j]);
                    }
                }
                assert forall|p: Seq<char>| batch_paths(t0, false).contains(p) implies batch_paths(t1, false).contains(p) by {
                    let j = choose|j: int| 0 <= j < t0.len() && (t0[j].kind == FsEventKind::Remove) == false && t0[j].path@ == p;
                    assert(t1[j] == t0[j]);
                }
                if batch@[i as int].kind != FsEventKind::Remove {
                    assert(t1[i as int] == batch@[i as int]);
                }
            }
            assert(batch_paths(t1, true) =~= batch_paths(t0, true).union(
                if batch@[i as int].kind == FsEventKind::Remove { set![batch@[i as int].path@] } else { Set::<Seq<char>>::empty() },
            )) by {
                assert forall|p: Seq<char>| batch_paths(t1, true).contains(p) implies batch_paths(t0, true).contains(p) || (batch@[i as int].kind == FsEventKind::Remove && p == batch@[i as int].path@) by {
                    let j = choose|j: int| 0 <= j < t1.len() && (t1[j].kind == FsEventKind::Remove) == true && t1[j].path@ == p;
                    if j < i {
                        assert(t0[j] == t1[j]);
                    }
                }
                assert forall|p: Seq<char>| batch_paths(t0, true).contains(p) implies batch_paths(t1, true).contains(p) by {
                    let j = choose|j: int| 0 <= j < t0.len() && (t0[j].kind == FsEventKind::Remove) == true && t0[j].path@ == p;
                    assert(t1[j] == t0[j]);
                }
                if batch@[i as int].kind == FsEventKind::Remove {
                    assert(t1[i as int] == batch@[i as int]);
                }
            }
            assert(self.changed_set() =~= c0.union(batch_paths(t1, false)));
            assert(self.deleted_set() =~= d0.union(batch_paths(t1, true)));
            i += 1;
        }
        assert(batch@.take(batch.len() as int) =~= batch@);
        (notices, !self.paused)
    }

    /// The aggregate timer fired: when something was collected, hands it out
    /// (changed paths, deleted paths, each once) and starts collecting afresh;
    /// otherwise `None`.
    pub fn on_timeout(&mut self) -> (r: Option<(Vec<String>, Vec<String>)>)
        requires
            old(self).wf(),
        ensures
            final(self).wf(),
            final(self).changed_set().is_empty(),
            final(self).deleted_set().is_empty(),
            final(self).spec_paused() == old(self).spec_paused(),
            final(self).spec_timeout() == old(self).spec_timeout(),
            aggregate_taken(*old(self), *final(self), aggregate_view(r)),
            (old(self).changed_set().is_empty() && old(self).deleted_set().is_empty()) <==> r is None,
            r matches Some((c, d)) ==> {
                &&& str_set(c@) == old(self).changed_set()
                &&& str_set(d@) == old(self).deleted_set()
                &&& strs(c@).no_duplicates()
                &&& strs(d@).no_duplicates()
            },
    {
        if self.files_data.is_empty() {
            return None;
        }
        let mut data = FilesData::new();
        std::mem::swap(&mut self.files_data, &mut data);
        Some((data.changed, data.deleted))
    }
}

/// What taking in a batch does to the executor (see `on_batch`): the timer
/// is armed exactly when the watcher is not paused, the batch's paths are
/// collected, and the pause flag and timeout stay.
pub open spec fn batch_taken(before: ExecutorState, after: ExecutorState, batch: Seq<FsEvent>, arm: bool) -> bool {
    &&& arm == !before.spec_paused()
    &&& after.spec_paused() == before.spec_paused()
    &&& after.spec_timeout() == before.spec_timeout()
    &&& after.changed_set() == before.changed_set().union(batch_paths(batch, false))
    &&& after.deleted_set() == before.deleted_set().union(batch_paths(batch, true))
}

/// The events of a run of batches, in order.
pub open spec fn run_events(batches: Seq<Seq<FsEvent>>) -> Seq<FsEvent>
    decreases batches.len(),
{
    if batches.len() == 0 {
        seq![]
    } else {
        run_events(batches.drop_last()) + batches.last()
    }
}

/// Over a run of batches with no aggregate in between (`states[i]` before
/// batch `i`), the executor has collected what it held before and the
/// changed and deleted paths of every event of the run; and when it was
/// paused before the first batch, no batch arms the aggregate timer, so the
/// aggregate handler is not called.
pub proof fn lemma_batch_run(states: Seq<ExecutorState>, batches: Seq<Seq<FsEvent>>, arms: Seq<bool>)
    requires
        states.len() == batches.len() + 1,
        arms.len() == batches.len(),
        forall|i: int| 0 <= i < batches.len() ==> #[trigger] batch_taken(states[i], states[i + 1], batches[i], arms[i]),
    ensures
        states.last().changed_set() == states[0].changed_set().union(batch_paths(run_events(batches), false)),
        states.last().deleted_set() == states[0].deleted_set().union(batch_paths(run_events(batches), true)),
        states.last().spec_paused() == states[0].spec_paused(),
        states[0].spec_paused() ==> forall|i: int| 0 <= i < arms.len() ==> !#[trigger] arms[i],
    decreases batches.len(),
{
    let n = batches.len() as int;
    if n == 0 {
        assert(batch_paths(run_events(batches), false) =~= Set::<Seq<char>>::empty());
        assert(batch_paths(run_events(batches), true) =~= Set::<Seq<char>>::empty());
        assert(states[0].changed_set().union(Set::<Seq<char>>::empty()) =~= states[0].changed_set());
        assert(states[0].deleted_set().union(Set::<Seq<char>>::empty()) =~= states[0].deleted_set());
    } else {
        let s2 = states.drop_last();
        let b2 = batches.drop_last();
        let a2 = arms.drop_last();
        assert forall|i: int| 0 <= i < b2.len() implies #[trigger] batch_taken(s2[i], s2[i + 1], b2[i], a2[i]) by {
            assert(batch_taken(states[i], states[i + 1], batches[i], arms[i]));
        }
        lemma_batch_run(s2, b2, a2);
        assert(batch_taken(states[n - 1], states[n], batches[n - 1], arms[n - 1]));
        assert(s2.last() == states[n - 1]);
        lemma_batches_compose(run_events(b2), batches.last());
        assert(run_events(batches) == run_events(b2) + batches.last());
        assert(states.last().changed_set() =~= states[0].changed_set().union(batch_paths(run_events(batches), false)));
        assert(states.last().deleted_set() =~= states[0].deleted_set().union(batch_paths(run_events(batches), true)));
        assert forall|i: int| states[0].spec_paused() && 0 <= i < arms.len() implies !#[trigger] arms[i] by {
            if i < n - 1 {
                assert(a2[i] == arms[i]);
            }
        }
    }
}

/// An aggregate in view form.
pub open spec fn aggregate_view(r: Option<(Vec<String>, Vec<String>)>) -> Option<(Seq<Seq<char>>, Seq<Seq<char>>)> {
    match r {
        Some((c, d)) => Some((strs(c@), strs(d@))),
        None => None,
    }
}

/// What the aggregate timer firing does (see `on_timeout`): nothing is handed
/// out when nothing was collected; otherwise the changed and the deleted
/// paths, each once; then the executor starts collecting afresh.
pub open spec fn aggregate_taken(
    before: ExecutorState,
    after: ExecutorState,
    out: Option<(Seq<Seq<char>>, Seq<Seq<char>>)>,
) -> bool {
    &&& after.changed_set().is_empty()
    &&& after.deleted_set().is_empty()
    &&& after.spec_paused() == before.spec_paused()
    &&& after.spec_timeout() == before.spec_timeout()
    &&& (out is None <==> before.changed_set().is_empty() && before.deleted_set().is_empty())
    &&& out matches Some((c, d)) ==> {
        &&& c.to_set() == before.changed_set()
        &&& d.to_set() == before.deleted_set()
        &&& c.no_duplicates()
        &&& d.no_duplicates()
    }
}

/// From one aggregate to the next: when the executor starts with nothing
/// collected (new, or just after an aggregate), takes a run of batches and
/// then the timer fires, the aggregate is absent exactly when the run had no
/// event, and otherwise holds the distinct changed (created or modified) and
/// the distinct deleted paths of the run's events; the executor then holds
/// nothing again.
pub proof fn lemma_aggregate_run(
    states: Seq<ExecutorState>,
    batches: Seq<Seq<FsEvent>>,
    arms: Seq<bool>,
    after: ExecutorState,
    out: Option<(Seq<Seq<char>>, Seq<Seq<char>>)>,
)
    requires
        states.len() == batches.len() + 1,
        arms.len() == batches.len(),
        forall|i: int| 0 <= i < batches.len() ==> #[trigger] batch_taken(states[i], states[i + 1], batches[i], arms[i]),
        states[0].changed_set().is_empty(),
        states[0].deleted_set().is_empty(),
        aggregate_taken(states.last(), after, out),
    ensures
        out is None <==> batch_paths(run_events(batches), false).is_empty() && batch_paths(run_events(batches), true).is_empty(),
        out matches Some((c, d)) ==> {
            &&& c.to_set() == batch_paths(run_events(batches), false)
            &&& d.to_set() == batch_paths(run_events(batches), true)
            &&& c.no_duplicates()
            &&& d.no_duplicates()
        },
        after.changed_set().is_empty(),
        after.deleted_set().is_empty(),
{
    lemma_batch_run(states, batches, arms);
    assert(states[0].changed_set() =~= Set::<Seq<char>>::empty());
    assert(states[0].deleted_set() =~= Set::<Seq<char>>::empty());
    assert(states.last().changed_set() =~= batch_paths(run_events(batches), false));
    assert(states.last().deleted_set() =~= batch_paths(run_events(batches), true));
}

/// Hands each notice to the immediate handler, in order.
pub fn notify_handler<H: EventHandler + ?Sized>(handler: &H, notices: Vec<Notice>) {
    let mut i: usize = 0;
    while i < notices.len()
        invariant
            i <= notices.len(),
        decreases notices.len() - i,
    {
        match &notices[i] {
            Notice::Change(p) => handler.on_change(p.clone()),
            Notice::Delete(p) => handler.on_delete(p.clone()),
        }
        i += 1;
    }
}

/// Hands an aggregate to the aggregate handler.
pub fn notify_aggregate<H: EventAggregateHandler + ?Sized>(handler: &H, changed: Vec<String>, deleted: Vec<String>) {
    handler.on_aggregate(changed, deleted);
}

} // verus!
