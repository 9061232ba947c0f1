//! The scheduling decisions of a task loop. Main tasks run one at a time on
//! the loop; background tasks run elsewhere and send their results back. The
//! caller runs tasks and reports their results; this state decides what runs
//! next and where new tasks go.

use std::collections::VecDeque;
use vstd::prelude::*;

verus! {

/// Where a task runs.
#[derive(Debug, Clone, Copy, PartialEq, Eq, Structural)]
pub enum TaskType {
    /// On the loop, one at a time, with access to the context.
    Main,
    /// Elsewhere, in parallel, without the context.
    Background,
}

/// What the loop does next.
pub enum Step<T> {
    /// Run this main task.
    RunMain(T),
    /// No main task is queued: wait for a background result.
    WaitBackground,
    /// Nothing is queued or running: the loop is done.
    Finished,
}

/// The main tasks among `tasks` in queue order for a result: each one is
/// pushed to the front (main results, depth first) or the back (background
/// results, breadth first) in turn, so pushing to the front reverses them.
pub open spec fn queue_after<T>(q: Seq<T>, tasks: Seq<(TaskType, T)>, to_front: bool) -> Seq<T>
    decreases tasks.len(),
{
    if tasks.len() == 0 {
        q
    } else {
        let q1 = queue_after(q, tasks.drop_last(), to_front);
        let (ty, t) = tasks.last();
        if ty == TaskType::Main {
            if to_front {
                seq![t] + q1
            } else {
                q1.push(t)
            }
        } else {
            q1
        }
    }
}

/// The background tasks among `tasks`, in order.
pub open spec fn backgrounds<T>(tasks: Seq<(TaskType, T)>) -> Seq<T>
    decreases tasks.len(),
{
    if tasks.len() == 0 {
        seq![]
    } else {
        let rest = backgrounds(tasks.drop_last());
        if tasks.last().0 == TaskType::Background {
            rest.push(tasks.last().1)
        } else {
            rest
        }
    }
}

/// A prefix of the tasks holds no more background tasks than all of them.
proof fn lemma_backgrounds_prefix<T>(all: Seq<(TaskType, T)>, k: int)
    requires
        0 <= k <= all.len(),
    ensures
        backgrounds(all.take(k)).len() <= backgrounds(all).len(),
    decreases all.len() - k,
{
    if k < all.len() {
        lemma_backgrounds_prefix(all, k + 1);
        assert(all.take(k + 1).drop_last() =~= all.take(k));
    } else {
        assert(all.take(k) =~= all);
    }
}

/// The main tasks among `tasks`, in order.
pub open spec fn mains<T>(tasks: Seq<(TaskType, T)>) -> Seq<T>
    decreases tasks.len(),
{
    if tasks.len() == 0 {
        seq![]
    } else {
        let rest = mains(tasks.drop_last());
        if tasks.last().0 == TaskType::Main {
            rest.push(tasks.last().1)
        } else {
            rest
        }
    }
}

/// Splitting tasks by type keeps each task once, in order: the background
/// tasks are exactly the tasks of type `Background`, the main tasks exactly
/// those of type `Main`, and together they are as many as the tasks.
pub proof fn lemma_split_by_type<T>(tasks: Seq<(TaskType, T)>)
    ensures
        backgrounds(tasks) == tasks.filter(|p: (TaskType, T)| p.0 == TaskType::Background).map_values(
            |p: (TaskType, T)| p.1,
        ),
        mains(tasks) == tasks.filter(|p: (TaskType, T)| p.0 == TaskType::Main).map_values(
            |p: (TaskType, T)| p.1,
        ),
        backgrounds(tasks).len() + mains(tasks).len() == tasks.len(),
    decreases tasks.len(),
{
    reveal(Seq::filter);
    let fb = |p: (TaskType, T)| p.0 == TaskType::Background;
    let fm = |p: (TaskType, T)| p.0 == TaskType::Main;
    let g = |p: (TaskType, T)| p.1;
    if tasks.len() > 0 {
        let init = tasks.drop_last();
        lemma_split_by_type(init);
        assert(init.filter(fb).push(tasks.last()).map_values(g) =~= init.filter(fb).map_values(g).push(
            tasks.last().1,
        ));
        assert(init.filter(fm).push(tasks.last()).map_values(g) =~= init.filter(fm).map_values(g).push(
            tasks.last().1,
        ));
    } else {
        assert(tasks.filter(fb) =~= tasks);
        assert(tasks.filter(fm) =~= tasks);
        assert(backgrounds(tasks) =~= tasks.filter(fb).map_values(g));
        assert(mains(tasks) =~= tasks.filter(fm).map_values(g));
    }
}

/// Main results go depth first: their main tasks come before everything
/// queued, last one first. Background results go breadth first: their main
/// tasks come after everything queued, in order.
pub proof fn lemma_queue_order<T>(q: Seq<T>, tasks: Seq<(TaskType, T)>)
    ensures
        queue_after(q, tasks, true) == mains(tasks).reverse() + q,
        queue_after(q, tasks, false) == q + mains(tasks),
    decreases tasks.len(),
{
    if tasks.len() > 0 {
        lemma_queue_order(q, tasks.drop_last());
        let m = mains(tasks.drop_last());
        if tasks.last().0 == TaskType::Main {
            assert(mains(tasks) == m.push(tasks.last().1));
            assert(m.push(tasks.last().1).reverse() =~= seq![tasks.last().1] + m.reverse());
            assert(queue_after(q, tasks, true) =~= mains(tasks).reverse() + q);
            assert(queue_after(q, tasks, false) =~= q + mains(tasks));
        } else {
            assert(mains(tasks) == m);
        }
    } else {
        assert(mains(tasks).reverse() + q =~= q);
        assert(q + mains(tasks) =~= q);
    }
}

/// Splits initial tasks into (background, main), keeping their order.
pub fn partition_tasks<T>(tasks: Vec<(TaskType, T)>) -> (r: (Vec<T>, Vec<T>))
    ensures
        r.0@ == backgrounds(tasks@),
        r.1@ == mains(tasks@),
{
    let ghost all = tasks@;
    let mut bg: Vec<T> = Vec::new();
    let mut main: Vec<T> = Vec::new();
    for pair in it: tasks.into_iter()
        invariant
            it.seq() == all,
            bg@ == backgrounds(all.take(it.index() as int)),
            main@ == mains(all.take(it.index() as int)),
    {
        let ghost i = it.index();
        assert(all.take(i + 1).drop_last() =~= all.take(i as int));
        let (ty, t) = pair;
        match ty {
            TaskType::Main => main.push(t),
            TaskType::Background => bg.push(t),
        }
    }
    assert(all.take(all.len() as int) =~= all);
    (bg, main)
}

/// The loop's state: the queue of main tasks, the number of background tasks
/// running, and whether an error has asked running tasks not to report back.
pub struct TaskLoop<T> {
    main_task_queue: VecDeque<T>,
    background_task_count: u32,
    is_expected_shutdown: bool,
}

impl<T> TaskLoop<T> {
    /// Queued main tasks, front first.
    pub closed spec fn queue(&self) -> Seq<T> {
        self.main_task_queue@
    }

    /// Background tasks running.
    pub closed spec fn running(&self) -> nat {
        self.background_task_count as nat
    }

    /// Whether the loop is shutting down after an error.
    pub closed spec fn shutting_down(&self) -> bool {
        self.is_expected_shutdown
    }

    /// A loop with the given main tasks queued and nothing running.
    pub fn new(init_main_tasks: Vec<T>) -> (r: Self)
        ensures
            r.queue() == init_main_tasks@,
            r.running() == 0,
            !r.shutting_down(),
    {
        let mut q: VecDeque<T> = VecDeque::new();
        let ghost all = init_main_tasks@;
        for t in it: init_main_tasks.into_iter()
            invariant
                it.seq() == all,
                q@ == all.take(it.index() as int),
        {
            let ghost i = it.index();
            q.push_back(t);
            assert(q@ =~= all.take(i + 1));
        }
        assert(all.take(all.len() as int) =~= all);
        TaskLoop { main_task_queue: q, background_task_count: 0, is_expected_shutdown: false }
    }

    /// Whether running background tasks should keep their results to themselves.
    pub fn is_expected_shutdown(&self) -> (r: bool)
        ensures
            r == self.shutting_down(),
    {
        self.is_expected_shutdown
    }

    /// The number of background tasks running.
    pub fn background_task_count(&self) -> (r: u32)
        ensures
            r == self.running(),
    {
        self.background_task_count
    }

    /// Records that a background task was started.
    pub fn background_spawned(&mut self)
        requires
            old(self).running() < u32::MAX,
        ensures
            final(self).running() == old(self).running() + 1,
            final(self).queue() == old(self).queue(),
            final(self).shutting_down() == old(self).shutting_down(),
    {
        self.background_task_count = self.background_task_count + 1;
    }

    /// The next step: the main task at the front of the queue if there is one,
    /// else wait while background tasks run, else finish.
    pub fn next_step(&mut self) -> (r: Step<T>)
        ensures
            final(self).running() == old(self).running(),
            final(self).shutting_down() == old(self).shutting_down(),
            old(self).queue().len() > 0 ==> (r matches Step::RunMain(t) && t == old(self).queue()[0]
                && final(self).queue() == old(self).queue().drop_first()),
            old(self).queue().len() == 0 ==> final(self).queue() == old(self).queue(),
            old(self).queue().len() == 0 && old(self).running() > 0 ==> r is WaitBackground,
            old(self).queue().len() == 0 && old(self).running() == 0 ==> r is Finished,
    {
        match self.main_task_queue.pop_front() {
            Some(t) => {
                assert(self.main_task_queue@ =~= old(self).queue().drop_first());
                Step::RunMain(t)
            },
            None => {
                if self.background_task_count == 0 {
                    Step::Finished
                } else {
                    Step::WaitBackground
                }
            },
        }
    }

    /// Records that a background task has reported its result.
    pub fn background_finished(&mut self)
        requires
            old(self).running() > 0,
        ensures
            final(self).running() == old(self).running() - 1,
            final(self).queue() == old(self).queue(),
            final(self).shutting_down() == old(self).shutting_down(),
    {
        self.background_task_count = self.background_task_count - 1;
    }

    /// Takes a task's result: `to_front` is true for a main task's result and
    /// false for a background task's. On error the loop shuts down and the
    /// error is returned. Otherwise the new main tasks are queued, at the front
    /// for a main result (depth first) and at the back for a background one
    /// (breadth first), and the new background tasks are counted as running
    /// and returned, for the caller to start.
    pub fn handle_task_result<E>(&mut self, result: Result<Vec<(TaskType, T)>, E>, to_front: bool) -> (r: Result<Vec<T>, E>)
        requires
            result matches Ok(tasks) ==> old(self).running() + backgrounds(tasks@).len() <= u32::MAX,
        ensures
            match result {
                Ok(tasks) => {
                    &&& r is Ok
                    &&& r->Ok_0@ == backgrounds(tasks@)
                    &&& final(self).running() == old(self).running() + backgrounds(tasks@).len()
                    &&& final(self).queue() == queue_after(old(self).queue(), tasks@, to_front)
                    &&& final(self).shutting_down() == old(self).shutting_down()
                },
                Err(e) => {
                    &&& r == Err::<Vec<T>, E>(e)
                    &&& final(self).running() == old(self).running()
                    &&& final(self).queue() == old(self).queue()
                    &&& final(self).shutting_down()
                },
            },
    {
        let tasks = match result {
            Ok(tasks) => tasks,
            Err(e) => {
                self.is_expected_shutdown = true;
                return Err(e);
            },
        };
        let ghost all = tasks@;
        let ghost q0 = self.queue();
        let mut bg: Vec<T> = Vec::new();
        for pair in it: tasks.into_iter()
            invariant
                it.seq() == all,
                q0 == old(self).queue(),
                self.queue() == queue_after(q0, all.take(it.index() as int), to_front),
                bg@ == backgrounds(all.take(it.index() as int)),
                self.background_task_count == old(self).background_task_count + bg@.len(),
                old(self).running() + backgrounds(all).len() <= u32::MAX,
                self.is_expected_shutdown == old(self).is_expected_shutdown,
        {
            let ghost i = it.index();
            assert(all.take(i + 1).drop_last() =~= all.take(i as int));
            assert(all.take(i + 1).last() == pair);
            let (ty, t) = pair;
            match ty {
                TaskType::Main => {
                    if to_front {
                        self.main_task_queue.push_front(t);
                    } else {
                        self.main_task_queue.push_back(t);
                    }
                },
                TaskType::Background => {
                    proof {
                        lemma_backgrounds_prefix(all, i + 1);
                    }
                    bg.push(t);
                    self.background_task_count = self.background_task_count + 1;
                },
            }
        }
        assert(all.take(all.len() as int) =~= all);
        Ok(bg)
    }
}

} // verus!
