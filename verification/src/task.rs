//! Tasks and the cooperative executor. A task is a record with a scheduled
//! flag and a completed flag; the asynchronous computation it stands for is
//! driven by the caller of `take_ready` / `finish_poll`, which hands each
//! polled task's outcome back. Scheduling coalesces: a task enters the ready
//! queue only when its scheduled flag turns from false to true, so it sits in
//! the queue at most once however many times its waker runs.

use vstd::prelude::*;

use crate::reactor::{reactor_wf, ReactorModel};

verus! {

/// One task of the executor: its scheduled flag (it is in the ready queue)
/// and its completed flag (its body returned ready and must not be polled
/// again).
#[derive(Clone, Copy, PartialEq, Eq, Structural, Debug)]
pub struct Task {
    pub scheduled: bool,
    pub completed: bool,
}

impl Task {
    /// A fresh task: not scheduled, not completed.
    pub fn new() -> (t: Task)
        ensures
            t == (Task { scheduled: false, completed: false }),
    {
        Task { scheduled: false, completed: false }
    }
}

/// How scheduling a task changes the reactor: if the task's scheduled flag is
/// clear, set it and append the task to the ready queue; otherwise nothing
/// changes (the wake coalesces).
pub open spec fn sched_model(m: ReactorModel, t: usize) -> ReactorModel {
    if t < m.tasks.len() && !m.tasks[t as int].scheduled {
        ReactorModel {
            tasks: m.tasks.update(t as int, Task { scheduled: true, ..m.tasks[t as int] }),
            ready: m.ready.push(t),
            ..m
        }
    } else {
        m
    }
}

/// How spawning changes the reactor: one new task, scheduled and enqueued at
/// the back of the ready queue; its id is the next free index.
pub open spec fn spawn_model(m: ReactorModel) -> ReactorModel {
    ReactorModel {
        tasks: m.tasks.push(Task { scheduled: true, completed: false }),
        ready: m.ready.push(m.tasks.len() as usize),
        ..m
    }
}

/// How taking the next ready task changes the reactor: the front of the ready
/// queue leaves it and its scheduled flag is cleared; an empty queue changes
/// nothing.
pub open spec fn take_model(m: ReactorModel) -> ReactorModel {
    if m.ready.len() == 0 {
        m
    } else {
        let t = m.ready[0];
        ReactorModel {
            tasks: m.tasks.update(t as int, Task { scheduled: false, ..m.tasks[t as int] }),
            ready: m.ready.drop_first(),
            ..m
        }
    }
}

/// How reporting a poll's outcome changes the reactor: a task polled to
/// completion is marked completed; a pending task leaves the state unchanged
/// (its wakers will re-enqueue it).
pub open spec fn finish_model(m: ReactorModel, t: usize, done: bool) -> ReactorModel {
    if done && t < m.tasks.len() {
        ReactorModel {
            tasks: m.tasks.update(t as int, Task { completed: true, ..m.tasks[t as int] }),
            ..m
        }
    } else {
        m
    }
}

/// A pushed sequence contains exactly the old elements and the new one.
pub(crate) proof fn lemma_push_contains(s: Seq<usize>, v: usize)
    ensures
        forall|x: usize| #[trigger] s.push(v).contains(x) <==> (s.contains(x) || x == v),
{
    assert forall|x: usize| #[trigger] s.push(v).contains(x) implies (s.contains(x) || x == v) by {
        let k = choose|k: int| 0 <= k < s.push(v).len() && s.push(v)[k] == x;
        if k < s.len() {
            assert(s[k] == x);
        }
    };
    assert forall|x: usize| (s.contains(x) || x == v) implies s.push(v).contains(x) by {
        if s.contains(x) {
            let k = choose|k: int| 0 <= k < s.len() && s[k] == x;
            assert(s.push(v)[k] == x);
        } else {
            assert(s.push(v)[s.len() as int] == x);
        }
    };
}

/// Dropping the front of a duplicate-free sequence removes exactly that
/// element from what the sequence contains.
pub(crate) proof fn lemma_drop_first_contains(s: Seq<usize>)
    requires
        s.len() > 0,
        forall|i: int, j: int| 0 <= i < j < s.len() ==> s[i] != s[j],
    ensures
        forall|x: usize| #[trigger] s.drop_first().contains(x) <==> (s.contains(x) && x != s[0]),
{
    assert forall|x: usize| #[trigger] s.drop_first().contains(x) implies (s.contains(x) && x
        != s[0]) by {
        let k = choose|k: int| 0 <= k < s.drop_first().len() && s.drop_first()[k] == x;
        assert(s[k + 1] == x);
    };
    assert forall|x: usize| (s.contains(x) && x != s[0]) implies s.drop_first().contains(x) by {
        let k = choose|k: int| 0 <= k < s.len() && s[k] == x;
        assert(s.drop_first()[k - 1] == x);
    };
}

/// Scheduling preserves well-formedness.
pub proof fn lemma_sched_model_wf(m: ReactorModel, t: usize)
    requires
        reactor_wf(m),
        t < m.tasks.len(),
    ensures
        reactor_wf(sched_model(m, t)),
{
    let m1 = sched_model(m, t);
    if !m.tasks[t as int].scheduled {
        lemma_push_contains(m.ready, t);
        assert(!m.ready.contains(t));
        assert(forall|i: int|
            0 <= i < m.ready.len() ==> m.ready.contains(#[trigger] m.ready[i]));
        assert forall|i: int, j: int| 0 <= i < j < m1.ready.len() implies m1.ready[i]
            != m1.ready[j] by {
            if j < m.ready.len() {
            } else {
                assert(m1.ready[j] == t);
                assert(m1.ready[i] == m.ready[i]);
            }
        };
        assert forall|x: int| 0 <= x < m1.tasks.len() implies ((#[trigger] m1.tasks[x]).scheduled
            <==> m1.ready.contains(x as usize)) by {
            if x == t {
                assert(m1.ready[m.ready.len() as int] == t);
            } else {
                assert(m1.tasks[x] == m.tasks[x]);
            }
        };
    }
}

/// Spawning preserves well-formedness.
pub proof fn lemma_spawn_model_wf(m: ReactorModel)
    requires
        reactor_wf(m),
        m.tasks.len() < usize::MAX,
    ensures
        reactor_wf(spawn_model(m)),
{
    let t = m.tasks.len() as usize;
    let m1 = spawn_model(m);
    lemma_push_contains(m.ready, t);
    assert(!m.ready.contains(t));
    assert(forall|i: int| 0 <= i < m.ready.len() ==> m.ready.contains(#[trigger] m.ready[i]));
    assert forall|i: int, j: int| 0 <= i < j < m1.ready.len() implies m1.ready[i]
        != m1.ready[j] by {
        if j < m.ready.len() {
        } else {
            assert(m1.ready[j] == t);
            assert(m1.ready[i] == m.ready[i]);
        }
    };
    assert forall|x: int| 0 <= x < m1.tasks.len() implies ((#[trigger] m1.tasks[x]).scheduled <==> m1.ready.contains(x as usize)) by {
        if x == t {
            assert(m1.ready[m.ready.len() as int] == t);
        } else {
            assert(m1.tasks[x] == m.tasks[x]);
        }
    };
}

/// Taking the next ready task preserves well-formedness.
pub proof fn lemma_take_model_wf(m: ReactorModel)
    requires
        reactor_wf(m),
    ensures
        reactor_wf(take_model(m)),
{
    if m.ready.len() > 0 {
        let t = m.ready[0];
        let m1 = take_model(m);
        lemma_drop_first_contains(m.ready);
        assert(m.ready.contains(t));
        assert forall|x: int| 0 <= x < m1.tasks.len() implies ((#[trigger] m1.tasks[x]).scheduled
            <==> m1.ready.contains(x as usize)) by {
            if x == t {
                assert(!m1.ready.contains(t));
            } else {
                assert(m1.tasks[x] == m.tasks[x]);
            }
        };
    }
}

/// Reporting a poll's outcome preserves well-formedness.
pub proof fn lemma_finish_model_wf(m: ReactorModel, t: usize, done: bool)
    requires
        reactor_wf(m),
    ensures
        reactor_wf(finish_model(m, t, done)),
{
    let m1 = finish_model(m, t, done);
    if done && t < m.tasks.len() {
        assert forall|x: int| 0 <= x < m1.tasks.len() implies ((#[trigger] m1.tasks[x]).scheduled
            <==> m1.ready.contains(x as usize)) by {
            if x != t {
                assert(m1.tasks[x] == m.tasks[x]);
            }
        };
    }
}

/// A task's scheduled flag is true exactly when the ready queue holds it,
/// and the queue is duplicate-free, so it holds the task exactly once.
pub proof fn lemma_scheduled_iff_queued(m: ReactorModel, t: usize)
    requires
        reactor_wf(m),
        t < m.tasks.len(),
    ensures
        m.tasks[t as int].scheduled <==> m.ready.contains(t),
        forall|i: int, j: int| 0 <= i < j < m.ready.len() ==> m.ready[i] != m.ready[j],
{
}

/// Two consecutive schedules of one task coalesce: the second changes
/// nothing, and the task sits in the ready queue exactly once, so it will be
/// polled exactly once when the queue drains.
pub proof fn lemma_schedule_coalesces(m: ReactorModel, t: usize)
    requires
        reactor_wf(m),
        t < m.tasks.len(),
    ensures
        sched_model(sched_model(m, t), t) == sched_model(m, t),
        sched_model(m, t).ready.contains(t),
        forall|i: int, j: int|
            0 <= i < j < sched_model(m, t).ready.len() ==> sched_model(m, t).ready[i]
                != sched_model(m, t).ready[j],
{
    let m1 = sched_model(m, t);
    lemma_sched_model_wf(m, t);
    if !m.tasks[t as int].scheduled {
        assert(m1.tasks[t as int].scheduled);
        assert(m1.ready[m.ready.len() as int] == t);
    }
}

} // verus!
