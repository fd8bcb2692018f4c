//! The reactor: a slot-indexed table mapping tokens to the tasks their wakers
//! stand for, together with the executor's task records and ready queue.
//! Readiness polling happens outside; each polling round hands the reactor
//! the batch of ready tokens, and `dispatch_events` wakes the task behind
//! each token that is still registered.

use vstd::prelude::*;

use crate::queue::{seg_queue_is_empty, seg_queue_items, seg_queue_new, seg_queue_pop,
    seg_queue_push};
use crate::table::{empty_table, slab_entries, slab_get, slab_insert, slab_is_empty, slab_new,
    slab_next, slab_try_remove};
use crate::task::{finish_model, lemma_finish_model_wf, lemma_sched_model_wf, lemma_spawn_model_wf,
    lemma_take_model_wf, sched_model, spawn_model, take_model, Task};
use crate::timer::{tick_fired, tick_model, wheel_wf, TimerWheel};

verus! {

/// The reactor's mathematical state: the waker table (token to task), the
/// key the table will hand out next, the task records, and the ready queue
/// of task ids, front first.
#[verifier::ext_equal]
pub struct ReactorModel {
    pub wakers: Map<usize, usize>,
    pub next_token: usize,
    pub tasks: Seq<Task>,
    pub ready: Seq<usize>,
}

/// Well-formedness of a reactor: every queued id names a task, no task sits
/// in the ready queue twice, a task's scheduled flag is true exactly when the
/// queue holds it, and every waker entry names a task.
pub open spec fn reactor_wf(m: ReactorModel) -> bool {
    &&& forall|i: int| 0 <= i < m.ready.len() ==> (#[trigger] m.ready[i]) < m.tasks.len()
    &&& forall|i: int, j: int| 0 <= i < j < m.ready.len() ==> m.ready[i] != m.ready[j]
    &&& forall|t: int|
        0 <= t < m.tasks.len() ==> ((#[trigger] m.tasks[t]).scheduled <==> m.ready.contains(
            t as usize,
        ))
    &&& forall|tok: usize| #[trigger]
        m.wakers.dom().contains(tok) ==> m.wakers[tok] < m.tasks.len()
    &&& m.tasks.len() <= usize::MAX
}

/// How registration changes the reactor: the waker's task is stored under the
/// table's next free token, which the call returns; tasks and ready queue are
/// untouched. Which key becomes free next depends on the table's free list,
/// so the new state's `next_token` is not pinned here.
pub open spec fn register_post(m0: ReactorModel, m1: ReactorModel, task: usize, tok: usize) -> bool {
    &&& tok == m0.next_token
    &&& !m0.wakers.dom().contains(tok)
    &&& m1.wakers == m0.wakers.insert(tok, task)
    &&& m1.tasks == m0.tasks
    &&& m1.ready == m0.ready
}

/// How deregistration changes the reactor: a registered token leaves the
/// table and becomes the next key handed out; an absent token changes
/// nothing, so double deregistration is harmless.
pub open spec fn dereg_model(m: ReactorModel, tok: usize) -> ReactorModel {
    if m.wakers.dom().contains(tok) {
        ReactorModel { wakers: m.wakers.remove(tok), next_token: tok, ..m }
    } else {
        m
    }
}

/// How one readiness event changes the reactor: the task registered under the
/// token is scheduled; a token no longer in the table is ignored.
pub open spec fn dispatch_one(m: ReactorModel, tok: usize) -> ReactorModel {
    if m.wakers.dom().contains(tok) {
        sched_model(m, m.wakers[tok])
    } else {
        m
    }
}

/// How a batch of readiness events changes the reactor: the events are
/// dispatched in order.
pub open spec fn dispatch_model(m: ReactorModel, toks: Seq<usize>) -> ReactorModel
    decreases toks.len(),
{
    if toks.len() == 0 {
        m
    } else {
        dispatch_model(dispatch_one(m, toks[0]), toks.drop_first())
    }
}

/// Dispatching a batch extended by one token dispatches the batch, then the
/// token.
pub proof fn lemma_dispatch_model_snoc(m: ReactorModel, toks: Seq<usize>, tok: usize)
    ensures
        dispatch_model(m, toks.push(tok)) == dispatch_one(dispatch_model(m, toks), tok),
    decreases toks.len(),
{
    if toks.len() == 0 {
        assert(toks.push(tok)[0] == tok);
        assert(toks.push(tok).drop_first() =~= Seq::<usize>::empty());
        assert(dispatch_model(dispatch_one(m, tok), Seq::<usize>::empty()) == dispatch_one(
            m,
            tok,
        ));
        assert(dispatch_model(m, toks) == m);
    } else {
        assert(toks.push(tok)[0] == toks[0]);
        assert(toks.push(tok).drop_first() =~= toks.drop_first().push(tok));
        lemma_dispatch_model_snoc(dispatch_one(m, toks[0]), toks.drop_first(), tok);
        assert(dispatch_model(m, toks.push(tok)) == dispatch_model(
            dispatch_one(m, toks[0]),
            toks.drop_first().push(tok),
        ));
        assert(dispatch_model(m, toks) == dispatch_model(dispatch_one(m, toks[0]), toks.drop_first()));
    }
}

/// The reactor is quiescent when no task is ready and no waker is registered;
/// the run loop exits exactly then.
pub open spec fn quiescent(m: ReactorModel) -> bool {
    &&& m.ready.len() == 0
    &&& m.wakers.dom() == Set::<usize>::empty()
}

/// The reactor. The waker table is a slab so that tokens are recycled slot
/// indexes; the ready queue is a concurrent FIFO drained by the run loop.
pub struct Reactor {
    pub(crate) wakers: slab::Slab<usize>,
    pub(crate) tasks: Vec<Task>,
    pub(crate) ready: crossbeam::queue::SegQueue<usize>,
}

impl View for Reactor {
    type V = ReactorModel;

    closed spec fn view(&self) -> ReactorModel {
        ReactorModel {
            wakers: slab_entries(self.wakers),
            next_token: slab_next(self.wakers),
            tasks: self.tasks@,
            ready: seg_queue_items(self.ready),
        }
    }
}

impl Reactor {
    /// A fresh reactor: no wakers, no tasks, nothing ready; the first token
    /// handed out will be 0.
    pub fn new() -> (r: Reactor)
        ensures
            reactor_wf(r@),
            quiescent(r@),
            r@.wakers == empty_table(),
            r@.next_token == 0,
            r@.tasks == Seq::<Task>::empty(),
            r@.ready == Seq::<usize>::empty(),
    {
        let r = Reactor { wakers: slab_new(), tasks: Vec::new(), ready: seg_queue_new() };
        proof {
            assert(empty_table().dom() =~= Set::<usize>::empty());
        }
        r
    }

    /// Registers a waker for `task` and returns its token: the slot index the
    /// table assigned. The token stays bound to that task until it is
    /// deregistered.
    pub fn register_waker(&mut self, task: usize) -> (tok: usize)
        requires
            reactor_wf(old(self)@),
            task < old(self)@.tasks.len(),
        ensures
            reactor_wf(final(self)@),
            register_post(old(self)@, final(self)@, task, tok),
    {
        slab_insert(&mut self.wakers, task)
    }

    /// Removes the waker registered under `tok`; the token becomes the next
    /// one handed out. Deregistering an absent token is a no-op, so double
    /// deregistration is harmless.
    pub fn deregister(&mut self, tok: usize)
        requires
            reactor_wf(old(self)@),
        ensures
            reactor_wf(final(self)@),
            final(self)@ == dereg_model(old(self)@, tok),
    {
        let ghost m0 = self@;
        let _removed = slab_try_remove(&mut self.wakers, tok);
        proof {
            assert(self@ =~~= dereg_model(m0, tok));
        }
    }

    /// Looks up the task registered under `tok`, or `None` if the token is
    /// not (any longer) in the table.
    pub fn waker_task(&self, tok: usize) -> (r: Option<usize>)
        ensures
            self@.wakers.dom().contains(tok) ==> r == Some(self@.wakers[tok]),
            !self@.wakers.dom().contains(tok) ==> r == None::<usize>,
    {
        slab_get(&self.wakers, tok)
    }

    /// Dispatches one polling round's batch of ready tokens, in order: each
    /// token still registered wakes (schedules) its task; tokens that were
    /// deregistered meanwhile are ignored. The waker table itself is
    /// unchanged.
    pub fn dispatch_events(&mut self, tokens: &Vec<usize>)
        requires
            reactor_wf(old(self)@),
        ensures
            reactor_wf(final(self)@),
            final(self)@ == dispatch_model(old(self)@, tokens@),
            final(self)@.wakers == old(self)@.wakers,
            final(self)@.next_token == old(self)@.next_token,
    {
        let ghost m0 = self@;
        let n = tokens.len();
        let mut k: usize = 0;
        while k < n
            invariant
                reactor_wf(m0),
                n == tokens@.len(),
                0 <= k <= n,
                reactor_wf(self@),
                self@ == dispatch_model(m0, tokens@.take(k as int)),
                self@.wakers == m0.wakers,
                self@.next_token == m0.next_token,
            decreases n - k,
        {
            let ghost mk = self@;
            let tok = tokens[k];
            let looked = slab_get(&self.wakers, tok);
            match looked {
                Some(task) => {
                    self.schedule(task);
                },
                None => {},
            }
            proof {
                assert(self@ == dispatch_one(mk, tok));
                lemma_dispatch_model_snoc(m0, tokens@.take(k as int), tok);
                assert(tokens@.take(k + 1) =~= tokens@.take(k as int).push(tok));
            }
            k = k + 1;
        }
        proof {
            assert(tokens@.take(n as int) =~= tokens@);
        }
    }

    /// Whether the reactor is quiescent: nothing ready and no waker
    /// registered. The run loop exits exactly when this holds.
    pub fn is_quiescent(&self) -> (r: bool)
        ensures
            r == quiescent(self@),
    {
        let no_ready = seg_queue_is_empty(&self.ready);
        let no_wakers = slab_is_empty(&self.wakers);
        no_ready && no_wakers
    }
}

impl Reactor {
    /// Spawns a new task: it starts scheduled and enqueued, so the next drain
    /// of the ready queue polls it. Returns the task's id.
    pub fn spawn_task(&mut self) -> (t: usize)
        requires
            reactor_wf(old(self)@),
            old(self)@.tasks.len() < usize::MAX,
        ensures
            reactor_wf(final(self)@),
            final(self)@ == spawn_model(old(self)@),
            t == old(self)@.tasks.len(),
    {
        let ghost m0 = self@;
        let t = self.tasks.len();
        self.tasks.push(Task { scheduled: true, completed: false });
        seg_queue_push(&mut self.ready, t);
        proof {
            assert(self@ =~~= spawn_model(m0));
            lemma_spawn_model_wf(m0);
        }
        t
    }

    /// Schedules a task for polling if it is not already scheduled: the
    /// scheduled flag turns true and the task joins the back of the ready
    /// queue. A task already scheduled is left alone, so repeated wakes
    /// between polls coalesce into one queue entry.
    pub fn schedule(&mut self, t: usize)
        requires
            reactor_wf(old(self)@),
            t < old(self)@.tasks.len(),
        ensures
            reactor_wf(final(self)@),
            final(self)@ == sched_model(old(self)@, t),
    {
        let ghost m0 = self@;
        if !self.tasks[t].scheduled {
            self.tasks[t].scheduled = true;
            seg_queue_push(&mut self.ready, t);
            proof {
                assert(self@ =~~= sched_model(m0, t));
            }
        } else {
            proof {
                assert(self@ =~~= sched_model(m0, t));
            }
        }
        proof {
            lemma_sched_model_wf(m0, t);
        }
    }

    /// Takes the task at the front of the ready queue, clearing its scheduled
    /// flag, or returns `None` if no task is ready. The caller polls the
    /// returned task's body once (skipping it if it has completed) and
    /// reports the outcome through `finish_poll`.
    pub fn take_ready(&mut self) -> (r: Option<usize>)
        requires
            reactor_wf(old(self)@),
        ensures
            reactor_wf(final(self)@),
            final(self)@ == take_model(old(self)@),
            old(self)@.ready.len() == 0 ==> r == None::<usize>,
            old(self)@.ready.len() > 0 ==> r == Some(old(self)@.ready[0]) && old(
                self,
            )@.ready[0] < old(self)@.tasks.len(),
    {
        let ghost m0 = self@;
        let popped = seg_queue_pop(&mut self.ready);
        match popped {
            None => {
                proof {
                    assert(self@ =~~= take_model(m0));
                }
                None
            },
            Some(t) => {
                proof {
                    assert(m0.ready[0] < m0.tasks.len());
                }
                self.tasks[t].scheduled = false;
                proof {
                    assert(self@ =~~= take_model(m0));
                    lemma_take_model_wf(m0);
                }
                Some(t)
            },
        }
    }

    /// Records the outcome of polling task `t`: `done` means its body
    /// returned ready, and the task is marked completed so that it is never
    /// polled again; a pending task is left as it is.
    pub fn finish_poll(&mut self, t: usize, done: bool)
        requires
            reactor_wf(old(self)@),
            t < old(self)@.tasks.len(),
        ensures
            reactor_wf(final(self)@),
            final(self)@ == finish_model(old(self)@, t, done),
    {
        let ghost m0 = self@;
        if done {
            self.tasks[t].completed = true;
            proof {
                assert(self@ =~~= finish_model(m0, t, done));
            }
        } else {
            proof {
                assert(self@ =~~= finish_model(m0, t, done));
            }
        }
        proof {
            lemma_finish_model_wf(m0, t, done);
        }
    }

    /// Whether task `t` is scheduled: true exactly while the ready queue
    /// holds it.
    pub fn task_scheduled(&self, t: usize) -> (r: bool)
        requires
            t < self@.tasks.len(),
        ensures
            r == self@.tasks[t as int].scheduled,
    {
        self.tasks[t].scheduled
    }

    /// Whether task `t` has completed; a completed task must not be polled.
    pub fn task_completed(&self, t: usize) -> (r: bool)
        requires
            t < self@.tasks.len(),
        ensures
            r == self@.tasks[t as int].completed,
    {
        self.tasks[t].completed
    }

    /// The number of tasks ever spawned; task ids are the indexes below it.
    pub fn task_count(&self) -> (n: usize)
        ensures
            n == self@.tasks.len(),
    {
        self.tasks.len()
    }
}

/// How waking a batch of tasks changes the reactor: each is scheduled in
/// order; ids no spawn ever returned are ignored.
pub open spec fn wake_all(m: ReactorModel, tasks: Seq<usize>) -> ReactorModel
    decreases tasks.len(),
{
    if tasks.len() == 0 {
        m
    } else {
        wake_all(sched_model(m, tasks[0]), tasks.drop_first())
    }
}

/// Waking a batch extended by one task wakes the batch, then the task.
pub proof fn lemma_wake_all_snoc(m: ReactorModel, tasks: Seq<usize>, t: usize)
    ensures
        wake_all(m, tasks.push(t)) == sched_model(wake_all(m, tasks), t),
    decreases tasks.len(),
{
    if tasks.len() == 0 {
        assert(tasks.push(t)[0] == t);
        assert(tasks.push(t).drop_first() =~= Seq::<usize>::empty());
        assert(wake_all(sched_model(m, t), Seq::<usize>::empty()) == sched_model(m, t));
        assert(wake_all(m, tasks) == m);
    } else {
        assert(tasks.push(t)[0] == tasks[0]);
        assert(tasks.push(t).drop_first() =~= tasks.drop_first().push(t));
        lemma_wake_all_snoc(sched_model(m, tasks[0]), tasks.drop_first(), t);
        assert(wake_all(m, tasks.push(t)) == wake_all(
            sched_model(m, tasks[0]),
            tasks.drop_first().push(t),
        ));
        assert(wake_all(m, tasks) == wake_all(sched_model(m, tasks[0]), tasks.drop_first()));
    }
}

impl Reactor {
    /// Wakes each task of a batch, in order: the coalescing schedule runs
    /// once per entry, and ids no spawn ever returned are ignored.
    pub fn wake_batch(&mut self, tasks: &Vec<usize>)
        requires
            reactor_wf(old(self)@),
        ensures
            reactor_wf(final(self)@),
            final(self)@ == wake_all(old(self)@, tasks@),
            final(self)@.wakers == old(self)@.wakers,
            final(self)@.next_token == old(self)@.next_token,
    {
        let ghost m0 = self@;
        let n = tasks.len();
        let mut k: usize = 0;
        while k < n
            invariant
                reactor_wf(m0),
                n == tasks@.len(),
                0 <= k <= n,
                reactor_wf(self@),
                self@ == wake_all(m0, tasks@.take(k as int)),
                self@.wakers == m0.wakers,
                self@.next_token == m0.next_token,
            decreases n - k,
        {
            let ghost mk = self@;
            let t = tasks[k];
            if t < self.tasks.len() {
                self.schedule(t);
            }
            proof {
                assert(self@ == sched_model(mk, t));
                lemma_wake_all_snoc(m0, tasks@.take(k as int), t);
                assert(tasks@.take(k + 1) =~= tasks@.take(k as int).push(t));
            }
            k = k + 1;
        }
        proof {
            assert(tasks@.take(n as int) =~= tasks@);
        }
    }

    /// Advances the timer wheel by one tick and wakes the task of every
    /// expired entry that was not cancelled, in queue order: the timers
    /// deliver their wakers through the reactor's coalescing schedule.
    pub fn tick_timers(&mut self, wheel: &mut TimerWheel)
        requires
            reactor_wf(old(self)@),
            wheel_wf(old(wheel)@),
        ensures
            reactor_wf(final(self)@),
            wheel_wf(final(wheel)@),
            final(wheel)@ == tick_model(old(wheel)@),
            final(self)@ == wake_all(old(self)@, tick_fired(old(wheel)@)),
    {
        let fired = wheel.tick();
        self.wake_batch(&fired);
    }
}

/// A live waker entry keeps naming the task that registered it: scheduling,
/// spawning, polling and completing tasks leave the table untouched, and
/// deregistering one token never disturbs another.
pub proof fn lemma_waker_binding_stable(
    m: ReactorModel,
    tok: usize,
    other: usize,
    t: usize,
    done: bool,
)
    requires
        reactor_wf(m),
        m.wakers.dom().contains(tok),
        other != tok,
    ensures
        dereg_model(m, other).wakers.dom().contains(tok),
        dereg_model(m, other).wakers[tok] == m.wakers[tok],
        sched_model(m, t).wakers == m.wakers,
        spawn_model(m).wakers == m.wakers,
        take_model(m).wakers == m.wakers,
        finish_model(m, t, done).wakers == m.wakers,
{
}

/// Registering a waker and then deregistering its token restores the table —
/// entries and next free key alike — and the rest of the reactor with it.
pub proof fn lemma_register_deregister_restores(
    m0: ReactorModel,
    m1: ReactorModel,
    task: usize,
    tok: usize,
)
    requires
        reactor_wf(m0),
        register_post(m0, m1, task, tok),
    ensures
        dereg_model(m1, tok) == m0,
{
    assert(m1.wakers.dom().contains(tok));
    assert(m1.wakers.remove(tok) =~= m0.wakers);
    assert(dereg_model(m1, tok) =~~= m0);
}

/// When the run loop exits — the reactor quiescent — the ready queue is empty
/// and the waker table holds no entry at all, in particular none whose owning
/// task has completed.
pub proof fn lemma_run_exit_state(m: ReactorModel)
    requires
        reactor_wf(m),
        quiescent(m),
    ensures
        m.ready.len() == 0,
        forall|tok: usize| !m.wakers.dom().contains(tok),
        forall|tok: usize|
            m.wakers.dom().contains(tok) ==> !m.tasks[m.wakers[tok] as int].completed,
{
    assert forall|tok: usize| !m.wakers.dom().contains(tok) by {
        assert(!Set::<usize>::empty().contains(tok));
    };
}

} // verus!

