//! The timer wheel: a fixed ring of 256 slots, each a FIFO queue of pending
//! entries, and a cursor that advances one slot per tick. Scheduling places an
//! entry `delay / slot-duration` slots ahead of the cursor, wrapping around
//! the ring; a tick drains the slot under the cursor and reports the task of
//! every entry that was not cancelled.

use vstd::prelude::*;

use crate::queue::{seg_queue_items, seg_queue_new, seg_queue_pop, seg_queue_push};
use crate::{SLOT_DURATION_MS, WHEEL_SIZE};
use vstd::arithmetic::div_mod::{lemma_div_is_ordered, lemma_fundamental_div_mod,
    lemma_mod_multiples_vanish};

verus! {

/// What the wheel records of one scheduled timer: the task its waker stands
/// for, the slot it expires in, and whether it was cancelled.
#[derive(Clone, Copy, PartialEq, Eq, Structural, Debug)]
pub struct TimerRec {
    pub task: usize,
    pub slot: usize,
    pub cancelled: bool,
}

/// The handle that `schedule` returns: it names the entry so that the caller
/// can cancel it later. Ids are assigned from 1 upward, strictly increasing.
#[derive(Clone, Copy, PartialEq, Eq, Structural, Debug)]
pub struct TimerEntry {
    pub id: u64,
    pub slot: usize,
}

/// The wheel's mathematical state: the cursor, the id counter, the sequence
/// of entry indexes pending in each slot, and the record of every entry ever
/// scheduled (index `id - 1` holds the entry with that id).
#[verifier::ext_equal]
pub struct WheelModel {
    pub cursor: usize,
    pub next_id: u64,
    pub slots: Seq<Seq<usize>>,
    pub recs: Seq<TimerRec>,
}

/// The slot in which a timer scheduled while the cursor stands at `cursor`
/// expires after a delay of `delay_ms` milliseconds. Delays of a full
/// revolution or more wrap around the ring.
pub open spec fn spec_expiration_slot(cursor: usize, delay_ms: u64) -> usize {
    (((cursor as int) + (delay_ms as int) / (SLOT_DURATION_MS as int)) % (
    WHEEL_SIZE as int)) as usize
}

/// Well-formedness of a wheel: the cursor points into the ring, ids count the
/// records, and every pending index denotes a record that expires in the slot
/// holding it.
pub open spec fn wheel_wf(m: WheelModel) -> bool {
    &&& m.cursor < WHEEL_SIZE
    &&& m.slots.len() == WHEEL_SIZE
    &&& m.next_id >= 1
    &&& m.next_id == m.recs.len() + 1
    &&& m.recs.len() <= usize::MAX
    &&& forall|i: int, j: int|
        0 <= i < m.slots.len() && 0 <= j < m.slots[i].len() ==> (#[trigger] m.slots[i][j])
            < m.recs.len() && m.recs[m.slots[i][j] as int].slot == i
}

/// How `schedule` changes the wheel: one new record, not cancelled, placed in
/// its expiration slot, under the next id.
pub open spec fn schedule_post(
    m0: WheelModel,
    m1: WheelModel,
    delay_ms: u64,
    task: usize,
    id: u64,
    entry: TimerEntry,
) -> bool {
    let slot = spec_expiration_slot(m0.cursor, delay_ms);
    let idx = m0.recs.len() as usize;
    &&& id == m0.next_id
    &&& entry == (TimerEntry { id, slot })
    &&& m1.cursor == m0.cursor
    &&& m1.next_id == m0.next_id + 1
    &&& m1.recs == m0.recs.push(TimerRec { task, slot, cancelled: false })
    &&& m1.slots == m0.slots.update(slot as int, m0.slots[slot as int].push(idx))
}

/// Whether `entry` is a handle this wheel issued: its id is in range and its
/// slot agrees with the record.
pub open spec fn entry_valid(m: WheelModel, entry: TimerEntry) -> bool {
    &&& 1 <= entry.id <= m.recs.len()
    &&& m.recs[entry.id - 1].slot == entry.slot
}

/// How cancellation changes the wheel: the one record is marked cancelled;
/// the entry stays in its slot until that slot ticks.
pub open spec fn cancel_model(m: WheelModel, id: u64) -> WheelModel {
    let r0 = m.recs[id - 1];
    let r1 = TimerRec { cancelled: true, ..r0 };
    WheelModel { recs: m.recs.update(id - 1, r1), ..m }
}

/// The tasks that draining a slot with pending indexes `q` under records
/// `recs` fires, in queue order: one per entry that was not cancelled.
pub open spec fn fired_tasks(recs: Seq<TimerRec>, q: Seq<usize>) -> Seq<usize>
    decreases q.len(),
{
    if q.len() == 0 {
        Seq::empty()
    } else {
        let rest = fired_tasks(recs, q.drop_first());
        if q[0] < recs.len() && !recs[q[0] as int].cancelled {
            seq![recs[q[0] as int].task] + rest
        } else {
            rest
        }
    }
}

/// How `tick` changes the wheel: the slot under the cursor is drained and the
/// cursor advances by exactly one slot, modulo the ring size.
pub open spec fn tick_model(m: WheelModel) -> WheelModel {
    WheelModel {
        cursor: (((m.cursor as int) + 1) % (WHEEL_SIZE as int)) as usize,
        slots: m.slots.update(m.cursor as int, Seq::empty()),
        ..m
    }
}

/// What `tick` returns: the tasks of the non-cancelled entries in the slot
/// under the cursor, in queue order.
pub open spec fn tick_fired(m: WheelModel) -> Seq<usize> {
    fired_tasks(m.recs, m.slots[m.cursor as int])
}

/// The timer wheel. The slots are concurrent FIFO queues holding record
/// indexes; the records themselves live in `recs`, where cancellation marks
/// them.
pub struct TimerWheel {
    cursor: usize,
    next_id: u64,
    slots: Vec<crossbeam::queue::SegQueue<usize>>,
    recs: Vec<TimerRec>,
}

impl View for TimerWheel {
    type V = WheelModel;

    closed spec fn view(&self) -> WheelModel {
        WheelModel {
            cursor: self.cursor,
            next_id: self.next_id,
            slots: self.slots@.map(|i: int, q: crossbeam::queue::SegQueue<usize>| seg_queue_items(q)),
            recs: self.recs@,
        }
    }
}

impl TimerWheel {
    /// A fresh wheel: cursor at slot 0, no pending entries, first id 1.
    pub fn new() -> (w: TimerWheel)
        ensures
            wheel_wf(w@),
            w@.cursor == 0,
            w@.next_id == 1,
            w@.recs == Seq::<TimerRec>::empty(),
            w@.slots.len() == WHEEL_SIZE,
            forall|i: int| 0 <= i < WHEEL_SIZE ==> (#[trigger] w@.slots[i]).len() == 0,
    {
        let mut slots: Vec<crossbeam::queue::SegQueue<usize>> = Vec::new();
        let mut n: usize = 0;
        while n < WHEEL_SIZE
            invariant
                n <= WHEEL_SIZE,
                slots@.len() == n,
                forall|i: int|
                    0 <= i < n ==> seg_queue_items(#[trigger] slots@[i]) == Seq::<usize>::empty(),
            decreases WHEEL_SIZE - n,
        {
            slots.push(seg_queue_new());
            n = n + 1;
        }
        TimerWheel { cursor: 0, next_id: 1, slots, recs: Vec::new() }
    }

    /// Computes the slot a delay expires in, relative to the current cursor.
    pub fn expiration_slot(&self, delay_ms: u64) -> (slot: usize)
        requires
            wheel_wf(self@),
        ensures
            slot == spec_expiration_slot(self@.cursor, delay_ms),
            slot < WHEEL_SIZE,
    {
        let ticks = delay_ms / SLOT_DURATION_MS;
        ((self.cursor as u64 + ticks) % (WHEEL_SIZE as u64)) as usize
    }

    /// Schedules a timer to expire after `delay_ms` milliseconds, waking
    /// `task`. Returns the entry's id and a handle for cancellation. The
    /// entry lands `delay_ms / SLOT_DURATION_MS` slots ahead of the cursor,
    /// modulo the ring size, so delays of a full revolution or more wrap.
    pub fn schedule(&mut self, delay_ms: u64, task: usize) -> (r: (u64, TimerEntry))
        requires
            wheel_wf(old(self)@),
            old(self)@.next_id < u64::MAX,
        ensures
            wheel_wf(final(self)@),
            schedule_post(old(self)@, final(self)@, delay_ms, task, r.0, r.1),
            entry_valid(final(self)@, r.1),
    {
        let ghost m0 = self@;
        let slot = self.expiration_slot(delay_ms);
        let id = self.next_id;
        self.next_id = id + 1;
        let idx = self.recs.len();
        seg_queue_push(&mut self.slots[slot], idx);
        self.recs.push(TimerRec { task, slot, cancelled: false });
        proof {
            vstd::std_specs::vec::axiom_spec_len(&self.recs);
            assert(self@.slots =~~= m0.slots.update(
                slot as int,
                m0.slots[slot as int].push(idx),
            ));
        }
        (id, TimerEntry { id, slot })
    }

    /// Marks the entry cancelled. The entry remains in its slot until that
    /// slot ticks, but it will not fire.
    pub fn cancel(&mut self, entry: &TimerEntry)
        requires
            wheel_wf(old(self)@),
            entry_valid(old(self)@, *entry),
        ensures
            wheel_wf(final(self)@),
            final(self)@ == cancel_model(old(self)@, entry.id),
            final(self)@.recs[entry.id - 1].cancelled,
    {
        let ghost m0 = self@;
        let idx = (entry.id - 1) as usize;
        self.recs[idx].cancelled = true;
        proof {
            assert(self@ =~~= cancel_model(m0, entry.id));
        }
    }

    /// Advances the cursor by exactly one slot, modulo the ring size, after
    /// draining the slot the cursor stood on: every pending entry leaves the
    /// slot, and the tasks of those not cancelled are returned, in queue
    /// order, for the caller to wake.
    pub fn tick(&mut self) -> (fired: Vec<usize>)
        requires
            wheel_wf(old(self)@),
        ensures
            wheel_wf(final(self)@),
            final(self)@ == tick_model(old(self)@),
            fired@ == tick_fired(old(self)@),
    {
        let ghost m0 = self@;
        let cur = self.cursor;
        let ghost q0 = m0.slots[cur as int];
        let mut fired: Vec<usize> = Vec::new();
        let ghost mut i: int = 0;
        loop
            invariant
                wheel_wf(m0),
                cur == m0.cursor,
                cur < WHEEL_SIZE,
                self.cursor == m0.cursor,
                self.next_id == m0.next_id,
                self.recs@ == m0.recs,
                self.slots@.len() == WHEEL_SIZE,
                q0 == m0.slots[cur as int],
                0 <= i <= q0.len(),
                seg_queue_items(self.slots@[cur as int]) == q0.skip(i),
                forall|j: int|
                    0 <= j < WHEEL_SIZE && j != cur ==> seg_queue_items(#[trigger] self.slots@[j])
                        == m0.slots[j],
                fired@ == fired_tasks(m0.recs, q0.take(i)),
            ensures
                seg_queue_items(self.slots@[cur as int]).len() == 0,
                self.cursor == m0.cursor,
                self.next_id == m0.next_id,
                self.recs@ == m0.recs,
                self.slots@.len() == WHEEL_SIZE,
                forall|j: int|
                    0 <= j < WHEEL_SIZE && j != cur ==> seg_queue_items(#[trigger] self.slots@[j])
                        == m0.slots[j],
                fired@ == fired_tasks(m0.recs, q0),
            decreases q0.len() - i,
        {
            let popped = seg_queue_pop(&mut self.slots[cur]);
            match popped {
                None => {
                    proof {
                        assert(q0.skip(i).len() == 0);
                        assert(q0.take(i) =~= q0);
                    }
                    break ;
                },
                Some(idx) => {
                    proof {
                        assert(q0.skip(i)[0] == q0[i]);
                        assert(q0[i] < m0.recs.len() && m0.recs[q0[i] as int].slot == cur as int);
                        assert(q0.skip(i).drop_first() =~= q0.skip(i + 1));
                        assert(q0.take(i + 1) =~= q0.take(i).push(q0[i]));
                    }
                    if !self.recs[idx].cancelled {
                        fired.push(self.recs[idx].task);
                    }
                    proof {
                        lemma_fired_tasks_snoc(m0.recs, q0.take(i), q0[i]);
                        i = i + 1;
                    }
                },
            }
        }
        self.cursor = (cur + 1) % WHEEL_SIZE;
        proof {
            assert(self@.slots =~~= tick_model(m0).slots);
            assert(self@ =~~= tick_model(m0));
        }
        fired
    }
}

impl TimerWheel {
    /// The slot the cursor stands on: the one the next tick drains.
    pub fn cursor(&self) -> (c: usize)
        ensures
            c == self@.cursor,
    {
        self.cursor
    }

    /// The id the next scheduled entry will receive.
    pub fn next_id(&self) -> (id: u64)
        ensures
            id == self@.next_id,
    {
        self.next_id
    }

    /// Whether `entry` is a handle this wheel issued, as `cancel` requires.
    pub fn entry_is_valid(&self, entry: &TimerEntry) -> (r: bool)
        requires
            wheel_wf(self@),
        ensures
            r == entry_valid(self@, *entry),
    {
        entry.id >= 1 && entry.id <= self.recs.len() as u64 && self.recs[(entry.id
            - 1) as usize].slot == entry.slot
    }
}

impl TimerEntry {
    /// Marks this entry cancelled in the wheel that issued it: its waker will
    /// not be invoked when its slot ticks.
    pub fn cancel(&self, wheel: &mut TimerWheel)
        requires
            wheel_wf(old(wheel)@),
            entry_valid(old(wheel)@, *self),
        ensures
            wheel_wf(final(wheel)@),
            final(wheel)@ == cancel_model(old(wheel)@, self.id),
            final(wheel)@.recs[self.id - 1].cancelled,
    {
        wheel.cancel(self)
    }
}

/// Ids are assigned strictly increasing: of two entries scheduled one after
/// the other, the second's id is exactly one more than the first's.
pub proof fn lemma_ids_strictly_increase(
    m0: WheelModel,
    m1: WheelModel,
    m2: WheelModel,
    d1: u64,
    t1: usize,
    id1: u64,
    e1: TimerEntry,
    d2: u64,
    t2: usize,
    id2: u64,
    e2: TimerEntry,
)
    requires
        schedule_post(m0, m1, d1, t1, id1, e1),
        schedule_post(m1, m2, d2, t2, id2, e2),
    ensures
        id2 == id1 + 1,
{
}

/// Draining a queue extended by one index fires the extension's task exactly
/// when its record is present and not cancelled.
pub proof fn lemma_fired_tasks_snoc(recs: Seq<TimerRec>, q: Seq<usize>, x: usize)
    ensures
        fired_tasks(recs, q.push(x)) == if x < recs.len() && !recs[x as int].cancelled {
            fired_tasks(recs, q).push(recs[x as int].task)
        } else {
            fired_tasks(recs, q)
        },
    decreases q.len(),
{
    if q.len() == 0 {
        assert(q.push(x).drop_first() =~= q);
        if x < recs.len() && !recs[x as int].cancelled {
            assert(seq![recs[x as int].task] + fired_tasks(recs, q) =~= fired_tasks(
                recs,
                q,
            ).push(recs[x as int].task));
        }
    } else {
        assert(q.push(x).drop_first() =~= q.drop_first().push(x));
        lemma_fired_tasks_snoc(recs, q.drop_first(), x);
        if x < recs.len() && !recs[x as int].cancelled {
            if q[0] < recs.len() && !recs[q[0] as int].cancelled {
                assert(seq![recs[q[0] as int].task] + fired_tasks(recs, q.drop_first()).push(
                    recs[x as int].task,
                ) =~= (seq![recs[q[0] as int].task] + fired_tasks(recs, q.drop_first())).push(
                    recs[x as int].task,
                ));
            }
        }
    }
}

/// A cancelled timer never fires: an entry whose record is marked cancelled
/// contributes nothing to the tasks a drain reports.
pub proof fn lemma_cancelled_timer_silent(recs: Seq<TimerRec>, q: Seq<usize>, idx: usize)
    requires
        idx < recs.len(),
        recs[idx as int].cancelled,
    ensures
        fired_tasks(recs, q.push(idx)) == fired_tasks(recs, q),
{
    lemma_fired_tasks_snoc(recs, q, idx);
}

/// Schedule, then cancel, then tick invokes no waker: on a wheel with no
/// other pending entries, the tick after a schedule-then-cancel fires
/// nothing, whatever the delay was.
pub proof fn lemma_schedule_cancel_tick_quiet(
    m0: WheelModel,
    m1: WheelModel,
    delay_ms: u64,
    task: usize,
    id: u64,
    entry: TimerEntry,
)
    requires
        wheel_wf(m0),
        forall|i: int| 0 <= i < m0.slots.len() ==> (#[trigger] m0.slots[i]).len() == 0,
        schedule_post(m0, m1, delay_ms, task, id, entry),
    ensures
        tick_fired(cancel_model(m1, id)) == Seq::<usize>::empty(),
{
    let m2 = cancel_model(m1, id);
    let slot = spec_expiration_slot(m0.cursor, delay_ms);
    let idx = m0.recs.len() as usize;
    assert(m2.slots == m1.slots);
    assert(m2.cursor == m0.cursor);
    assert(fired_tasks(m2.recs, Seq::<usize>::empty()) == Seq::<usize>::empty());
    if m0.cursor == slot {
        assert(m2.slots[m2.cursor as int] == m0.slots[slot as int].push(idx));
        assert(m0.slots[slot as int].push(idx) =~= seq![idx]);
        assert(m2.recs[idx as int].cancelled);
        assert(seq![idx].drop_first() =~= Seq::<usize>::empty());
        assert(tick_fired(m2) == fired_tasks(m2.recs, seq![idx]));
        assert(tick_fired(m2) == Seq::<usize>::empty());
    } else {
        assert(m2.slots[m2.cursor as int] == m0.slots[m0.cursor as int]);
        assert(m0.slots[m0.cursor as int].len() == 0);
        assert(tick_fired(m2) == Seq::<usize>::empty());
    }
}

/// A timer scheduled with a delay shorter than one slot (delay 0 included)
/// fires on the very next tick: on a wheel with no other pending entries,
/// that tick reports exactly the scheduled task.
pub proof fn lemma_zero_delay_fires_next_tick(
    m0: WheelModel,
    m1: WheelModel,
    delay_ms: u64,
    task: usize,
    id: u64,
    entry: TimerEntry,
)
    requires
        wheel_wf(m0),
        forall|i: int| 0 <= i < m0.slots.len() ==> (#[trigger] m0.slots[i]).len() == 0,
        schedule_post(m0, m1, delay_ms, task, id, entry),
        delay_ms < SLOT_DURATION_MS,
    ensures
        tick_fired(m1) == seq![task],
{
    let slot = spec_expiration_slot(m0.cursor, delay_ms);
    let idx = m0.recs.len() as usize;
    assert(delay_ms as int / SLOT_DURATION_MS as int == 0);
    assert(slot == m0.cursor);
    assert(m1.slots[m1.cursor as int] == m0.slots[slot as int].push(idx));
    assert(m0.slots[slot as int].push(idx) =~= seq![idx]);
    assert(m1.recs[idx as int] == (TimerRec { task, slot, cancelled: false }));
    assert(seq![idx].drop_first() =~= Seq::<usize>::empty());
    assert(fired_tasks(m1.recs, Seq::<usize>::empty()) == Seq::<usize>::empty());
    assert(tick_fired(m1) == fired_tasks(m1.recs, seq![idx]));
    assert(seq![m1.recs[idx as int].task] + Seq::<usize>::empty() =~= seq![task]);
    assert(tick_fired(m1) =~= seq![task]);
}

/// The nominal distance of a delay, in ticks of the wheel.
pub open spec fn delay_ticks(delay_ms: u64) -> int {
    (delay_ms as int) / (SLOT_DURATION_MS as int)
}

/// How many ticks after `cursor` the slot `slot` comes up.
pub open spec fn ticks_until(cursor: usize, slot: usize) -> int {
    ((slot as int) - (cursor as int)) % (WHEEL_SIZE as int)
}

/// A delay of a full revolution or more wraps into a nearer slot: the entry
/// comes up after `delay_ticks % WHEEL_SIZE` ticks, strictly fewer than the
/// delay asked for.
pub proof fn lemma_long_delay_wraps(
    m0: WheelModel,
    m1: WheelModel,
    delay_ms: u64,
    task: usize,
    id: u64,
    entry: TimerEntry,
)
    requires
        wheel_wf(m0),
        schedule_post(m0, m1, delay_ms, task, id, entry),
        delay_ms >= WHEEL_SIZE as u64 * SLOT_DURATION_MS,
    ensures
        ticks_until(m1.cursor, entry.slot) == delay_ticks(delay_ms) % (WHEEL_SIZE as int),
        ticks_until(m1.cursor, entry.slot) < delay_ticks(delay_ms),
{
    let w = WHEEL_SIZE as int;
    let c = m0.cursor as int;
    let t = delay_ticks(delay_ms);
    let slot = spec_expiration_slot(m0.cursor, delay_ms);
    lemma_fundamental_div_mod(c + t, w);
    let k = (c + t) / w;
    assert(c + t == w * k + (c + t) % w);
    assert(slot as int - c == t - w * k);
    lemma_mod_multiples_vanish(-k, t, w);
    assert((slot as int - c) % w == t % w);
    lemma_div_is_ordered(WHEEL_SIZE as u64 * SLOT_DURATION_MS as int, delay_ms as int, SLOT_DURATION_MS as int);
    assert(t >= w);
    assert(t % w < w);
}

} // verus!
