//! The ready queue and the timer-wheel slots are unbounded FIFO queues of
//! `crossbeam::queue::SegQueue`. Verified code sees such a queue through
//! `seg_queue_items`, the sequence of its elements from front to back, and
//! through the wrappers below, whose contracts state what the queue's own
//! source shows of `new`, `push`, `pop` and `is_empty`.

use vstd::prelude::*;

verus! {

#[verifier::external_type_specification]
#[verifier::external_body]
#[verifier::reject_recursive_types(T)]
pub struct ExSegQueue<T>(crossbeam::queue::SegQueue<T>);

/// The elements of the queue, front first.
pub uninterp spec fn seg_queue_items(q: crossbeam::queue::SegQueue<usize>) -> Seq<usize>;

/// Relies on `SegQueue::new`: a freshly created queue is empty.
#[verifier::external_body]
pub(crate) fn seg_queue_new() -> (q: crossbeam::queue::SegQueue<usize>)
    ensures
        seg_queue_items(q) == Seq::<usize>::empty(),
{
    crossbeam::queue::SegQueue::new()
}

/// Relies on `SegQueue::push`: appends one element at the back.
#[verifier::external_body]
pub(crate) fn seg_queue_push(q: &mut crossbeam::queue::SegQueue<usize>, v: usize)
    ensures
        seg_queue_items(*final(q)) == seg_queue_items(*old(q)).push(v),
{
    q.push(v);
}

/// Relies on `SegQueue::pop`: removes and returns the front element, or
/// returns `None` and leaves the queue empty if it holds nothing.
#[verifier::external_body]
pub(crate) fn seg_queue_pop(q: &mut crossbeam::queue::SegQueue<usize>) -> (r: Option<usize>)
    ensures
        seg_queue_items(*old(q)).len() == 0 ==> r == None::<usize> && seg_queue_items(
            *final(q),
        ) == seg_queue_items(*old(q)),
        seg_queue_items(*old(q)).len() > 0 ==> r == Some(seg_queue_items(*old(q))[0])
            && seg_queue_items(*final(q)) == seg_queue_items(*old(q)).drop_first(),
{
    q.pop()
}

/// Relies on `SegQueue::is_empty`: true exactly when the queue holds nothing.
#[verifier::external_body]
pub(crate) fn seg_queue_is_empty(q: &crossbeam::queue::SegQueue<usize>) -> (r: bool)
    ensures
        r == (seg_queue_items(*q).len() == 0),
{
    q.is_empty()
}

} // verus!
