//! The ready queues: first-in first-out queues of job identifiers, one per
//! priority, each a `crossbeam` worker queue owned by the job system.

use crossbeam::deque::Worker;
use vstd::prelude::*;

verus! {

/// `crossbeam::deque::Worker`, a queue owned by one thread. The job system
/// never hands out a stealer, so nothing but the owner touches a queue.
#[verifier::external_type_specification]
#[verifier::external_body]
#[verifier::reject_recursive_types(T)]
pub struct ExWorker<T>(Worker<T>);

/// The identifiers waiting in a queue, the next to leave first.
pub uninterp spec fn queued(queue: Worker<u64>) -> Seq<u64>;

/// `Worker::new_fifo`: an empty queue that hands out what was pushed first.
#[verifier::external_body]
pub(crate) fn queue_new() -> (queue: Worker<u64>)
    ensures
        queued(queue).len() == 0,
{
    Worker::new_fifo()
}

/// `Worker::push`: appends `id` behind all that wait.
#[verifier::external_body]
pub(crate) fn queue_push(queue: &mut Worker<u64>, id: u64)
    ensures
        queued(*final(queue)) == queued(*old(queue)).push(id),
{
    queue.push(id);
}

/// `Worker::pop` on a first-in first-out queue without stealers, as
/// `queue_new` makes them and the job system keeps them: takes the identifier
/// that has waited longest, or returns `None` when the queue is empty.
#[verifier::external_body]
pub(crate) fn queue_pop(queue: &mut Worker<u64>) -> (id: Option<u64>)
    ensures
        match id {
            Some(v) => queued(*old(queue)).len() > 0 && v == queued(*old(queue))[0] && queued(
                *final(queue),
            ) == queued(*old(queue)).drop_first(),
            None => queued(*old(queue)).len() == 0 && queued(*final(queue)) == queued(
                *old(queue),
            ),
        },
{
    queue.pop()
}

/// `Worker::len`: the number of identifiers that wait.
#[verifier::external_body]
pub(crate) fn queue_len(queue: &Worker<u64>) -> (n: usize)
    ensures
        n == queued(*queue).len(),
{
    queue.len()
}

} // verus!
