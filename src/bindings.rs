//! Calls into std's clock, the `queues` crate and `rand`, with the contracts
//! this library relies on.
use vstd::prelude::*;
use queues::{IsQueue, Queue};
use rand::rngs::ThreadRng;
use rand::Rng;
use std::time::{Duration, Instant};

verus! {

#[verifier::external_type_specification]
#[verifier::external_body]
pub struct ExInstant(Instant);

/// Relies on std's `Instant::now`: a reading of the monotonic clock.
pub assume_specification[ Instant::now ]() -> Instant;

/// Relies on std's `Instant::elapsed`: the time passed since the reading.
pub assume_specification[ Instant::elapsed ](instant: &Instant) -> Duration;

/// Relies on std's `Duration::as_secs`: the whole seconds of a duration.
pub assume_specification[ Duration::as_secs ](duration: &Duration) -> u64;

#[verifier::external_type_specification]
#[verifier::external_body]
#[verifier::reject_recursive_types(T)]
pub struct ExQueue<T: Clone>(Queue<T>);

/// The values held by a queue of coordinates, oldest first.
pub uninterp spec fn queued(q: Queue<(i32, i32)>) -> Seq<(i32, i32)>;

/// Relies on `queues::Queue::new`: a new queue holds nothing.
#[verifier::external_body]
pub(crate) fn new_queue() -> (q: Queue<(i32, i32)>)
    ensures
        queued(q) == Seq::<(i32, i32)>::empty(),
{
    Queue::new()
}

/// Relies on `queues::IsQueue::add` for `Queue`: the value joins at the back
/// (the call always succeeds).
#[verifier::external_body]
pub(crate) fn queue_add(q: &mut Queue<(i32, i32)>, v: (i32, i32))
    ensures
        queued(*final(q)) == queued(*old(q)).push(v),
{
    let _ = q.add(v);
}

/// Relies on `queues::IsQueue::remove` for `Queue`: the oldest value leaves and
/// is returned; an empty queue gives an error and stays empty.
#[verifier::external_body]
pub(crate) fn queue_remove(q: &mut Queue<(i32, i32)>) -> (r: Option<(i32, i32)>)
    ensures
        queued(*old(q)).len() == 0 ==> r is None && queued(*final(q)) == queued(*old(q)),
        queued(*old(q)).len() > 0 ==> r == Some(queued(*old(q))[0]) && queued(*final(q))
            == queued(*old(q)).drop_first(),
{
    q.remove().ok()
}

#[verifier::external_type_specification]
#[verifier::external_body]
pub struct ExThreadRng(ThreadRng);

/// Relies on `rand::thread_rng`: a handle on the thread's random generator.
pub assume_specification[ rand::thread_rng ]() -> ThreadRng;

/// Relies on `rand::Rng::gen_ratio`: a random `bool` that is true with
/// probability `numerator / denominator`. It panics unless `0 < denominator`
/// and `numerator <= denominator`.
#[verifier::external_body]
pub(crate) fn draw_ratio(rng: &mut ThreadRng, numerator: u32, denominator: u32) -> bool
    requires
        0 < denominator,
        numerator <= denominator,
{
    rng.gen_ratio(numerator, denominator)
}

} // verus!
