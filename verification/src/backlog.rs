//! Queue of readings between the sensors and the stream sender.

use heapless::spsc::Queue;
use vstd::prelude::*;

use crate::wire::SensorData;

verus! {

/// Slots of the queue; one of them always stays free.
pub const QUEUE_SLOTS: usize = 60;

/// How many readings the queue holds: about half an hour of them.
pub const QUEUE_CAPACITY: usize = 59;

/// Readings to be sent.
pub type SensorQueue = Queue<SensorData, QUEUE_SLOTS>;

/// A queue of fixed capacity of the `heapless` crate.
#[verifier::external_type_specification]
#[verifier::external_body]
#[verifier::reject_recursive_types(T)]
pub struct ExHeaplessQueue<T, const N: usize>(heapless::spsc::Queue<T, N>);

/// What a queue holds, oldest first.
pub uninterp spec fn queue_rows(q: SensorQueue) -> Seq<SensorData>;

/// Calls `heapless::spsc::Queue::new`: the new queue is empty.
#[verifier::external_body]
pub(crate) fn queue_new() -> (q: SensorQueue)
    ensures
        queue_rows(q) == Seq::<SensorData>::empty(),
{
    SensorQueue::new()
}

/// Calls `heapless::spsc::Queue::enqueue`: a queue with room takes the row at
/// its end, a full one is left as it was and hands the row back.
#[verifier::external_body]
pub(crate) fn enqueue(q: &mut SensorQueue, row: SensorData) -> (r: Result<(), SensorData>)
    ensures
        (r is Ok <==> queue_rows(*old(q)).len() < QUEUE_CAPACITY),
        r is Ok ==> queue_rows(*final(q)) == queue_rows(*old(q)).push(row),
        r is Err ==> queue_rows(*final(q)) == queue_rows(*old(q)),
        r is Err ==> queue_rows(*old(q)).len() == QUEUE_CAPACITY,
        r is Err ==> r->Err_0 == row,
{
    q.enqueue(row)
}

/// Calls `heapless::spsc::Queue::dequeue`: the oldest row leaves, if there is
/// any.
#[verifier::external_body]
pub(crate) fn dequeue(q: &mut SensorQueue) -> (r: Option<SensorData>)
    ensures
        (r is Some <==> queue_rows(*old(q)).len() > 0),
        r is Some ==> r->0 == queue_rows(*old(q))[0],
        r is Some ==> queue_rows(*final(q)) == queue_rows(*old(q)).drop_first(),
        r is None ==> queue_rows(*final(q)) == queue_rows(*old(q)),
{
    q.dequeue()
}

/// A queue without readings.
pub fn empty_queue() -> (queue: SensorQueue)
    ensures
        queue_rows(queue) == Seq::<SensorData>::empty(),
{
    queue_new()
}

/// Puts a reading at the end. A full queue lets its oldest reading go and
/// returns it: a loss is counted, never silent.
pub fn push_evicting(queue: &mut SensorQueue, reading: SensorData) -> (evicted: Option<SensorData>)
    ensures
        queue_rows(*old(queue)).len() < QUEUE_CAPACITY ==> evicted is None && queue_rows(*final(queue))
            == queue_rows(*old(queue)).push(reading),
        queue_rows(*old(queue)).len() >= QUEUE_CAPACITY ==> evicted == Some(queue_rows(*old(queue))[0])
            && queue_rows(*final(queue)) == queue_rows(*old(queue)).drop_first().push(reading),
        queue_rows(*final(queue)).len() <= QUEUE_CAPACITY,
{
    match enqueue(queue, reading) {
        Ok(()) => None,
        Err(reading) => {
            let evicted = dequeue(queue);
            let _stored = enqueue(queue, reading);
            evicted
        },
    }
}

/// No reading is lost unseen: what was queued and what is added is what is
/// evicted and what is queued afterwards.
pub proof fn eviction_loses_nothing(
    before: Seq<SensorData>,
    reading: SensorData,
    evicted: Option<SensorData>,
    after: Seq<SensorData>,
)
    requires
        before.len() < QUEUE_CAPACITY ==> evicted is None && after == before.push(reading),
        before.len() >= QUEUE_CAPACITY ==> evicted == Some(before[0]) && after == before.drop_first().push(reading),
    ensures
        before.push(reading) == match evicted {
            Some(e) => seq![e] + after,
            None => after,
        },
{
    if before.len() >= QUEUE_CAPACITY {
        assert(before.push(reading) =~= seq![before[0]] + before.drop_first().push(reading));
    }
}

} // verus!
