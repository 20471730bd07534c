//! The bounded frame queue of the `crossbeam-queue` crate, as the recorder
//! uses it: first in, first out, never more frames than it was made for.

use vstd::prelude::*;
use crate::frame::{FrameData, FrameView};

verus! {

/// The most frames a queue may be made for.
pub const MAX_QUEUE_CAPACITY: usize = 1_048_576;

/// `crossbeam_queue::ArrayQueue`, opaque to the verifier.
#[verifier::external_type_specification]
#[verifier::external_body]
#[verifier::reject_recursive_types(T)]
pub struct ExArrayQueue<T>(crossbeam_queue::ArrayQueue<T>);

/// The frames in a queue, the next to leave first.
pub uninterp spec fn queue_frames(q: crossbeam_queue::ArrayQueue<FrameData>) -> Seq<FrameView>;

/// The number of frames a queue was made for.
pub uninterp spec fn queue_capacity(q: crossbeam_queue::ArrayQueue<FrameData>) -> nat;

/// Calls `ArrayQueue::new`. Trusted: the new queue is empty and has the
/// capacity asked for. The call panics on a capacity of zero and on one too
/// large for its lap counter; `MAX_QUEUE_CAPACITY` is far below the latter.
#[verifier::external_body]
pub(crate) fn queue_new(capacity: usize) -> (q: crossbeam_queue::ArrayQueue<FrameData>)
    requires
        0 < capacity <= MAX_QUEUE_CAPACITY,
    ensures
        queue_frames(q) == Seq::<FrameView>::empty(),
        queue_capacity(q) == capacity,
{
    crossbeam_queue::ArrayQueue::new(capacity)
}

/// Calls `ArrayQueue::push_mut`. Trusted: a queue that is not full takes the
/// frame at its back; a full queue is left as it was and hands the frame back.
#[verifier::external_body]
pub(crate) fn queue_push(q: &mut crossbeam_queue::ArrayQueue<FrameData>, frame: FrameData) -> (r:
    Result<(), FrameData>)
    ensures
        queue_capacity(*final(q)) == queue_capacity(*old(q)),
        queue_frames(*old(q)).len() < queue_capacity(*old(q)) ==> r is Ok && queue_frames(
            *final(q),
        ) == queue_frames(*old(q)).push(frame@),
        queue_frames(*old(q)).len() >= queue_capacity(*old(q)) ==> r is Err && r->Err_0@
            == frame@ && queue_frames(*final(q)) == queue_frames(*old(q)),
{
    q.push_mut(frame)
}

/// Calls `ArrayQueue::pop_mut`. Trusted: a queue that is not empty gives up
/// the frame at its front; an empty queue gives none.
#[verifier::external_body]
pub(crate) fn queue_pop(q: &mut crossbeam_queue::ArrayQueue<FrameData>) -> (r: Option<FrameData>)
    ensures
        queue_capacity(*final(q)) == queue_capacity(*old(q)),
        match r {
            Some(frame) => queue_frames(*old(q)).len() > 0 && frame@ == queue_frames(*old(q))[0]
                && queue_frames(*final(q)) == queue_frames(*old(q)).drop_first(),
            None => queue_frames(*old(q)).len() == 0 && queue_frames(*final(q)) == queue_frames(
                *old(q),
            ),
        },
{
    q.pop_mut()
}

/// Calls `ArrayQueue::len`. Trusted: the result is the number of frames in
/// the queue, which is never beyond its capacity.
#[verifier::external_body]
pub(crate) fn queue_len(q: &crossbeam_queue::ArrayQueue<FrameData>) -> (n: usize)
    ensures
        n == queue_frames(*q).len(),
        n <= queue_capacity(*q),
{
    q.len()
}

} // verus!
