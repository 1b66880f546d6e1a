//! The queues of `crossbeam_queue` that hold packet buffers: the unbounded
//! `SegQueue` of the engine's staging queues and the bounded `ArrayQueue` of
//! the packetiser. Their code is not verified here. This file says what the
//! library relies on; everything else in the library is proved from it.

use vstd::prelude::*;
use crossbeam_queue::{ArrayQueue, SegQueue};
use crate::mbuf::Mbuf;

verus! {

/// `crossbeam_queue::SegQueue`, as a type that can stand in fields and
/// signatures. Nothing is known of what is inside but through [`queued`].
#[verifier::external_type_specification]
#[verifier::external_body]
#[verifier::reject_recursive_types(T)]
pub struct ExSegQueue<T>(SegQueue<T>);

/// `crossbeam_queue::ArrayQueue`, as a type that can stand in fields and
/// signatures. Nothing is known of what is inside but through [`held`] and
/// [`bound`].
#[verifier::external_type_specification]
#[verifier::external_body]
#[verifier::reject_recursive_types(T)]
pub struct ExArrayQueue<T>(ArrayQueue<T>);

/// The buffers in an unbounded queue, oldest first.
pub uninterp spec fn queued(q: SegQueue<Mbuf>) -> Seq<Mbuf>;

/// The buffers in a bounded queue, oldest first.
pub uninterp spec fn held(q: ArrayQueue<Mbuf>) -> Seq<Mbuf>;

/// The number of buffers that a bounded queue was made for.
pub uninterp spec fn bound(q: ArrayQueue<Mbuf>) -> usize;

/// Largest bound that a queue can be made with. Beyond it the making of a
/// queue panics: the number after the bound must have a power of two above
/// it among the machine numbers, and the slots, of no more than sixty-four
/// bytes each, must fit one allocation.
pub const MAX_QUEUE: usize = usize::MAX / 128;

/// No buffers.
pub open spec fn no_buffers() -> Seq<Mbuf> {
    Seq::empty()
}

/// What a queue hands out next, if it holds anything.
pub open spec fn head_of(items: Seq<Mbuf>) -> Option<Mbuf> {
    if items.len() > 0 {
        Some(items[0])
    } else {
        None
    }
}

/// What is left of a queue after it handed out its head.
pub open spec fn tail_of(items: Seq<Mbuf>) -> Seq<Mbuf> {
    if items.len() > 0 {
        items.subrange(1, items.len() as int)
    } else {
        items
    }
}

/// What a push on a bounded queue answers: the buffer comes back when the
/// queue is full.
pub open spec fn push_outcome(items: Seq<Mbuf>, bound: usize, value: Mbuf) -> Result<(), Mbuf> {
    if items.len() < bound {
        Ok(())
    } else {
        Err(value)
    }
}

/// A bounded queue after a push: unchanged when it is full.
pub open spec fn after_push(items: Seq<Mbuf>, bound: usize, value: Mbuf) -> Seq<Mbuf> {
    if items.len() < bound {
        items.push(value)
    } else {
        items
    }
}

/// `crossbeam_queue::SegQueue::new`. Claimed: the new queue holds nothing.
#[verifier::external_body]
pub(crate) fn seg_new() -> (q: SegQueue<Mbuf>)
    ensures
        queued(q) == no_buffers(),
{
    SegQueue::new()
}

/// `crossbeam_queue::SegQueue::push`. Claimed: the buffer is appended at the
/// tail, and nothing else in the queue changes.
#[verifier::external_body]
pub(crate) fn seg_push(q: &mut SegQueue<Mbuf>, value: Mbuf)
    ensures
        queued(*final(q)) == queued(*old(q)).push(value),
{
    q.push(value)
}

/// `crossbeam_queue::SegQueue::pop`. Claimed: the buffer at the head is
/// taken out and returned, the rest keeps its order; an empty queue returns
/// `None` and stays empty.
#[verifier::external_body]
pub(crate) fn seg_pop(q: &mut SegQueue<Mbuf>) -> (r: Option<Mbuf>)
    ensures
        r == head_of(queued(*old(q))),
        queued(*final(q)) == tail_of(queued(*old(q))),
{
    q.pop()
}

/// `crossbeam_queue::SegQueue::len`. Claimed: the result is the number of
/// buffers in the queue. (No other thread works on the queue meanwhile: the
/// library holds it exclusively.)
#[verifier::external_body]
pub(crate) fn seg_len(q: &SegQueue<Mbuf>) -> (n: usize)
    ensures
        n == queued(*q).len(),
{
    q.len()
}

/// `crossbeam_queue::ArrayQueue::new`. Claimed: the new queue holds nothing
/// and is made for `cap` buffers. The function panics when `cap` is zero or
/// too large, which the precondition rules out: it is too large when the
/// slots do not fit one allocation, or when `cap + 1` has no power of two
/// above it.
#[verifier::external_body]
pub(crate) fn aq_new(cap: usize) -> (q: ArrayQueue<Mbuf>)
    requires
        0 < cap <= MAX_QUEUE,
    ensures
        held(q) == no_buffers(),
        bound(q) == cap,
{
    ArrayQueue::new(cap)
}

/// `crossbeam_queue::ArrayQueue::push`. Claimed: while the queue holds fewer
/// buffers than it was made for, the buffer is appended at the tail;
/// otherwise the buffer comes back as the error and the queue is unchanged.
/// What the queue was made for never changes.
#[verifier::external_body]
pub(crate) fn aq_push(q: &mut ArrayQueue<Mbuf>, value: Mbuf) -> (r: Result<(), Mbuf>)
    ensures
        r == push_outcome(held(*old(q)), bound(*old(q)), value),
        held(*final(q)) == after_push(held(*old(q)), bound(*old(q)), value),
        bound(*final(q)) == bound(*old(q)),
{
    q.push(value)
}

/// `crossbeam_queue::ArrayQueue::pop`. Claimed: the buffer at the head is
/// taken out and returned, the rest keeps its order; an empty queue returns
/// `None` and stays empty. What the queue was made for never changes.
#[verifier::external_body]
pub(crate) fn aq_pop(q: &mut ArrayQueue<Mbuf>) -> (r: Option<Mbuf>)
    ensures
        r == head_of(held(*old(q))),
        held(*final(q)) == tail_of(held(*old(q))),
        bound(*final(q)) == bound(*old(q)),
{
    q.pop()
}

/// `crossbeam_queue::ArrayQueue::len`. Claimed: the result is the number of
/// buffers in the queue, which is never more than the queue was made for.
#[verifier::external_body]
pub(crate) fn aq_len(q: &ArrayQueue<Mbuf>) -> (n: usize)
    ensures
        n == held(*q).len(),
        n <= bound(*q),
{
    q.len()
}

/// `crossbeam_queue::ArrayQueue::capacity`. Claimed: the result is the number
/// of buffers that the queue was made for.
#[verifier::external_body]
pub(crate) fn aq_capacity(q: &ArrayQueue<Mbuf>) -> (n: usize)
    ensures
        n == bound(*q),
{
    q.capacity()
}

} // verus!
