//! Trusted boundary around the outside priority structure.
//!
//! The scheduler keeps its entries in `priority_queue::PriorityQueue`, a
//! max-priority queue keyed by item.  The queue deduplicates its keys, but
//! the scheduler must track duplicate identifiers as separate entries, so
//! an item here is an identifier together with a per-copy serial; distinct
//! serials keep the copies apart.  Priorities are expiration instants
//! wrapped in `core::cmp::Reverse`, so the greatest priority is the soonest
//! instant.  The queue's contents are named by [`queue_entries`], a map
//! from an entry's identifier bytes and serial to the instant it was
//! stored under, and each method the scheduler calls is wrapped with a
//! contract stating, over that map, what `priority_queue` documents the
//! method to do.
use vstd::prelude::*;

use crate::expire_queue::UploadId;
use core::cmp::Reverse;
use priority_queue::PriorityQueue;
use std::hash::RandomState;

verus! {

#[verifier::external_type_specification]
#[verifier::external_body]
#[verifier::reject_recursive_types(T)]
pub struct ExReverse<T>(Reverse<T>);

#[verifier::external_type_specification]
#[verifier::external_body]
#[verifier::reject_recursive_types(I)]
#[verifier::reject_recursive_types(P)]
#[verifier::reject_recursive_types(H)]
pub struct ExPriorityQueue<I, P, H>(PriorityQueue<I, P, H>);

/// What the queue holds: each stored entry — an identifier's bytes paired
/// with its copy serial — mapped to the instant it was stored under.  The
/// queue keys by the whole item, so one entry per (identifier, serial)
/// pair.
pub uninterp spec fn queue_entries(
    q: PriorityQueue<(UploadId, u64), Reverse<u64>, RandomState>,
) -> Map<(Seq<u8>, u64), u64>;

/// The entries of a queue with nothing stored in it.
pub open spec fn no_entries() -> Map<(Seq<u8>, u64), u64> {
    Map::empty()
}

/// Relies on `PriorityQueue::new`: the queue starts empty.
#[verifier::external_body]
pub(crate) fn pq_new() -> (r: PriorityQueue<(UploadId, u64), Reverse<u64>, RandomState>)
    ensures
        queue_entries(r) == no_entries(),
{
    PriorityQueue::new()
}

/// Relies on `PriorityQueue::push`: stores the item under the given
/// priority, replacing the item's old priority if the same identifier and
/// serial were already present.
#[verifier::external_body]
pub(crate) fn pq_push(
    q: &mut PriorityQueue<(UploadId, u64), Reverse<u64>, RandomState>,
    id: UploadId,
    serial: u64,
    pri: u64,
)
    ensures
        queue_entries(*final(q)) == queue_entries(*old(q)).insert((id@, serial), pri),
{
    q.push((id, serial), Reverse(pri));
}

/// Relies on `PriorityQueue::contains`: whether an entry with this
/// identifier and serial is stored.
#[verifier::external_body]
pub(crate) fn pq_has(
    q: &PriorityQueue<(UploadId, u64), Reverse<u64>, RandomState>,
    id: UploadId,
    serial: u64,
) -> (r: bool)
    ensures
        r == queue_entries(*q).dom().contains((id@, serial)),
{
    q.contains(&(id, serial))
}

/// Relies on `PriorityQueue::peek`: returns an entry carrying the greatest
/// priority — under `Reverse`, the least instant — or `None` exactly when
/// the queue is empty.  Which entry is returned when instants tie is left
/// open.
#[verifier::external_body]
pub(crate) fn pq_peek(q: &PriorityQueue<(UploadId, u64), Reverse<u64>, RandomState>) -> (r: Option<
    ((UploadId, u64), u64),
>)
    ensures
        match r {
            None => queue_entries(*q) == no_entries(),
            Some(p) => queue_entries(*q).contains_pair((p.0.0@, p.0.1), p.1) && (forall|
                k: (Seq<u8>, u64),
            |
                queue_entries(*q).dom().contains(k) ==> p.1 <= queue_entries(*q)[k]),
        },
{
    match q.peek() {
        None => None,
        Some((i, p)) => Some((*i, p.0)),
    }
}

/// Relies on `PriorityQueue::pop`: removes and returns an entry carrying
/// the greatest priority — the least instant — or `None` exactly when the
/// queue is empty.  Which entry leaves when instants tie is left open.
#[verifier::external_body]
pub(crate) fn pq_pop(q: &mut PriorityQueue<(UploadId, u64), Reverse<u64>, RandomState>) -> (r:
    Option<((UploadId, u64), u64)>)
    ensures
        match r {
            None => queue_entries(*old(q)) == no_entries() && queue_entries(
                *final(q),
            ) == queue_entries(*old(q)),
            Some(p) => queue_entries(*old(q)).contains_pair((p.0.0@, p.0.1), p.1) && (forall|
                k: (Seq<u8>, u64),
            |
                queue_entries(*old(q)).dom().contains(k) ==> p.1 <= queue_entries(*old(q))[k])
                && queue_entries(*final(q)) == queue_entries(*old(q)).remove((p.0.0@, p.0.1)),
        },
{
    match q.pop() {
        None => None,
        Some((i, p)) => Some((i, p.0)),
    }
}

/// Relies on `PriorityQueue::len`: the number of stored entries.
#[verifier::external_body]
pub(crate) fn pq_len(q: &PriorityQueue<(UploadId, u64), Reverse<u64>, RandomState>) -> (n: usize)
    ensures
        n as nat == queue_entries(*q).dom().len(),
{
    q.len()
}

} // verus!
