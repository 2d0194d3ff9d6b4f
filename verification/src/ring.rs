//! The fixed-capacity ring buffer that stores the time slots.
//!
//! The buffer itself is `arraydeque::ArrayDeque` with wrapping writes. Nothing
//! in this module is proved: each function states what the corresponding
//! method of the buffer does, and the rest of the library is verified against
//! these statements.

use crate::consts::TIMESERIES_LENGTH;
use crate::structs::PingResultNoIP;
use arraydeque::{ArrayDeque, Wrapping};
use vstd::prelude::*;

verus! {

/// A wrapping `ArrayDeque` with room for `TIMESERIES_LENGTH` time slots.
#[verifier::external_body]
pub struct Ring {
    inner: ArrayDeque<[PingResultNoIP; TIMESERIES_LENGTH], Wrapping>,
}

/// The slots that a ring holds, front (oldest) first.
pub uninterp spec fn ring_slots(ring: Ring) -> Seq<PingResultNoIP>;

/// `ArrayDeque::new`: the new ring holds no slot.
#[verifier::external_body]
pub(crate) fn ring_new() -> (ring: Ring)
    ensures
        ring_slots(ring).len() == 0,
{
    Ring { inner: ArrayDeque::new() }
}

/// `ArrayDeque::len`: the number of slots held.
#[verifier::external_body]
pub(crate) fn ring_len(ring: &Ring) -> (n: usize)
    ensures
        n == ring_slots(*ring).len(),
{
    ring.inner.len()
}

/// `ArrayDeque::<_, Wrapping>::push_back`: the slot is appended at the back.
/// A ring that is full first gives up its front slot, which is returned.
#[verifier::external_body]
pub(crate) fn ring_push_back(ring: &mut Ring, slot: PingResultNoIP) -> (evicted: Option<
    PingResultNoIP,
>)
    ensures
        ring_slots(*old(ring)).len() < TIMESERIES_LENGTH ==> evicted.is_none() && ring_slots(
            *final(ring),
        ) == ring_slots(*old(ring)).push(slot),
        ring_slots(*old(ring)).len() >= TIMESERIES_LENGTH ==> evicted == Some(
            ring_slots(*old(ring))[0],
        ) && ring_slots(*final(ring)) == ring_slots(*old(ring)).drop_first().push(slot),
{
    ring.inner.push_back(slot)
}

/// `ArrayDeque::back`: the newest slot, if there is one.
#[verifier::external_body]
pub(crate) fn ring_back(ring: &Ring) -> (slot: Option<&PingResultNoIP>)
    ensures
        ring_slots(*ring).len() == 0 ==> slot.is_none(),
        ring_slots(*ring).len() > 0 ==> slot == Some(&ring_slots(*ring).last()),
{
    ring.inner.back()
}

/// `ArrayDeque::get`: the slot at `index` counted from the front, if the ring
/// holds that many.
#[verifier::external_body]
pub(crate) fn ring_get(ring: &Ring, index: usize) -> (slot: Option<&PingResultNoIP>)
    ensures
        index >= ring_slots(*ring).len() ==> slot.is_none(),
        index < ring_slots(*ring).len() ==> slot == Some(&ring_slots(*ring)[index as int]),
{
    ring.inner.get(index)
}

/// `IndexMut::index_mut` of `ArrayDeque`: a mutable borrow of the slot at
/// `index` counted from the front. Only that slot can change through it. The
/// method panics on an index past the end, which `requires` rules out.
#[verifier::external_body]
pub(crate) fn ring_index_mut(ring: &mut Ring, index: usize) -> (slot: &mut PingResultNoIP)
    requires
        index < ring_slots(*old(ring)).len(),
    ensures
        *slot == ring_slots(*old(ring))[index as int],
        ring_slots(*final(ring)) == ring_slots(*old(ring)).update(index as int, *final(slot)),
{
    &mut ring.inner[index]
}

} // verus!
