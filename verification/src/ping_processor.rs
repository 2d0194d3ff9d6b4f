//! The aggregator: a rolling window of time slots that probe results of all
//! hosts are folded into, and the snapshot taken of it after every change.

use crate::consts::TIMESERIES_LENGTH;
use crate::ring::{ring_back, ring_get, ring_index_mut, ring_len, ring_new, ring_push_back, ring_slots, Ring};
use crate::structs::{PingResult, PingResultNoIP, SlotView};
use crate::window_model::{
    accepts, blank_window, emitted, folded, folded_all, fresh_slot, has_tick, holds_tick,
    is_snapshot_of,
    is_tick_position, joined, lemma_folded_ordered, lemma_mean_bound, lemma_tick_position_unique,
    lemma_total_bound, opens_slot, ordered, placeholder, pushed, slot_mean, tick_position, total,
};
use vstd::prelude::*;

verus! {

/// The newest `length` slots of a ring of slots, as mathematical values.
spec fn newest(slots: Seq<PingResultNoIP>, length: int) -> Seq<SlotView> {
    Seq::new(length as nat, |i: int| slots[slots.len() - length + i]@)
}

/// Rolling window over the newest time slots.
///
/// The slots live in a ring of `TIMESERIES_LENGTH` places that is always full;
/// the window is its newest `len()` slots. A new slot pushes the oldest one
/// out, so the window never grows or shrinks.
pub struct Window {
    ring: Ring,
    length: usize,
}

impl View for Window {
    type V = Seq<SlotView>;

    /// The slots of the window, oldest first.
    closed spec fn view(&self) -> Seq<SlotView> {
        newest(ring_slots(self.ring), self.length as int)
    }
}

/// Rounded-down mean of the samples of one slot, 0 without samples.
pub fn mean(samples: &Vec<u64>) -> (value: u64)
    ensures
        value as nat == slot_mean(samples@),
{
    let count = samples.len();
    if count == 0 {
        return 0;
    }
    let mut sum: u128 = 0;
    let mut i: usize = 0;
    while i < count
        invariant
            count == samples.len(),
            i <= count,
            sum as nat == total(samples@.subrange(0, i as int)),
        decreases count - i,
    {
        proof {
            let next = samples@.subrange(0, i + 1);
            assert(next.drop_last() =~= samples@.subrange(0, i as int));
            lemma_total_bound(next);
            assert(next.len() * u64::MAX <= usize::MAX * u64::MAX) by (nonlinear_arith)
                requires
                    next.len() <= usize::MAX,
            ;
        }
        sum = sum + samples[i] as u128;
        i = i + 1;
    }
    proof {
        assert(samples@.subrange(0, count as int) =~= samples@);
        lemma_mean_bound(samples@);
    }
    (sum / count as u128) as u64
}

impl Window {
    /// The ring is full.
    pub closed spec fn ring_full(&self) -> bool {
        ring_slots(self.ring).len() == TIMESERIES_LENGTH
    }

    /// Validity of a window: it covers between one and `TIMESERIES_LENGTH`
    /// slots of a full ring; a slot without samples is the placeholder;
    /// placeholders come first, then ticks in increasing order.
    pub open spec fn wf(&self) -> bool {
        &&& self.ring_full()
        &&& 1 <= self@.len() <= TIMESERIES_LENGTH
        &&& ordered(self@)
    }

    /// A window of `TIMESERIES_LENGTH` placeholders.
    pub fn new() -> (window: Window)
        ensures
            window.wf(),
            window@ == blank_window(TIMESERIES_LENGTH as nat),
    {
        let window = Window { ring: Window::blank_ring(), length: TIMESERIES_LENGTH };
        assert(window@ =~= blank_window(TIMESERIES_LENGTH as nat));
        window
    }

    /// A window of `length` placeholders, for a `length` from 1 to
    /// `TIMESERIES_LENGTH`; no window for any other.
    pub fn with_length(length: usize) -> (window: Option<Window>)
        ensures
            window.is_some() <==> 1 <= length <= TIMESERIES_LENGTH,
            window matches Some(w) ==> w.wf() && w@ == blank_window(length as nat),
    {
        if length == 0 || length > TIMESERIES_LENGTH {
            return None;
        }
        let window = Window { ring: Window::blank_ring(), length };
        assert(window@ =~= blank_window(length as nat));
        Some(window)
    }

    /// A full ring of placeholders.
    fn blank_ring() -> (ring: Ring)
        ensures
            ring_slots(ring).len() == TIMESERIES_LENGTH,
            forall|i: int| 0 <= i < TIMESERIES_LENGTH ==> (#[trigger] ring_slots(ring)[i])@ == placeholder(),
    {
        let mut ring = ring_new();
        let mut filled: usize = 0;
        while filled < TIMESERIES_LENGTH
            invariant
                filled <= TIMESERIES_LENGTH,
                ring_slots(ring).len() == filled,
                forall|i: int| 0 <= i < filled ==> (#[trigger] ring_slots(ring)[i])@ == placeholder(),
            decreases TIMESERIES_LENGTH - filled,
        {
            let _ = ring_push_back(&mut ring, PingResultNoIP { seq: 0, rtt_arr: Vec::new() });
            filled = filled + 1;
        }
        ring
    }

    /// Number of slots in the window.
    pub fn len(&self) -> (length: usize)
        requires
            self.wf(),
        ensures
            length == self@.len(),
    {
        self.length
    }

    /// Position of the first slot, scanning from the oldest, that holds samples
    /// of tick `seq`; `None` if no slot does.
    pub fn position(&self, seq: usize) -> (found: Option<usize>)
        requires
            self.wf(),
        ensures
            found.is_some() <==> has_tick(self@, seq),
            found matches Some(i) ==> is_tick_position(self@, seq, i as int) && i as int
                == tick_position(self@, seq),
    {
        let start = ring_len(&self.ring) - self.length;
        let mut i: usize = 0;
        while i < self.length
            invariant
                self.wf(),
                start + self.length == TIMESERIES_LENGTH,
                i <= self.length,
                forall|j: int| 0 <= j < i ==> !holds_tick(self@, seq, j),
            decreases self.length - i,
        {
            match ring_get(&self.ring, start + i) {
                Some(slot) => {
                    if slot.rtt_arr.len() > 0 && slot.seq == seq {
                        proof {
                            assert(holds_tick(self@, seq, i as int));
                            lemma_tick_position_unique(self@, seq, i as int);
                        }
                        return Some(i);
                    }
                },
                None => {},
            }
            i = i + 1;
        }
        None
    }

    /// The snapshot of the window: for each slot, oldest first, the rounded-down
    /// mean of its samples in milliseconds, and 0 for a slot without samples.
    pub fn snapshot(&self) -> (values: Vec<u64>)
        requires
            self.wf(),
        ensures
            is_snapshot_of(values@, self@),
    {
        let start = ring_len(&self.ring) - self.length;
        let mut values: Vec<u64> = Vec::new();
        let mut i: usize = 0;
        while i < self.length
            invariant
                self.wf(),
                start + self.length == TIMESERIES_LENGTH,
                i <= self.length,
                values@.len() == i,
                forall|j: int| 0 <= j < i ==> values@[j] as nat == slot_mean(#[trigger] self@[j].samples),
            decreases self.length - i,
        {
            let value = match ring_get(&self.ring, start + i) {
                Some(slot) => mean(&slot.rtt_arr),
                None => 0,
            };
            values.push(value);
            i = i + 1;
        }
        values
    }

    /// Folds one probe result into the window and returns the snapshot taken
    /// after it.
    ///
    /// A result without a round-trip time changes nothing. A result whose tick
    /// is later than that of the newest slot, or that meets a window of
    /// placeholders only, opens a new slot at the back and pushes the oldest
    /// slot out. Any other result joins the slot of its tick, found by scanning
    /// from the oldest slot, or changes nothing if the window holds no such
    /// slot. No snapshot is taken of an unchanged window.
    pub fn fold(&mut self, record: PingResult) -> (snapshot: Option<Vec<u64>>)
        requires
            old(self).wf(),
        ensures
            final(self).wf(),
            final(self)@ == folded(old(self)@, record),
            final(self)@.len() == old(self)@.len(),
            snapshot.is_some() <==> accepts(old(self)@, record),
            snapshot matches Some(values) ==> is_snapshot_of(values@, final(self)@),
    {
        proof {
            lemma_folded_ordered(self@, record);
        }
        let rtt = match record.rtt {
            Some(rtt) => rtt,
            None => {
                return None;
            },
        };
        let opens = match ring_back(&self.ring) {
            Some(newest_slot) => newest_slot.rtt_arr.len() == 0 || record.seq > newest_slot.seq,
            None => true,
        };
        assert(opens == opens_slot(self@, record.seq));
        if opens {
            let mut samples: Vec<u64> = Vec::new();
            samples.push(rtt);
            let _ = ring_push_back(&mut self.ring, PingResultNoIP { seq: record.seq, rtt_arr: samples });
            assert(self@ =~= pushed(old(self)@, record.seq, rtt));
        } else {
            let position = match self.position(record.seq) {
                Some(position) => position,
                None => {
                    return None;
                },
            };
            let start = ring_len(&self.ring) - self.length;
            let slot = ring_index_mut(&mut self.ring, start + position);
            slot.rtt_arr.push(rtt);
            assert(self@ =~= joined(old(self)@, position as int, rtt));
        }
        Some(self.snapshot())
    }

    /// Folds a run of records, first to last, and returns the snapshots taken
    /// on the way: one for each accepted record, taken right after it, in the
    /// order of the records. A record that is not accepted adds no snapshot.
    pub fn fold_all(&mut self, records: &Vec<PingResult>) -> (snapshots: Vec<Vec<u64>>)
        requires
            old(self).wf(),
        ensures
            final(self).wf(),
            final(self)@ == folded_all(old(self)@, records@),
            snapshots@.len() == emitted(old(self)@, records@).len(),
            forall|k: int|
                0 <= k < snapshots@.len() ==> is_snapshot_of(
                    (#[trigger] snapshots@[k])@,
                    emitted(old(self)@, records@)[k],
                ),
    {
        let mut snapshots: Vec<Vec<u64>> = Vec::new();
        let mut i: usize = 0;
        while i < records.len()
            invariant
                i <= records.len(),
                self.wf(),
                self@ == folded_all(old(self)@, records@.subrange(0, i as int)),
                snapshots@.len() == emitted(old(self)@, records@.subrange(0, i as int)).len(),
                forall|k: int|
                    0 <= k < snapshots@.len() ==> is_snapshot_of(
                        (#[trigger] snapshots@[k])@,
                        emitted(old(self)@, records@.subrange(0, i as int))[k],
                    ),
            decreases records.len() - i,
        {
            proof {
                let next = records@.subrange(0, i + 1);
                assert(next.drop_last() =~= records@.subrange(0, i as int));
                assert(next.last() == records@[i as int]);
            }
            match self.fold(records[i]) {
                Some(values) => {
                    snapshots.push(values);
                },
                None => {},
            }
            i = i + 1;
        }
        assert(records@.subrange(0, records.len() as int) =~= records@);
        snapshots
    }
}

} // verus!
