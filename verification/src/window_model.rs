//! Mathematical model of the rolling window: a sequence of time slots, oldest
//! first, and what folding a probe result into it means.
//!
//! A tick is the number `seq` that a prober gave to a probe. A slot collects
//! the samples of one tick; a slot without samples is a placeholder.

use crate::structs::{PingResult, SlotView};
use vstd::prelude::*;

verus! {

/// Sum of the samples of a slot.
pub open spec fn total(samples: Seq<u64>) -> nat
    decreases samples.len(),
{
    if samples.len() == 0 {
        0
    } else {
        total(samples.drop_last()) + samples.last() as nat
    }
}

/// Value that a slot contributes to a snapshot: the arithmetic mean of its
/// samples, rounded down, and 0 for a slot without samples.
pub open spec fn slot_mean(samples: Seq<u64>) -> nat {
    if samples.len() == 0 {
        0
    } else {
        total(samples) / samples.len()
    }
}

/// `values` is the snapshot of `window`: one mean per slot, in slot order.
pub open spec fn is_snapshot_of(values: Seq<u64>, window: Seq<SlotView>) -> bool {
    &&& values.len() == window.len()
    &&& forall|i: int| 0 <= i < window.len() ==> values[i] as nat == slot_mean(#[trigger] window[i].samples)
}

/// The slot that stands where no sample has arrived yet.
pub open spec fn placeholder() -> SlotView {
    SlotView { seq: 0, samples: Seq::empty() }
}

/// The window of `length` placeholders.
pub open spec fn blank_window(length: nat) -> Seq<SlotView> {
    Seq::new(length, |i: int| placeholder())
}

/// The slot opened by the first sample of tick `seq`.
pub open spec fn fresh_slot(seq: usize, rtt: u64) -> SlotView {
    SlotView { seq, samples: seq![rtt] }
}

/// Slot `i` of the window holds samples of tick `seq`.
pub open spec fn holds_tick(window: Seq<SlotView>, seq: usize, i: int) -> bool {
    &&& 0 <= i < window.len()
    &&& window[i].samples.len() > 0
    &&& window[i].seq == seq
}

/// Some slot of the window holds samples of tick `seq`.
pub open spec fn has_tick(window: Seq<SlotView>, seq: usize) -> bool {
    exists|i: int| holds_tick(window, seq, i)
}

/// `i` is the first position, scanning from the oldest slot, that holds
/// samples of tick `seq`.
pub open spec fn is_tick_position(window: Seq<SlotView>, seq: usize, i: int) -> bool {
    &&& holds_tick(window, seq, i)
    &&& forall|j: int| 0 <= j < i ==> !holds_tick(window, seq, j)
}

/// The position that a scan for tick `seq` finds.
pub open spec fn tick_position(window: Seq<SlotView>, seq: usize) -> int {
    choose|i: int| is_tick_position(window, seq, i)
}

/// A sample of tick `seq` opens a new slot: the newest slot is a placeholder,
/// or it stands for an earlier tick.
pub open spec fn opens_slot(window: Seq<SlotView>, seq: usize) -> bool {
    window.len() > 0 && (window.last().samples.len() == 0 || seq > window.last().seq)
}

/// The record changes the window: it carries a round-trip time, and either
/// opens a slot or finds the slot of its tick.
pub open spec fn accepts(window: Seq<SlotView>, record: PingResult) -> bool {
    record.rtt.is_some() && (opens_slot(window, record.seq) || has_tick(window, record.seq))
}

/// The window after a sample opened a new slot: the oldest slot is gone.
pub open spec fn pushed(window: Seq<SlotView>, seq: usize, rtt: u64) -> Seq<SlotView> {
    window.drop_first().push(fresh_slot(seq, rtt))
}

/// The window after a sample joined the slot at position `i`.
pub open spec fn joined(window: Seq<SlotView>, i: int, rtt: u64) -> Seq<SlotView> {
    window.update(i, SlotView { seq: window[i].seq, samples: window[i].samples.push(rtt) })
}

/// The window after folding one record into it.
pub open spec fn folded(window: Seq<SlotView>, record: PingResult) -> Seq<SlotView> {
    if !accepts(window, record) {
        window
    } else if opens_slot(window, record.seq) {
        pushed(window, record.seq, record.rtt.unwrap())
    } else {
        joined(window, tick_position(window, record.seq), record.rtt.unwrap())
    }
}

/// The window after folding a run of records, first to last.
pub open spec fn folded_all(window: Seq<SlotView>, records: Seq<PingResult>) -> Seq<SlotView>
    decreases records.len(),
{
    if records.len() == 0 {
        window
    } else {
        folded(folded_all(window, records.drop_last()), records.last())
    }
}

/// Every slot without samples is the placeholder.
pub open spec fn blanks_are_placeholders(window: Seq<SlotView>) -> bool {
    forall|i: int|
        0 <= i < window.len() && (#[trigger] window[i]).samples.len() == 0 ==> window[i]
            == placeholder()
}

/// Placeholders stand before the slots that hold samples, and those stand in
/// strictly increasing tick order.
pub open spec fn in_tick_order(window: Seq<SlotView>) -> bool {
    forall|i: int, j: int|
        0 <= i < j < window.len() && (#[trigger] window[i]).samples.len() > 0 ==> (
        #[trigger] window[j]).samples.len() > 0 && window[i].seq < window[j].seq
}

/// The windows that a run of records leaves to take a snapshot of: one for
/// each record that is accepted, as the window stands right after that
/// record, in the order of the records.
pub open spec fn emitted(window: Seq<SlotView>, records: Seq<PingResult>) -> Seq<Seq<SlotView>>
    decreases records.len(),
{
    if records.len() == 0 {
        Seq::empty()
    } else {
        let before = folded_all(window, records.drop_last());
        let earlier = emitted(window, records.drop_last());
        if accepts(before, records.last()) {
            earlier.push(folded(before, records.last()))
        } else {
            earlier
        }
    }
}

/// Shape that every window keeps: a slot without samples is the placeholder,
/// placeholders stand before the slots that hold samples, and those stand in
/// strictly increasing tick order.
pub open spec fn ordered(window: Seq<SlotView>) -> bool {
    blanks_are_placeholders(window) && in_tick_order(window)
}

/// The sum of some samples is at most their number times the largest `u64`.
pub proof fn lemma_total_bound(samples: Seq<u64>)
    ensures
        total(samples) <= samples.len() * u64::MAX,
    decreases samples.len(),
{
    if samples.len() > 0 {
        lemma_total_bound(samples.drop_last());
        assert(total(samples) <= (samples.len() - 1) * u64::MAX + u64::MAX);
        assert((samples.len() - 1) * u64::MAX + u64::MAX == samples.len() * u64::MAX)
            by (nonlinear_arith);
    }
}

/// Adding one sample adds its value to the sum.
pub proof fn lemma_total_push(samples: Seq<u64>, rtt: u64)
    ensures
        total(samples.push(rtt)) == total(samples) + rtt,
{
    assert(samples.push(rtt).drop_last() =~= samples);
}

/// The mean of a single sample is that sample.
pub proof fn lemma_single_sample_mean(rtt: u64)
    ensures
        slot_mean(seq![rtt]) == rtt as nat,
{
    assert(Seq::<u64>::empty().push(rtt) =~= seq![rtt]);
    lemma_total_push(Seq::<u64>::empty(), rtt);
    assert(total(Seq::<u64>::empty()) == 0);
    assert(seq![rtt].len() == 1);
}

/// The mean of some samples fits the type of a sample.
pub proof fn lemma_mean_bound(samples: Seq<u64>)
    ensures
        slot_mean(samples) <= u64::MAX,
{
    if samples.len() > 0 {
        lemma_total_bound(samples);
        let n = samples.len() as int;
        let t = total(samples) as int;
        assert(t / n <= u64::MAX) by (nonlinear_arith)
            requires
                n > 0,
                0 <= t <= n * u64::MAX,
        ;
    }
}

/// In an ordered window at most one slot holds a given tick, so a scan finds
/// exactly that slot.
pub proof fn lemma_tick_position_unique(window: Seq<SlotView>, seq: usize, i: int)
    requires
        ordered(window),
        holds_tick(window, seq, i),
    ensures
        is_tick_position(window, seq, i),
        tick_position(window, seq) == i,
{
    assert forall|j: int| 0 <= j < i implies !holds_tick(window, seq, j) by {
        if holds_tick(window, seq, j) {
            assert(window[j].seq < window[i].seq);
        }
    }
    assert(is_tick_position(window, seq, i));
    let k = tick_position(window, seq);
    if k < i {
        assert(window[k].seq < window[i].seq);
    } else if i < k {
        assert(window[i].seq < window[k].seq);
    }
}

/// Folding keeps the shape of the window.
pub proof fn lemma_folded_ordered(window: Seq<SlotView>, record: PingResult)
    requires
        ordered(window),
    ensures
        ordered(folded(window, record)),
        folded(window, record).len() == window.len(),
{
    let after = folded(window, record);
    if !accepts(window, record) {
    } else if opens_slot(window, record.seq) {
        let rtt = record.rtt.unwrap();
        assert forall|i: int|
            0 <= i < after.len() && (#[trigger] after[i]).samples.len() == 0 implies after[i]
            == placeholder() by {
            assert(after[i] == window[i + 1]);
        }
        assert forall|i: int, j: int|
            0 <= i < j < after.len() && (#[trigger] after[i]).samples.len() > 0 implies (
        #[trigger] after[j]).samples.len() > 0 && after[i].seq < after[j].seq by {
            assert(after[i] == window[i + 1]);
            if j < after.len() - 1 {
                assert(after[j] == window[j + 1]);
            } else {
                assert(after[j] == fresh_slot(record.seq, rtt));
                if i + 1 < window.len() - 1 {
                    assert(window[window.len() - 1].samples.len() > 0);
                }
            }
        }
    } else {
        let k = choose|k: int| holds_tick(window, record.seq, k);
        lemma_tick_position_unique(window, record.seq, k);
        assert forall|i: int|
            0 <= i < after.len() && (#[trigger] after[i]).samples.len() == 0 implies after[i]
            == placeholder() by {
            assert(after[i] == window[i]);
        }
        assert forall|i: int, j: int|
            0 <= i < j < after.len() && (#[trigger] after[i]).samples.len() > 0 implies (
        #[trigger] after[j]).samples.len() > 0 && after[i].seq < after[j].seq by {
            assert(after[i].seq == window[i].seq);
            assert(after[j].seq == window[j].seq);
            assert(window[i].samples.len() > 0);
        }
    }
}

/// However many records are folded into a window, and whatever they hold, the
/// window keeps its length and its shape.
pub proof fn lemma_window_length_is_fixed(window: Seq<SlotView>, records: Seq<PingResult>)
    requires
        ordered(window),
    ensures
        folded_all(window, records).len() == window.len(),
        ordered(folded_all(window, records)),
    decreases records.len(),
{
    if records.len() > 0 {
        lemma_window_length_is_fixed(window, records.drop_last());
        lemma_folded_ordered(folded_all(window, records.drop_last()), records.last());
    }
}

/// One more record adds one window to those that a snapshot is taken of if
/// it is accepted, and none if it is not: a record without a round-trip time
/// or of a tick that the window does not hold adds none. The windows of the
/// records before it stay as they were, in their order.
pub proof fn lemma_one_snapshot_per_accepted_record(
    window: Seq<SlotView>,
    records: Seq<PingResult>,
    record: PingResult,
)
    ensures
        folded_all(window, records.push(record)) == folded(folded_all(window, records), record),
        accepts(folded_all(window, records), record) ==> emitted(window, records.push(record))
            == emitted(window, records).push(folded(folded_all(window, records), record)),
        !accepts(folded_all(window, records), record) ==> emitted(window, records.push(record))
            == emitted(window, records),
        record.rtt.is_none() ==> emitted(window, records.push(record)) == emitted(window, records),
        emitted(window, records.push(record)).len() <= records.len() + 1,
{
    assert(records.push(record).drop_last() =~= records);
    lemma_emitted_is_no_longer_than_records(window, records);
}

/// No more snapshots are taken than records were folded.
pub proof fn lemma_emitted_is_no_longer_than_records(
    window: Seq<SlotView>,
    records: Seq<PingResult>,
)
    ensures
        emitted(window, records).len() <= records.len(),
    decreases records.len(),
{
    if records.len() > 0 {
        lemma_emitted_is_no_longer_than_records(window, records.drop_last());
    }
}

/// A window of placeholders has the shape that folding keeps, so a window
/// that began as `length` placeholders holds `length` slots after any run of
/// records.
pub proof fn lemma_blank_window_keeps_length(length: nat, records: Seq<PingResult>)
    ensures
        ordered(blank_window(length)),
        folded_all(blank_window(length), records).len() == length,
        ordered(folded_all(blank_window(length), records)),
{
    lemma_window_length_is_fixed(blank_window(length), records);
}

/// A sample of a tick that the window already holds joins the slot of that
/// tick: no slot is added or lost, every other slot stays as it was, and the
/// mean of the slot becomes that of its old samples and the new one.
pub proof fn lemma_same_tick_joins_slot(window: Seq<SlotView>, record: PingResult, i: int)
    requires
        ordered(window),
        record.rtt.is_some(),
        holds_tick(window, record.seq, i),
    ensures
        accepts(window, record),
        folded(window, record) == joined(window, i, record.rtt.unwrap()),
        folded(window, record).len() == window.len(),
        folded(window, record)[i].seq == record.seq,
        folded(window, record)[i].samples == window[i].samples.push(record.rtt.unwrap()),
        forall|j: int| 0 <= j < window.len() && j != i ==> folded(window, record)[j] == window[j],
        slot_mean(folded(window, record)[i].samples) as int == (total(window[i].samples)
            + record.rtt.unwrap()) / (window[i].samples.len() + 1) as int,
{
    lemma_tick_position_unique(window, record.seq, i);
    if i < window.len() - 1 {
        assert(window[i].seq < window[window.len() - 1].seq);
    }
    assert(!opens_slot(window, record.seq));
    lemma_total_push(window[i].samples, record.rtt.unwrap());
}

/// A sample of a tick before the ticks of all slots of the window is dropped:
/// the window stays exactly as it was, however often the sample arrives.
pub proof fn lemma_stale_tick_is_dropped(window: Seq<SlotView>, record: PingResult)
    requires
        ordered(window),
        forall|i: int| 0 <= i < window.len() ==> record.seq < (#[trigger] window[i]).seq,
    ensures
        !accepts(window, record),
        folded(window, record) == window,
        folded(folded(window, record), record) == window,
{
    if window.len() > 0 {
        let newest = window.len() - 1;
        assert(record.seq < window[newest].seq);
        assert(window[newest] != placeholder());
        assert(window[newest].samples.len() > 0);
    }
    assert(!opens_slot(window, record.seq));
    assert forall|i: int| !holds_tick(window, record.seq, i) by {
        if holds_tick(window, record.seq, i) {
            assert(record.seq < window[i].seq);
        }
    }
}

/// The same while placeholders remain: a sample of a tick before that of the
/// oldest slot that holds samples is dropped, and the window stays exactly
/// as it was, however often the sample arrives.
pub proof fn lemma_tick_before_oldest_slot_is_dropped(
    window: Seq<SlotView>,
    record: PingResult,
    oldest: int,
)
    requires
        ordered(window),
        0 <= oldest < window.len(),
        window[oldest].samples.len() > 0,
        forall|j: int| 0 <= j < oldest ==> (#[trigger] window[j]).samples.len() == 0,
        record.seq < window[oldest].seq,
    ensures
        !accepts(window, record),
        folded(window, record) == window,
        folded(folded(window, record), record) == window,
{
    if oldest < window.len() - 1 {
        assert(window[oldest].seq < window[window.len() - 1].seq);
    }
    assert(!opens_slot(window, record.seq));
    assert forall|i: int| !holds_tick(window, record.seq, i) by {
        if holds_tick(window, record.seq, i) {
            if i < oldest {
                assert(window[i].samples.len() == 0);
            } else if oldest < i {
                assert(window[oldest].seq < window[i].seq);
            }
        }
    }
}

/// The host of a record plays no part in folding it: records of different
/// hosts with the same tick and round-trip time leave the same window, so
/// samples of hosts whose ticks coincide share a slot.
pub proof fn lemma_host_is_forgotten(window: Seq<SlotView>, one: PingResult, other: PingResult)
    requires
        one.seq == other.seq,
        one.rtt == other.rtt,
    ensures
        accepts(window, one) == accepts(window, other),
        folded(window, one) == folded(window, other),
{
}

/// Every record carries a round-trip time, and their ticks strictly increase.
pub open spec fn climbing(records: Seq<PingResult>) -> bool {
    &&& forall|i: int| 0 <= i < records.len() ==> (#[trigger] records[i]).rtt.is_some()
    &&& forall|i: int, j: int|
        0 <= i < j < records.len() ==> (#[trigger] records[i]).seq < (#[trigger] records[j]).seq
}

/// The slots that a run of records opens, one per record.
pub open spec fn fresh_slots(records: Seq<PingResult>) -> Seq<SlotView> {
    Seq::new(records.len(), |i: int| fresh_slot(records[i].seq, records[i].rtt.unwrap()))
}

/// The round-trip times of a run of records.
pub open spec fn round_trip_times(records: Seq<PingResult>) -> Seq<u64> {
    Seq::new(records.len(), |i: int| records[i].rtt.unwrap())
}

/// Records with increasing ticks, the first of which opens a slot, each open
/// a slot of their own: as long as they are no more than the window is long,
/// the window ends with their slots and begins with what is left of the old
/// ones.
pub proof fn lemma_climbing_records_open_slots(window: Seq<SlotView>, records: Seq<PingResult>)
    requires
        ordered(window),
        records.len() <= window.len(),
        climbing(records),
        records.len() > 0 ==> opens_slot(window, records[0].seq),
    ensures
        folded_all(window, records) == window.subrange(records.len() as int, window.len() as int)
            + fresh_slots(records),
    decreases records.len(),
{
    let done = window.subrange(records.len() as int, window.len() as int) + fresh_slots(records);
    if records.len() == 0 {
        assert(done =~= window);
    } else {
        let earlier = records.drop_last();
        let record = records.last();
        assert(earlier.len() > 0 ==> earlier[0] == records[0]);
        assert(climbing(earlier)) by {
            assert forall|i: int| 0 <= i < earlier.len() implies (#[trigger] earlier[i]).rtt.is_some() by {
                assert(earlier[i] == records[i]);
            }
            assert forall|i: int, j: int| 0 <= i < j < earlier.len() implies (#[trigger] earlier[i]).seq
                < (#[trigger] earlier[j]).seq by {
                assert(earlier[i] == records[i]);
                assert(earlier[j] == records[j]);
            }
        }
        lemma_climbing_records_open_slots(window, earlier);
        let before = folded_all(window, earlier);
        assert(before == window.subrange(earlier.len() as int, window.len() as int) + fresh_slots(
            earlier,
        ));
        assert(before.len() == window.len());
        assert(opens_slot(before, record.seq)) by {
            if earlier.len() > 0 {
                let newest = earlier.len() - 1;
                assert(before.last() == fresh_slots(earlier)[newest]);
                assert(earlier[newest] == records[newest]);
                assert(records[newest].seq < records[records.len() - 1].seq);
            } else {
                assert(before =~= window);
                assert(record == records[0]);
            }
        }
        assert(record.rtt.is_some());
        assert(folded(before, record) == pushed(before, record.seq, record.rtt.unwrap()));
        assert(pushed(before, record.seq, record.rtt.unwrap()) =~= done);
    }
}

/// Round trip: as many records as the window is long, with strictly increasing
/// ticks and one sample each, the first of them opening a slot, leave a window
/// whose snapshot is their round-trip times in order.
pub proof fn lemma_round_trip(window: Seq<SlotView>, records: Seq<PingResult>)
    requires
        ordered(window),
        window.len() > 0,
        records.len() == window.len(),
        climbing(records),
        opens_slot(window, records[0].seq),
    ensures
        folded_all(window, records) == fresh_slots(records),
        is_snapshot_of(round_trip_times(records), folded_all(window, records)),
{
    lemma_climbing_records_open_slots(window, records);
    let after = folded_all(window, records);
    assert(after =~= fresh_slots(records));
    assert forall|i: int| 0 <= i < after.len() implies round_trip_times(records)[i] as nat
        == slot_mean(#[trigger] after[i].samples) by {
        let rtt = records[i].rtt.unwrap();
        assert(after[i].samples == seq![rtt]);
        lemma_single_sample_mean(rtt);
    }
}

/// Round trip from the start: a window of placeholders that is fed as many
/// records as it is long, with strictly increasing ticks and one sample each,
/// has their round-trip times as its snapshot, in order.
pub proof fn lemma_round_trip_from_blank(length: nat, records: Seq<PingResult>)
    requires
        length > 0,
        records.len() == length,
        climbing(records),
    ensures
        is_snapshot_of(round_trip_times(records), folded_all(blank_window(length), records)),
{
    lemma_round_trip(blank_window(length), records);
}

} // verus!
