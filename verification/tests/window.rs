use pinggraph::consts::TIMESERIES_LENGTH;
use pinggraph::ping_processor::{mean, Window};
use pinggraph::structs::PingResult;

fn record(ip_id: usize, seq: usize, rtt: u64) -> PingResult {
    PingResult { ip_id, seq, rtt: Some(rtt) }
}

fn lost(ip_id: usize, seq: usize) -> PingResult {
    PingResult { ip_id, seq, rtt: None }
}

#[test]
fn new_window_is_blank_and_full_length() {
    let window = Window::new();
    assert_eq!(window.len(), TIMESERIES_LENGTH);
    assert_eq!(window.len(), 100);
    assert_eq!(window.snapshot(), vec![0u64; 100]);
}

#[test]
fn with_length_accepts_one_to_capacity_only() {
    assert!(Window::with_length(0).is_none());
    assert!(Window::with_length(101).is_none());
    assert!(Window::with_length(usize::MAX).is_none());
    let shortest = Window::with_length(1).unwrap();
    assert_eq!(shortest.snapshot(), vec![0u64]);
    let longest = Window::with_length(100).unwrap();
    assert_eq!(longest.snapshot(), vec![0u64; 100]);
    let seven = Window::with_length(7).unwrap();
    assert_eq!(seven.len(), 7);
    assert_eq!(seven.snapshot(), vec![0u64; 7]);
}

#[test]
fn window_of_three_scenario() {
    let mut window = Window::with_length(3).unwrap();
    assert_eq!(window.snapshot(), vec![0, 0, 0]);
    assert_eq!(window.fold(record(0, 0, 10)), Some(vec![0, 0, 10]));
    assert_eq!(window.fold(record(0, 1, 20)), Some(vec![0, 10, 20]));
    assert_eq!(window.fold(record(1, 1, 30)), Some(vec![0, 10, 25]));
    assert_eq!(window.fold(record(0, 2, 5)), Some(vec![10, 25, 5]));
}

#[test]
fn snapshot_length_never_changes() {
    let mut window = Window::new();
    let mut seq = 0usize;
    for step in 0..350usize {
        // ticks that advance, repeat and fall back
        seq = match step % 5 {
            0 | 1 => seq + 1,
            2 => seq,
            3 => seq.saturating_sub(3),
            _ => seq + 2,
        };
        let fed = if step % 7 == 0 { lost(step % 4, seq) } else { record(step % 4, seq, step as u64) };
        if let Some(values) = window.fold(fed) {
            assert_eq!(values.len(), 100);
        }
        assert_eq!(window.len(), 100);
        assert_eq!(window.snapshot().len(), 100);
    }
}

#[test]
fn lost_probe_changes_nothing() {
    let mut window = Window::with_length(4).unwrap();
    assert_eq!(window.fold(lost(0, 0)), None);
    assert_eq!(window.snapshot(), vec![0, 0, 0, 0]);
    assert_eq!(window.fold(record(0, 3, 12)), Some(vec![0, 0, 0, 12]));
    assert_eq!(window.fold(lost(1, 3)), None);
    assert_eq!(window.fold(lost(1, 9)), None);
    assert_eq!(window.snapshot(), vec![0, 0, 0, 12]);
}

#[test]
fn same_tick_joins_its_slot() {
    let mut window = Window::with_length(4).unwrap();
    window.fold(record(0, 5, 100));
    window.fold(record(0, 6, 40));
    window.fold(record(0, 7, 9));
    assert_eq!(window.snapshot(), vec![0, 100, 40, 9]);
    // a later record of tick 6 joins the slot of tick 6: no slot is added
    assert_eq!(window.fold(record(1, 6, 60)), Some(vec![0, 100, 50, 9]));
    assert_eq!(window.fold(record(2, 6, 51)), Some(vec![0, 100, 50, 9]));
    assert_eq!(window.fold(record(3, 6, 53)), Some(vec![0, 100, 51, 9]));
    assert_eq!(window.position(6), Some(2));
    assert_eq!(window.fold(record(1, 5, 0)), Some(vec![0, 50, 51, 9]));
    assert_eq!(window.fold(record(1, 7, 10)), Some(vec![0, 50, 51, 9]));
    assert_eq!(window.len(), 4);
}

#[test]
fn stale_tick_is_dropped() {
    let mut window = Window::with_length(3).unwrap();
    window.fold(record(0, 10, 1));
    window.fold(record(0, 11, 2));
    window.fold(record(0, 12, 3));
    window.fold(record(0, 13, 4));
    assert_eq!(window.snapshot(), vec![2, 3, 4]);
    // tick 10 was pushed out, tick 9 was never there
    assert_eq!(window.fold(record(1, 10, 500)), None);
    assert_eq!(window.snapshot(), vec![2, 3, 4]);
    assert_eq!(window.fold(record(1, 9, 500)), None);
    assert_eq!(window.fold(record(1, 9, 500)), None);
    assert_eq!(window.snapshot(), vec![2, 3, 4]);
    assert_eq!(window.position(10), None);
    assert_eq!(window.position(11), Some(0));
}

#[test]
fn tick_between_two_slots_is_dropped() {
    let mut window = Window::with_length(3).unwrap();
    window.fold(record(0, 2, 7));
    window.fold(record(0, 6, 8));
    assert_eq!(window.fold(record(1, 4, 99)), None);
    assert_eq!(window.snapshot(), vec![0, 7, 8]);
}

#[test]
fn placeholder_is_no_slot_of_tick_zero() {
    let mut window = Window::with_length(3).unwrap();
    window.fold(record(0, 4, 7));
    assert_eq!(window.position(0), None);
    assert_eq!(window.fold(record(1, 0, 99)), None);
    assert_eq!(window.snapshot(), vec![0, 0, 7]);
}

#[test]
fn first_record_opens_a_slot_whatever_its_tick() {
    let mut at_zero = Window::with_length(2).unwrap();
    assert_eq!(at_zero.fold(record(0, 0, 3)), Some(vec![0, 3]));
    assert_eq!(at_zero.position(0), Some(1));
    assert_eq!(at_zero.fold(record(1, 0, 5)), Some(vec![0, 4]));
    let mut at_nine = Window::with_length(2).unwrap();
    assert_eq!(at_nine.fold(record(0, 9, 3)), Some(vec![0, 3]));
}

#[test]
fn round_trip_of_a_full_window() {
    let mut window = Window::new();
    let mut last = None;
    let mut expected = Vec::new();
    for seq in 0..100usize {
        let rtt = 1000 + 3 * seq as u64;
        expected.push(rtt);
        last = window.fold(record(seq % 4, seq, rtt));
    }
    assert_eq!(last, Some(expected));
}

#[test]
fn round_trip_of_a_short_window_with_gaps() {
    let mut window = Window::with_length(5).unwrap();
    let ticks = [3usize, 4, 8, 20, 21];
    let times = [15u64, 0, 7, 300, 1];
    let mut last = None;
    for i in 0..5 {
        last = window.fold(record(0, ticks[i], times[i]));
    }
    assert_eq!(last, Some(vec![15, 0, 7, 300, 1]));
}

#[test]
fn oldest_slot_leaves_when_the_ring_wraps() {
    let mut window = Window::new();
    for seq in 1..=100usize {
        window.fold(record(0, seq, seq as u64));
    }
    let full: Vec<u64> = (1..=100u64).collect();
    assert_eq!(window.snapshot(), full);
    assert_eq!(window.position(1), Some(0));
    let after = window.fold(record(0, 101, 101)).unwrap();
    let shifted: Vec<u64> = (2..=101u64).collect();
    assert_eq!(after, shifted);
    assert_eq!(window.position(1), None);
    assert_eq!(window.position(2), Some(0));
    assert_eq!(window.position(101), Some(99));
    assert_eq!(window.fold(record(1, 1, 9)), None);
}

#[test]
fn short_window_sees_only_its_newest_slots() {
    let mut window = Window::with_length(2).unwrap();
    for seq in 1..=250usize {
        assert_eq!(window.fold(record(0, seq, 2 * seq as u64)).unwrap().len(), 2);
    }
    assert_eq!(window.snapshot(), vec![498, 500]);
    // tick 248 is behind the window
    assert_eq!(window.fold(record(1, 248, 1)), None);
    assert_eq!(window.fold(record(1, 249, 0)), Some(vec![249, 500]));
}

#[test]
fn hosts_with_equal_ticks_share_a_slot() {
    // Ticks are counted per host, and the host is forgotten when a record is
    // folded: samples of different hosts whose ticks coincide are averaged.
    let mut window = Window::with_length(2).unwrap();
    window.fold(record(0, 0, 10));
    window.fold(record(1, 0, 30));
    window.fold(record(2, 0, 200));
    assert_eq!(window.snapshot(), vec![0, 80]);
    window.fold(record(0, 1, 10));
    assert_eq!(window.fold(record(3, 1, 11)), Some(vec![80, 10]));
}

#[test]
fn mean_rounds_down() {
    assert_eq!(mean(&vec![]), 0);
    assert_eq!(mean(&vec![20, 30]), 25);
    assert_eq!(mean(&vec![1, 2]), 1);
    assert_eq!(mean(&vec![1, 1, 2]), 1);
    assert_eq!(mean(&vec![0, 0, 0]), 0);
    assert_eq!(mean(&vec![7]), 7);
    assert_eq!(mean(&vec![u64::MAX, u64::MAX, u64::MAX]), u64::MAX);
    assert_eq!(mean(&vec![u64::MAX, 0]), u64::MAX / 2);
}

#[test]
fn tick_before_every_slot_is_dropped_again_and_again() {
    let mut window = Window::with_length(3).unwrap();
    for seq in 5..=9usize {
        window.fold(record(0, seq, seq as u64));
    }
    assert_eq!(window.snapshot(), vec![7, 8, 9]);
    for _ in 0..4 {
        assert_eq!(window.fold(record(1, 6, 1000)), None);
        assert_eq!(window.fold(record(1, 0, 1000)), None);
        assert_eq!(window.snapshot(), vec![7, 8, 9]);
        assert_eq!(window.position(7), Some(0));
        assert_eq!(window.position(9), Some(2));
    }
}

#[test]
fn run_of_records_gives_one_snapshot_per_accepted_record() {
    let records = vec![
        record(0, 0, 10),
        lost(1, 0),
        record(0, 1, 20),
        record(1, 1, 30),
        record(2, 7, 1),
        record(0, 2, 5),
        lost(0, 3),
        record(0, 8, 4),
        record(1, 0, 9),
    ];
    let mut whole = Window::with_length(3).unwrap();
    let snapshots = whole.fold_all(&records);
    assert_eq!(
        snapshots,
        vec![vec![0, 0, 10], vec![0, 10, 20], vec![0, 10, 25], vec![10, 25, 1], vec![25, 1, 4]]
    );
    assert_eq!(whole.snapshot(), vec![25, 1, 4]);

    // the same records one by one
    let mut single = Window::with_length(3).unwrap();
    let mut one_by_one = Vec::new();
    for fed in records.iter() {
        if let Some(values) = single.fold(*fed) {
            one_by_one.push(values);
        }
    }
    assert_eq!(snapshots, one_by_one);
    assert_eq!(single.snapshot(), whole.snapshot());
}

#[test]
fn run_without_accepted_records_gives_no_snapshot() {
    let mut window = Window::with_length(2).unwrap();
    assert_eq!(window.fold_all(&vec![]), Vec::<Vec<u64>>::new());
    assert_eq!(window.fold_all(&vec![lost(0, 0), lost(1, 5)]), Vec::<Vec<u64>>::new());
    assert_eq!(window.snapshot(), vec![0, 0]);
    window.fold(record(0, 4, 2));
    assert_eq!(window.fold_all(&vec![record(0, 3, 1), lost(0, 9)]), Vec::<Vec<u64>>::new());
    assert_eq!(window.snapshot(), vec![0, 2]);
}
