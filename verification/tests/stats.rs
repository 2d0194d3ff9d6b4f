use pinggraph::graph_writer::{frame, push_decimal, stats_line, summarize, DrawOp, Stats};

#[test]
fn summary_of_an_empty_snapshot_is_zero() {
    let stats = summarize(&vec![]);
    assert_eq!(stats, Stats { min: 0, max: 0, avg_hundredths: 0 });
    assert_eq!(stats_line(stats), "AVG: 0.00 ms | MIN: 0 ms | MAX: 0 ms");
}

#[test]
fn summary_takes_lowest_and_highest() {
    let stats = summarize(&vec![12, 7, 31, 9]);
    assert_eq!(stats.min, 7);
    assert_eq!(stats.max, 31);
    assert_eq!(stats.avg_hundredths, 1475);
    let with_blank = summarize(&vec![12, 0, 31, 9]);
    assert_eq!(with_blank.min, 0);
    assert_eq!(with_blank.max, 31);
    assert_eq!(with_blank.avg_hundredths, 1300);
    let one = summarize(&vec![42]);
    assert_eq!(one, Stats { min: 42, max: 42, avg_hundredths: 4200 });
}

#[test]
fn average_counts_blank_slots_in_the_divisor() {
    // three samples among a hundred slots: 10 + 20 + 33 over 100
    let mut values = vec![0u64; 100];
    values[97] = 10;
    values[98] = 20;
    values[99] = 33;
    let stats = summarize(&values);
    assert_eq!(stats.avg_hundredths, 63);
    assert_eq!(stats.min, 0);
    assert_eq!(stats.max, 33);
    assert_eq!(stats_line(stats), "AVG: 0.63 ms | MIN: 0 ms | MAX: 33 ms");
}

#[test]
fn average_of_a_full_window() {
    let values: Vec<u64> = (1..=100u64).collect();
    let stats = summarize(&values);
    assert_eq!(stats, Stats { min: 1, max: 100, avg_hundredths: 5050 });
    assert_eq!(stats_line(stats), "AVG: 50.50 ms | MIN: 1 ms | MAX: 100 ms");
}

#[test]
fn average_rounds_to_the_nearest_hundredth() {
    // 1 / 3 = 0.333.. and 2 / 3 = 0.666..
    assert_eq!(summarize(&vec![1, 0, 0]).avg_hundredths, 33);
    assert_eq!(summarize(&vec![1, 1, 0]).avg_hundredths, 67);
    // ties go to the even hundredth: 1 / 8 = 0.125, 3 / 8 = 0.375
    assert_eq!(summarize(&vec![1, 0, 0, 0, 0, 0, 0, 0]).avg_hundredths, 12);
    assert_eq!(summarize(&vec![3, 0, 0, 0, 0, 0, 0, 0]).avg_hundredths, 38);
    // 199 / 200 = 0.995 rounds up into the next whole
    let mut values = vec![1u64; 199];
    values.push(0);
    assert_eq!(summarize(&values).avg_hundredths, 100);
}

#[test]
fn average_of_the_largest_values() {
    let stats = summarize(&vec![u64::MAX, u64::MAX]);
    assert_eq!(stats.min, u64::MAX);
    assert_eq!(stats.max, u64::MAX);
    assert_eq!(stats.avg_hundredths, u64::MAX as u128 * 100);
    assert_eq!(
        stats_line(stats),
        "AVG: 18446744073709551615.00 ms | MIN: 18446744073709551615 ms | MAX: 18446744073709551615 ms"
    );
}

#[test]
fn stats_line_has_two_decimals() {
    let line = stats_line(Stats { min: 3, max: 250, avg_hundredths: 1205 });
    assert_eq!(line, "AVG: 12.05 ms | MIN: 3 ms | MAX: 250 ms");
    let line = stats_line(Stats { min: 0, max: 9, avg_hundredths: 7 });
    assert_eq!(line, "AVG: 0.07 ms | MIN: 0 ms | MAX: 9 ms");
    let line = stats_line(Stats { min: 10, max: 10, avg_hundredths: 1000 });
    assert_eq!(line, "AVG: 10.00 ms | MIN: 10 ms | MAX: 10 ms");
    let line = stats_line(Stats { min: 1, max: 2, avg_hundredths: 190 });
    assert_eq!(line, "AVG: 1.90 ms | MIN: 1 ms | MAX: 2 ms");
}

#[test]
fn stats_line_matches_the_float_format_of_a_full_window() {
    let mut values = vec![0u64; 100];
    for (i, value) in values.iter_mut().enumerate() {
        *value = (i as u64 * 37 + 11) % 260;
    }
    let stats = summarize(&values);
    let sum: u64 = values.iter().sum();
    let avg = sum as f64 / 100.0;
    let expected = format!("AVG: {:.2} ms | MIN: {} ms | MAX: {} ms", avg, stats.min, stats.max);
    assert_eq!(stats_line(stats), expected);
}

#[test]
fn push_decimal_appends_the_numeral() {
    let mut text = String::from("n=");
    push_decimal(&mut text, 0);
    assert_eq!(text, "n=0");
    push_decimal(&mut text, 9);
    push_decimal(&mut text, 10);
    push_decimal(&mut text, 1234567890);
    assert_eq!(text, "n=09101234567890");
    let mut big = String::new();
    push_decimal(&mut big, u128::MAX);
    assert_eq!(big, "340282366920938463463374607431768211455");
    assert_eq!(big, format!("{}", u128::MAX));
}

#[test]
fn frame_blanks_the_old_frame_then_writes_the_new_one() {
    let steps = frame(String::from("AVG: 1.00 ms | MIN: 1 ms | MAX: 1 ms"), String::from("plot"));
    assert_eq!(
        steps,
        vec![
            DrawOp::MoveToRow { row: 1 },
            DrawOp::ClearLine,
            DrawOp::MoveToRow { row: 2 },
            DrawOp::ClearBelow,
            DrawOp::MoveToRow { row: 0 },
            DrawOp::ClearLine,
            DrawOp::Print { text: String::from("AVG: 1.00 ms | MIN: 1 ms | MAX: 1 ms") },
            DrawOp::MoveToRow { row: 2 },
            DrawOp::Print { text: String::from("plot") },
        ]
    );
}
