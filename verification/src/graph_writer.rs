//! What the renderer shows for one snapshot: the statistics above the plot
//! (lowest, highest and average value, and the line of text that reports
//! them) and the order in which a frame is drawn over the previous one.

use crate::window_model::{lemma_total_bound, total};
use vstd::arithmetic::div_mod::{lemma_fundamental_div_mod, lemma_fundamental_div_mod_converse};
use vstd::prelude::*;
use vstd::string::StringExecFns;

verus! {

/// Summary of one snapshot. `avg_hundredths` is the average in hundredths of a
/// millisecond; `min` and `max` are whole milliseconds.
#[derive(Debug, Clone, Copy, PartialEq, Eq, Structural)]
pub struct Stats {
    pub min: u64,
    pub max: u64,
    pub avg_hundredths: u128,
}

/// `value` is the least of `values`, or 0 where there are none.
pub open spec fn is_lowest(values: Seq<u64>, value: u64) -> bool {
    if values.len() == 0 {
        value == 0
    } else {
        &&& exists|i: int| 0 <= i < values.len() && values[i] == value
        &&& forall|i: int| 0 <= i < values.len() ==> value <= values[i]
    }
}

/// `value` is the greatest of `values`, or 0 where there are none.
pub open spec fn is_highest(values: Seq<u64>, value: u64) -> bool {
    if values.len() == 0 {
        value == 0
    } else {
        &&& exists|i: int| 0 <= i < values.len() && values[i] == value
        &&& forall|i: int| 0 <= i < values.len() ==> values[i] <= value
    }
}

/// The fraction `sum / count` in hundredths, rounded to the nearest hundredth,
/// a tie going to the even one.
pub open spec fn nearest_hundredth(sum: nat, count: nat) -> nat
    recommends
        count > 0,
{
    let scaled = sum * 100;
    let below = scaled / count;
    let rest = scaled % count;
    if 2 * rest > count || (2 * rest == count && below % 2 == 1) {
        below + 1
    } else {
        below
    }
}

/// Average of a snapshot in hundredths of a millisecond: the sum of its
/// values over the number of its slots. Slots without samples count among the
/// slots and add nothing to the sum. 0 for a snapshot without slots.
pub open spec fn average_hundredths(values: Seq<u64>) -> nat {
    if values.len() == 0 {
        0
    } else {
        nearest_hundredth(total(values), values.len())
    }
}

/// Lowest, highest and average value of a snapshot.
pub fn summarize(values: &Vec<u64>) -> (stats: Stats)
    ensures
        is_lowest(values@, stats.min),
        is_highest(values@, stats.max),
        stats.avg_hundredths == average_hundredths(values@),
{
    let count = values.len();
    if count == 0 {
        return Stats { min: 0, max: 0, avg_hundredths: 0 };
    }
    let mut min: u64 = values[0];
    let mut max: u64 = values[0];
    let mut sum: u128 = 0;
    let mut i: usize = 0;
    while i < count
        invariant
            count == values.len(),
            0 < count,
            i <= count,
            sum as nat == total(values@.subrange(0, i as int)),
            exists|k: int| 0 <= k < count && values@[k] == min,
            exists|k: int| 0 <= k < count && values@[k] == max,
            forall|k: int| 0 <= k < i ==> min <= #[trigger] values@[k] && values@[k] <= max,
        decreases count - i,
    {
        proof {
            let next = values@.subrange(0, i + 1);
            assert(next.drop_last() =~= values@.subrange(0, i as int));
            lemma_total_bound(next);
            assert(next.len() * u64::MAX <= usize::MAX * u64::MAX) by (nonlinear_arith)
                requires
                    next.len() <= usize::MAX,
            ;
        }
        let value = values[i];
        if value < min {
            min = value;
        }
        if value > max {
            max = value;
        }
        sum = sum + value as u128;
        i = i + 1;
    }
    proof {
        assert(values@.subrange(0, count as int) =~= values@);
        lemma_total_bound(values@);
    }
    Stats { min, max, avg_hundredths: hundredths(sum, count) }
}

/// `sum / count` in hundredths, to the nearest hundredth, ties to even.
fn hundredths(sum: u128, count: usize) -> (value: u128)
    requires
        count > 0,
        sum <= count * u64::MAX,
    ensures
        value == nearest_hundredth(sum as nat, count as nat),
{
    let n = count as u128;
    let whole = sum / n;
    let left = sum % n;
    let scaled_left = left * 100;
    let part = scaled_left / n;
    let rest = scaled_left % n;
    proof {
        let s = sum as int;
        let c = count as int;
        lemma_fundamental_div_mod(s, c);
        lemma_fundamental_div_mod(left as int * 100, c);
        assert(whole <= u64::MAX) by (nonlinear_arith)
            requires
                whole == s / c,
                c > 0,
                0 <= s <= c * u64::MAX,
        ;
        assert(part < 100) by (nonlinear_arith)
            requires
                part == (left * 100) / c,
                c > 0,
                0 <= left < c,
        ;
        assert(s * 100 == c * (whole * 100 + part) + rest) by (nonlinear_arith)
            requires
                s == c * whole + left,
                left * 100 == c * part + rest,
        ;
        lemma_fundamental_div_mod_converse(s * 100, c, whole * 100 + part, rest as int);
    }
    let below = whole * 100 + part;
    if rest > n - rest || (rest == n - rest && below % 2 == 1) {
        below + 1
    } else {
        below
    }
}

/// The character of one decimal digit.
pub open spec fn digit(d: nat) -> char
    recommends
        d < 10,
{
    if d == 0 {
        '0'
    } else if d == 1 {
        '1'
    } else if d == 2 {
        '2'
    } else if d == 3 {
        '3'
    } else if d == 4 {
        '4'
    } else if d == 5 {
        '5'
    } else if d == 6 {
        '6'
    } else if d == 7 {
        '7'
    } else if d == 8 {
        '8'
    } else {
        '9'
    }
}

/// Decimal numeral of a number, without leading zeros.
pub open spec fn decimal(n: nat) -> Seq<char>
    decreases n,
{
    if n < 10 {
        seq![digit(n)]
    } else {
        decimal(n / 10).push(digit(n % 10))
    }
}

/// Text of the statistics line: the average with two decimals, then the
/// lowest and the highest value, each in milliseconds.
pub open spec fn stats_text(stats: Stats) -> Seq<char> {
    let whole = (stats.avg_hundredths / 100) as nat;
    let part = (stats.avg_hundredths % 100) as nat;
    "AVG: "@ + decimal(whole) + "."@ + seq![digit(part / 10), digit(part % 10)] + " ms | MIN: "@
        + decimal(stats.min as nat) + " ms | MAX: "@ + decimal(stats.max as nat) + " ms"@
}

/// One decimal digit as text.
fn digit_text(d: u8) -> (text: &'static str)
    requires
        d < 10,
    ensures
        text@ == seq![digit(d as nat)],
{
    proof {
        reveal_strlit("0");
        reveal_strlit("1");
        reveal_strlit("2");
        reveal_strlit("3");
        reveal_strlit("4");
        reveal_strlit("5");
        reveal_strlit("6");
        reveal_strlit("7");
        reveal_strlit("8");
        reveal_strlit("9");
    }
    let text = match d {
        0 => "0",
        1 => "1",
        2 => "2",
        3 => "3",
        4 => "4",
        5 => "5",
        6 => "6",
        7 => "7",
        8 => "8",
        _ => "9",
    };
    assert(text@ =~= seq![digit(d as nat)]);
    text
}

/// Appends the decimal numeral of `n` to `text`.
pub fn push_decimal(text: &mut String, n: u128)
    ensures
        final(text)@ == old(text)@ + decimal(n as nat),
    decreases n,
{
    if n >= 10 {
        push_decimal(text, n / 10);
    }
    text.append(digit_text((n % 10) as u8));
    assert(text@ =~= old(text)@ + decimal(n as nat));
}

/// The statistics line, as in `AVG: 12.50 ms | MIN: 0 ms | MAX: 31 ms`.
pub fn stats_line(stats: Stats) -> (line: String)
    ensures
        line@ == stats_text(stats),
{
    let whole = stats.avg_hundredths / 100;
    let part = (stats.avg_hundredths % 100) as u8;
    let mut line = String::new();
    line.append("AVG: ");
    push_decimal(&mut line, whole);
    line.append(".");
    line.append(digit_text(part / 10));
    line.append(digit_text(part % 10));
    line.append(" ms | MIN: ");
    push_decimal(&mut line, stats.min as u128);
    line.append(" ms | MAX: ");
    push_decimal(&mut line, stats.max as u128);
    line.append(" ms");
    assert(line@ =~= stats_text(stats));
    line
}

/// Terminal row of the statistics line.
pub const STATS_ROW: u16 = 0;

/// Terminal row kept blank between the statistics line and the plot.
pub const GAP_ROW: u16 = 1;

/// Terminal row where the plot begins.
pub const PLOT_ROW: u16 = 2;

/// One step of drawing a frame.
#[derive(Debug, PartialEq, Eq)]
pub enum DrawOp {
    /// Put the cursor at the start of `row`.
    MoveToRow { row: u16 },
    /// Blank the row of the cursor.
    ClearLine,
    /// Blank everything from the cursor to the end of the screen.
    ClearBelow,
    /// Write text at the cursor.
    Print { text: String },
}

/// The steps that draw a frame over the previous one: blank the gap row, the
/// plot region and the statistics row, then write the statistics line and,
/// from the plot row on, the plot.
pub open spec fn frame_steps(stats: String, plot: String) -> Seq<DrawOp> {
    seq![
        DrawOp::MoveToRow { row: GAP_ROW },
        DrawOp::ClearLine,
        DrawOp::MoveToRow { row: PLOT_ROW },
        DrawOp::ClearBelow,
        DrawOp::MoveToRow { row: STATS_ROW },
        DrawOp::ClearLine,
        DrawOp::Print { text: stats },
        DrawOp::MoveToRow { row: PLOT_ROW },
        DrawOp::Print { text: plot },
    ]
}

/// The steps that replace the frame on the terminal by one that shows
/// `stats` and `plot`. Whatever the previous frame drew, in whatever size, is
/// blanked before anything is written.
pub fn frame(stats: String, plot: String) -> (steps: Vec<DrawOp>)
    ensures
        steps@ == frame_steps(stats, plot),
{
    let mut steps: Vec<DrawOp> = Vec::new();
    steps.push(DrawOp::MoveToRow { row: GAP_ROW });
    steps.push(DrawOp::ClearLine);
    steps.push(DrawOp::MoveToRow { row: PLOT_ROW });
    steps.push(DrawOp::ClearBelow);
    steps.push(DrawOp::MoveToRow { row: STATS_ROW });
    steps.push(DrawOp::ClearLine);
    steps.push(DrawOp::Print { text: stats });
    steps.push(DrawOp::MoveToRow { row: PLOT_ROW });
    steps.push(DrawOp::Print { text: plot });
    assert(steps@ =~= frame_steps(stats, plot));
    steps
}

/// Nothing is written before every row of the old frame is blank, and the
/// statistics line is written before the plot.
pub proof fn lemma_frame_blanks_before_it_writes(stats: String, plot: String)
    ensures
        forall|i: int, j: int|
            0 <= i < frame_steps(stats, plot).len() && 0 <= j < frame_steps(stats, plot).len()
                && (frame_steps(stats, plot)[i] is ClearLine || frame_steps(stats, plot)[i]
                is ClearBelow) && frame_steps(stats, plot)[j] is Print ==> i < j,
        frame_steps(stats, plot)[6] == (DrawOp::Print { text: stats }),
        frame_steps(stats, plot)[8] == (DrawOp::Print { text: plot }),
{
}

} // verus!
