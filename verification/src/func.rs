//! Windows of samples around a position of a series.
//!
//! A window of odd size `window_size` around `index` reaches half the size,
//! rounded down, to either side, and so covers `window_size` positions. A
//! window of even size has no middle. It begins one position further right,
//! `half - 1` positions before `index`. The padded window then also ends one
//! position further right, `half + 1` positions after `index`, and covers
//! `window_size + 1` positions; the clamped window ends `half` positions
//! after `index`.

use vstd::prelude::*;

verus! {

/// Half of the window size, rounded towards zero.
pub open spec fn half(window_size: int) -> int {
    if window_size >= 0 {
        window_size / 2
    } else {
        -((-window_size) / 2)
    }
}

/// How far a window of this size is moved to the right: one position for an
/// even size, none for an odd one.
pub open spec fn even_offset(window_size: int) -> int {
    if window_size % 2 == 0 {
        1
    } else {
        0
    }
}

/// First position of the window around `index`.
pub open spec fn lower_bound(window_size: int, index: int) -> int {
    index - half(window_size) + even_offset(window_size)
}

/// Last position of the clamped window around `index`, before it is cut to
/// the series.
pub open spec fn upper_bound(window_size: int, index: int) -> int {
    index + half(window_size)
}

/// Last position of the padded window around `index`.
pub open spec fn padded_upper_bound(window_size: int, index: int) -> int {
    index + half(window_size) + even_offset(window_size)
}

/// The sample at `position`, and `fill` where the series has none.
pub open spec fn sample_at<T>(arr: Seq<T>, position: int, fill: T) -> T {
    if 0 <= position < arr.len() {
        arr[position]
    } else {
        fill
    }
}

/// Number of samples in the padded window: one `fill` for each position
/// before the series, then one sample for each position from the start of the
/// series, or of the window if that is later, to the end of the window.
pub open spec fn window_len(window_size: int, index: int) -> int {
    let lower = lower_bound(window_size, index);
    let upper = padded_upper_bound(window_size, index);
    let first = if lower < 0 {
        0
    } else {
        lower
    };
    let padding = first - lower;
    let taken = if upper + 1 > first {
        upper + 1 - first
    } else {
        0
    };
    padding + taken
}

/// The padded window around `index`: the samples from the first position of
/// the window on, with `fill` for every position outside the series.
pub open spec fn samples_window<T>(arr: Seq<T>, window_size: int, index: int, fill: T) -> Seq<T> {
    Seq::new(
        window_len(window_size, index) as nat,
        |k: int| sample_at(arr, lower_bound(window_size, index) + k, fill),
    )
}

/// First position of the clamped window: that of the window, but not before
/// the series.
pub open spec fn clamped_lower(window_size: int, index: int) -> int {
    if lower_bound(window_size, index) < 0 {
        0
    } else {
        lower_bound(window_size, index)
    }
}

/// End of the clamped window: the last position of the window, but not past
/// the last sample of a series of `len` samples.
pub open spec fn clamped_upper(len: int, window_size: int, index: int) -> int {
    if upper_bound(window_size, index) > len - 1 {
        len - 1
    } else {
        upper_bound(window_size, index)
    }
}

/// The clamped window is a stretch of the series.
pub open spec fn clamped_window_exists(len: int, window_size: int, index: int) -> bool {
    0 <= clamped_lower(window_size, index) <= clamped_upper(len, window_size, index)
}

/// The samples of the window around `index`, for a window that may end past
/// the series or begin before it: positions before the series are filled with
/// `fill` on the left, and so is every position past its end. For a size and
/// an index that are not negative it holds `window_size` samples where the
/// size is odd and `window_size + 1` where it is even.
pub fn get_samples_window<T: Copy>(arr: &[T], window_size: i32, index: i32, fill: T) -> (window:
    Vec<T>)
    ensures
        window@ == samples_window(arr@, window_size as int, index as int, fill),
        window_size >= 0 && index >= 0 ==> window@.len() == window_size + even_offset(
            window_size as int,
        ),
{
    let halved_window_size = (window_size / 2) as i64;
    let is_even = window_size % 2 == 0;
    assert(halved_window_size == half(window_size as int));
    assert(is_even == (window_size as int % 2 == 0));
    let offset: i64 = if is_even {
        1
    } else {
        0
    };
    let lower_bound: i64 = index as i64 - halved_window_size + offset;
    let upper_bound: i64 = index as i64 + halved_window_size + offset;
    let final_lower_bound: i64 = if lower_bound < 0 {
        0
    } else {
        lower_bound
    };
    let ghost wanted = samples_window(arr@, window_size as int, index as int, fill);

    let mut window: Vec<T> = Vec::new();
    let mut padded: i64 = lower_bound;
    while padded < final_lower_bound
        invariant
            lower_bound <= padded <= final_lower_bound,
            final_lower_bound == 0 || final_lower_bound == lower_bound,
            window@.len() == padded - lower_bound,
            forall|k: int| 0 <= k < window@.len() ==> window@[k] == fill,
        decreases final_lower_bound - padded,
    {
        window.push(fill);
        padded = padded + 1;
    }

    let mut el: i64 = final_lower_bound;
    while el <= upper_bound
        invariant
            0 <= final_lower_bound <= el,
            el <= upper_bound + 1 || el == final_lower_bound,
            upper_bound < 0x1_0000_0000,
            final_lower_bound - lower_bound >= 0,
            window@.len() == (final_lower_bound - lower_bound) + (el - final_lower_bound),
            forall|k: int|
                0 <= k < window@.len() ==> window@[k] == sample_at(arr@, lower_bound + k, fill),
        decreases upper_bound + 1 - el,
    {
        let sample = if (el as usize) < arr.len() {
            arr[el as usize]
        } else {
            fill
        };
        window.push(sample);
        el = el + 1;
    }
    assert(window@ =~= wanted);
    window
}

/// The two ends of the clamped window around `index` in a series of `len`
/// samples, where that window is a stretch of the series; `None` where it is
/// not: in a series without samples, and where the window ends before the
/// series or before it begins.
pub fn clamped_bounds(len: usize, window_size: i32, index: i32) -> (bounds: Option<(usize, usize)>)
    ensures
        bounds.is_some() <==> clamped_window_exists(len as int, window_size as int, index as int),
        bounds matches Some((lower, upper)) ==> lower == clamped_lower(
            window_size as int,
            index as int,
        ) && upper == clamped_upper(len as int, window_size as int, index as int),
{
    let halved_window_size = (window_size / 2) as i64;
    let is_even = window_size % 2 == 0;
    assert(halved_window_size == half(window_size as int));
    assert(is_even == (window_size as int % 2 == 0));
    let lower_bound: i64 = index as i64 - halved_window_size + if is_even {
        1
    } else {
        0
    };
    let upper_bound: i64 = index as i64 + halved_window_size;

    if len == 0 || upper_bound < 0 {
        return None;
    }
    let lower_bound: usize = if lower_bound < 0 {
        0
    } else {
        lower_bound as usize
    };
    let upper_bound: usize = if upper_bound as usize > len - 1 {
        len - 1
    } else {
        upper_bound as usize
    };
    if lower_bound <= upper_bound {
        Some((lower_bound, upper_bound))
    } else {
        None
    }
}

/// The samples of the window around `index`, cut to the series: from the
/// first position of the window, or of the series if that is later, up to but
/// not including the last position of the window, or of the series if that is
/// earlier.
pub fn get_samples_window_partial<T: Copy>(arr: &Vec<T>, window_size: i32, index: i32) -> (window:
    Vec<T>)
    requires
        clamped_window_exists(arr.len() as int, window_size as int, index as int),
    ensures
        window@ == arr@.subrange(
            clamped_lower(window_size as int, index as int),
            clamped_upper(arr.len() as int, window_size as int, index as int),
        ),
{
    let (lower_bound, upper_bound) = clamped_bounds(arr.len(), window_size, index).unwrap();

    let mut window: Vec<T> = Vec::new();
    let mut el: usize = lower_bound;
    while el < upper_bound
        invariant
            lower_bound <= el <= upper_bound < arr.len(),
            window@ == arr@.subrange(lower_bound as int, el as int),
        decreases upper_bound - el,
    {
        window.push(arr[el]);
        el = el + 1;
        assert(window@ =~= arr@.subrange(lower_bound as int, el as int));
    }
    window
}

/// For a window size and an index that are not negative, the padded window
/// has `window_size` samples if the size is odd and `window_size + 1` if it is
/// even. Every position of the window before the series or past its end
/// holds `fill`, and every other position holds the sample of the series
/// there.
pub proof fn lemma_window_is_padded_to_size<T>(arr: Seq<T>, window_size: int, index: int, fill: T)
    requires
        window_size >= 0,
        index >= 0,
    ensures
        window_size % 2 == 1 ==> samples_window(arr, window_size, index, fill).len() == window_size,
        window_size % 2 == 0 ==> samples_window(arr, window_size, index, fill).len() == window_size
            + 1,
        lower_bound(window_size, index) + samples_window(arr, window_size, index, fill).len() - 1
            == padded_upper_bound(window_size, index),
        forall|k: int|
            #![trigger samples_window(arr, window_size, index, fill)[k]]
            0 <= k < samples_window(arr, window_size, index, fill).len() ==> samples_window(
                arr,
                window_size,
                index,
                fill,
            )[k] == sample_at(arr, lower_bound(window_size, index) + k, fill),
        forall|k: int|
            #![trigger samples_window(arr, window_size, index, fill)[k]]
            0 <= k < -lower_bound(window_size, index) && k < samples_window(
                arr,
                window_size,
                index,
                fill,
            ).len() ==> samples_window(arr, window_size, index, fill)[k] == fill,
{
}

} // verus!
