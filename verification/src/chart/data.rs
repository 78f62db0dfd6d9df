//! Series rendering options and buffer bookkeeping.

use vstd::prelude::*;

verus! {

/// Rendering style per series.
#[derive(Clone, Copy, Debug, Default, PartialEq, Eq, Structural)]
pub enum SeriesStyle {
    /// A connected line through the data points.
    #[default]
    Line,
}

/// How to handle missing data points (gaps).
#[derive(Clone, Copy, Debug, Default, PartialEq, Eq, Structural)]
pub enum ConnectPolicy {
    /// Break the line across gaps.
    #[default]
    Gap,
}

/// Bound a time-ordered buffer to `max_points` entries by evicting the
/// oldest: when it holds more, only the newest `max_points` remain, in
/// order; otherwise it is left as it was.
pub fn evict_oldest<T>(points: &mut Vec<T>, max_points: usize)
    ensures
        old(points).len() > max_points ==> final(points)@ == old(points)@.skip(
            old(points).len() - max_points,
        ),
        old(points).len() <= max_points ==> final(points)@ == old(points)@,
{
    if points.len() > max_points {
        let excess = points.len() - max_points;
        let newest = points.split_off(excess);
        *points = newest;
    }
}

/// Index bounds of the points inside a time range widened by one
/// neighbor on each side (so lines reach the plot border), given the
/// bounds `[start, end)` of the points inside the range and the number of
/// points `len`.
pub fn padded_bounds(start: usize, end: usize, len: usize) -> (r: (usize, usize))
    ensures
        r.0 == (if start > 0 {
            start - 1
        } else {
            0
        }),
        r.1 == (if end < len {
            end + 1
        } else {
            len as int
        }),
        r.1 <= len,
        start <= end && end <= len ==> r.0 <= r.1,
{
    let lo = if start > 0 {
        start - 1
    } else {
        0
    };
    let hi = if end < len {
        end + 1
    } else {
        len
    };
    (lo, hi)
}

} // verus!
