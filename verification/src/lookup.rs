//! Where a queried value falls along a curve, and what a query answers.
//!
//! A query either meets the curve at or beyond one of its ends, where the
//! curve is continued flat, or it falls between two neighbouring samples. In
//! the first case the answer is a stored value. In the second the histogram
//! names the two samples, and the value between them is left to whoever can
//! compute with doubles.

use vstd::prelude::*;
use crate::binary64::magnitude;

verus! {

/// The stretch of the curve between two neighbouring samples, and the place
/// on it that was asked for.
///
/// `x` is the queried value, `x0` and `x1` are the values of the two samples
/// on the queried axis, `y0` and `y1` their values on the other axis. The
/// answer is the point at `x` on the straight line from (`x0`, `y0`) to
/// (`x1`, `y1`): `y0 + (x - x0) * (y1 - y0) / (x1 - x0)`. A segment that a
/// query returns has `x0` strictly below `x` and `x` at most `x1`, so the
/// divisor is never zero.
#[derive(Clone, Copy, Debug, PartialEq, Eq, Structural)]
pub struct Segment {
    pub x: u64,
    pub x0: u64,
    pub x1: u64,
    pub y0: u64,
    pub y1: u64,
}

/// The answer to a query.
#[derive(Clone, Copy, Debug, PartialEq, Eq, Structural)]
pub enum Reading {
    /// The answer is this stored value.
    Exact(u64),
    /// The answer lies on this segment.
    Between(Segment),
}

impl Segment {
    /// The queried value lies on the segment, above its start: `x0 < x <= x1`.
    pub open spec fn encloses(self) -> bool {
        magnitude(self.x0) < magnitude(self.x) <= magnitude(self.x1)
    }
}

/// The position of the first of `values` that is at least `x`, or the length
/// of `values` if all are below `x`.
pub open spec fn first_at_least(values: Seq<u64>, x: u64) -> int
    decreases values.len(),
{
    if values.len() == 0 || magnitude(x) <= magnitude(values[0]) {
        0
    } else {
        1 + first_at_least(values.drop_first(), x)
    }
}

/// The position of the last of `values` that is at least `x`, or -1 if all
/// are below `x`.
pub open spec fn last_at_least(values: Seq<u64>, x: u64) -> int
    decreases values.len(),
{
    if values.len() == 0 {
        -1
    } else if magnitude(x) <= magnitude(values.last()) {
        values.len() - 1
    } else {
        last_at_least(values.drop_last(), x)
    }
}

/// [`first_at_least`] is a position of `values` or their length; every value
/// before it is below `x`, and the value at it is not.
pub proof fn lemma_first_at_least(values: Seq<u64>, x: u64)
    ensures
        0 <= first_at_least(values, x) <= values.len(),
        forall|k: int| 0 <= k < first_at_least(values, x) ==> magnitude(#[trigger] values[k]) < magnitude(x),
        first_at_least(values, x) < values.len() ==> magnitude(x) <= magnitude(values[first_at_least(values, x)]),
    decreases values.len(),
{
    if values.len() != 0 && magnitude(x) > magnitude(values[0]) {
        let rest = values.drop_first();
        lemma_first_at_least(rest, x);
        assert forall|k: int| 0 <= k < first_at_least(values, x) implies magnitude(
            #[trigger] values[k],
        ) < magnitude(x) by {
            if k > 0 {
                assert(values[k] == rest[k - 1]);
            }
        }
    }
}

/// A position with only smaller values before it, which holds a value that is
/// at least `x` or is the end of `values`, is [`first_at_least`].
pub proof fn lemma_first_at_least_is(values: Seq<u64>, x: u64, at: int)
    requires
        0 <= at <= values.len(),
        forall|k: int| 0 <= k < at ==> magnitude(#[trigger] values[k]) < magnitude(x),
        at < values.len() ==> magnitude(x) <= magnitude(values[at]),
    ensures
        first_at_least(values, x) == at,
{
    lemma_first_at_least(values, x);
}

/// [`last_at_least`] is a position of `values` or -1; every value after it is
/// below `x`, and the value at it is not.
pub proof fn lemma_last_at_least(values: Seq<u64>, x: u64)
    ensures
        -1 <= last_at_least(values, x) < values.len(),
        forall|k: int| last_at_least(values, x) < k < values.len() ==> magnitude(#[trigger] values[k]) < magnitude(x),
        0 <= last_at_least(values, x) ==> magnitude(x) <= magnitude(values[last_at_least(values, x)]),
    decreases values.len(),
{
    if values.len() != 0 && magnitude(x) > magnitude(values.last()) {
        let rest = values.drop_last();
        lemma_last_at_least(rest, x);
        assert forall|k: int| last_at_least(values, x) < k < values.len() implies magnitude(
            #[trigger] values[k],
        ) < magnitude(x) by {
            if k < values.len() - 1 {
                assert(values[k] == rest[k]);
            }
        }
    }
}

/// A position with only smaller values after it, which holds a value that is
/// at least `x` or is -1, is [`last_at_least`].
pub proof fn lemma_last_at_least_is(values: Seq<u64>, x: u64, at: int)
    requires
        -1 <= at < values.len(),
        forall|k: int| at < k < values.len() ==> magnitude(#[trigger] values[k]) < magnitude(x),
        0 <= at ==> magnitude(x) <= magnitude(values[at]),
    ensures
        last_at_least(values, x) == at,
{
    lemma_last_at_least(values, x);
}

} // verus!
