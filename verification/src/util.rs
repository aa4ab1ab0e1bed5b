//! Small supporting types: fixed-point positions, regions, the channel
//! mask, the snapping ruler, and a bounded history ring.

use vstd::prelude::*;

pub mod fx;
pub mod region;
pub mod ring_vec;
pub mod channel_mask;
pub mod ruler;

verus! {

/// Resolves optional range endpoints against a limit: a missing start is 0,
/// a missing end is the limit.
pub fn range_bounds(start: Option<usize>, end: Option<usize>, limit: usize) -> (r: (usize, usize))
    ensures
        r.0 == match start {
            Option::Some(s) => s,
            Option::None => 0,
        },
        r.1 == match end {
            Option::Some(e) => e,
            Option::None => limit,
        },
{
    let s = match start {
        Some(s) => s,
        None => 0,
    };
    let e = match end {
        Some(e) => e,
        None => limit,
    };
    (s, e)
}

} // verus!
