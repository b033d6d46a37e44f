//! The trail of a body: its most recent positions.

use vstd::prelude::*;
use crate::vector::Vec2;

verus! {

/// The number of positions that a trail keeps.
pub const TRACE_LENGTH: usize = 100;

/// The trail after one more position: the position is added at the end,
/// and where the trail is then longer than `limit`, its oldest position is
/// dropped.
pub open spec fn recorded(trace: Seq<Vec2>, position: Vec2, limit: int) -> Seq<Vec2> {
    let longer = trace.push(position);
    if longer.len() > limit {
        longer.subrange(1, longer.len() as int)
    } else {
        longer
    }
}

/// Adds a position to a trail that keeps the last `TRACE_LENGTH` positions.
pub fn record(trace: &mut Vec<Vec2>, position: Vec2)
    ensures
        final(trace)@ == recorded(old(trace)@, position, TRACE_LENGTH as int),
{
    trace.push(position);
    if trace.len() > TRACE_LENGTH {
        trace.remove(0);
    }
}

} // verus!
