//! A choice among listed rows that moves by one and stops at the ends rather than wrapping.
use vstd::prelude::*;

verus! {

/// The last row a choice can stand on among `count` rows; the first when there are none.
pub open spec fn last_row(count: int) -> int {
    if count > 0 {
        count - 1
    } else {
        0
    }
}

/// Where a choice at `current` among `count` rows lands after one step, stopping at the ends.
pub open spec fn step_index(current: int, count: int, forward: bool) -> int {
    if forward {
        if current + 1 <= last_row(count) {
            current + 1
        } else {
            last_row(count)
        }
    } else if current > 0 {
        current - 1
    } else {
        0
    }
}

/// A choice at `current` brought back among `count` rows.
pub open spec fn clamp_index(current: int, count: int) -> int {
    if current <= last_row(count) {
        current
    } else {
        last_row(count)
    }
}

/// One step of a choice among `count` rows.
pub fn stepped(current: usize, count: usize, forward: bool) -> (next: usize)
    ensures
        next == step_index(current as int, count as int, forward),
{
    let last = if count > 0 {
        count - 1
    } else {
        0
    };
    if forward {
        let ahead = if current < usize::MAX {
            current + 1
        } else {
            current
        };
        if ahead <= last {
            ahead
        } else {
            last
        }
    } else if current > 0 {
        current - 1
    } else {
        0
    }
}

/// A choice brought back among `count` rows.
pub fn clamped(current: usize, count: usize) -> (next: usize)
    ensures
        next == clamp_index(current as int, count as int),
{
    let last = if count > 0 {
        count - 1
    } else {
        0
    };
    if current <= last {
        current
    } else {
        last
    }
}


/// Bringing a choice back among its rows twice is bringing it back once, and a non-negative
/// choice among some rows lands on one of them.
pub proof fn law_clamping_twice_changes_nothing(current: int, count: int)
    ensures
        clamp_index(clamp_index(current, count), count) == clamp_index(current, count),
        0 <= current && count > 0 ==> 0 <= clamp_index(current, count) < count,
{
}

/// A step never wraps from one end to the other: forward it stops at the last row, backward at
/// the first, and it moves exactly when there is a row to move to.
pub proof fn law_a_step_never_wraps(current: int, count: int, forward: bool)
    requires
        0 <= current <= last_row(count),
    ensures
        0 <= step_index(current, count, forward) <= last_row(count),
        (step_index(current, count, forward) != current) == (if forward { current < last_row(count) } else { current > 0 }),
        step_index(current, count, forward) != current ==> (if forward {
            step_index(current, count, forward) == current + 1
        } else {
            step_index(current, count, forward) == current - 1
        }),
{
}

} // verus!
