//! Scoring rules: points for a completed subtask and the task-level
//! complexity bonus.

use vstd::prelude::*;

verus! {

/// Points every completed subtask earns.
pub const BASE_POINTS: i64 = 10;

/// Extra points for an efficient completion.
pub const EFFICIENCY_BONUS: i64 = 5;

/// A completion under this many seconds (25 minutes) counts as efficient.
pub const EFFICIENT_SECONDS: i64 = 1_500;

/// Extra points attributed to a task once its five-or-more subtasks are all
/// done.
pub const COMPLEXITY_BONUS: i64 = 20;

/// How many subtasks a task needs before the complexity bonus can apply.
pub const COMPLEXITY_MIN_SUBTASKS: i64 = 5;

/// Points earned by completing a subtask that took `d` seconds.
pub open spec fn spec_points(d: int) -> int {
    if d < EFFICIENT_SECONDS {
        BASE_POINTS + EFFICIENCY_BONUS
    } else {
        BASE_POINTS as int
    }
}

/// Whether a completion of `d` seconds earns the efficiency bonus.
pub open spec fn spec_efficient(d: int) -> bool {
    d < EFFICIENT_SECONDS
}

/// Points earned by completing a subtask that took `d` seconds: the base,
/// plus the efficiency bonus when the time is under the threshold.
pub fn points_for_duration(d: i64) -> (p: i64)
    ensures
        p == spec_points(d as int),
{
    if d < EFFICIENT_SECONDS {
        BASE_POINTS + EFFICIENCY_BONUS
    } else {
        BASE_POINTS
    }
}

/// Experience awarded for a completion: one point of experience per second
/// of tracked work.
pub fn xp_for_duration(d: i64) -> (xp: i64)
    ensures
        xp == d,
{
    d
}

} // verus!
