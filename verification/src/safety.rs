//! The brake on repeated fixes.

use vstd::prelude::*;

verus! {

/// Failures of the same action within the window before it is held back until the window
/// rolls over.
pub const FAILURE_BREAKER_THRESHOLD: i64 = 3;

/// Whether an action must not run again yet, by its runs within the window: it succeeded,
/// so there is no point in running it again, or it failed often enough to back off.
pub open spec fn held_back(successes: int, total: int) -> bool {
    successes > 0 || total - successes >= FAILURE_BREAKER_THRESHOLD
}

/// Whether an action must not run again yet, given how many of its runs within the window
/// succeeded and how many there were.
pub fn rate_limited(successes: i64, total: i64) -> (r: bool)
    ensures
        r == held_back(successes as int, total as int),
{
    successes > 0 || total as i128 - successes as i128 >= FAILURE_BREAKER_THRESHOLD as i128
}

/// One success within the window holds an action back however often it ran.
pub proof fn a_success_holds_back(successes: int, total: int)
    requires
        successes > 0,
    ensures
        held_back(successes, total),
{
}

/// One more failure never lets an action run that was held back.
pub proof fn more_failures_never_release(successes: int, total: int)
    requires
        held_back(successes, total),
    ensures
        held_back(successes, total + 1),
{
}

/// Without a success, the third failure within the window holds an action back, and no sooner
/// one does; an action that never ran is not held back.
pub proof fn third_failure_holds_back(failures: int)
    requires
        failures >= 0,
    ensures
        held_back(0, failures) <==> failures >= 3,
        !held_back(0, 0),
{
}

} // verus!
