//! The wall clock, as a trusted boundary.

use vstd::prelude::*;

verus! {

/// Relies on chrono's `Utc::now().timestamp()`: the current wall-clock
/// time as whole unix seconds.  Nothing is promised of the value; callers
/// treat it as an arbitrary reading.
#[verifier::external_body]
pub fn now_ts() -> i64 {
    chrono::Utc::now().timestamp()
}

} // verus!
