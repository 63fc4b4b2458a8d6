use vstd::prelude::*;

verus! {

/// Relies on ethox::time::Instant::now, read out as total milliseconds.
/// The time is whatever the system clock says: nothing is promised of it.
/// Inside ethox, the conversion from the system time panics when the
/// clock reads before the Unix epoch — an environment condition that no
/// precondition can exclude.
#[verifier::external_body]
pub(crate) fn now_millis() -> i64 {
    ethox::time::Instant::now().total_millis()
}

} // verus!
