//! The current time, read once per decision from the system clock.

use vstd::prelude::*;

verus! {

/// Relies on `chrono::Utc::now`: the current time in milliseconds since the
/// Unix epoch.  Nothing is assumed of the clock's value.  Like every caller
/// of that function, this panics on a host clock set before the epoch: the
/// failure is the outside call's own and no input of ours can exclude it.
#[verifier::external_body]
pub(crate) fn now_millis() -> i64 {
    chrono::Utc::now().timestamp_millis()
}

} // verus!
