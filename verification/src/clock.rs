//! The wall clock.

use vstd::prelude::*;

verus! {

/// Calls `chrono::Utc::now` and takes its `timestamp`: the current time in
/// whole seconds since the epoch. Trusted, and nothing is claimed of the
/// value: callers hold for every time.
#[verifier::external_body]
pub(crate) fn current_timestamp() -> (now: i64) {
    chrono::Utc::now().timestamp()
}

} // verus!
