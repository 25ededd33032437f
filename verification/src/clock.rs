//! Wall-clock access for the registry's convenience entry points.

use vstd::prelude::*;

verus! {

/// Relies on chrono's `Utc::now`: the current wall-clock time in
/// milliseconds since the Unix epoch. The value depends on the machine's
/// clock, so nothing is promised of it.
#[verifier::external_body]
pub(crate) fn now_millis() -> (t: i64) {
    chrono::Utc::now().timestamp_millis()
}

} // verus!
