//! Fresh job id generation.

use vstd::prelude::*;

verus! {

/// Relies on uuid's `Uuid::new_v4`: a freshly generated version-4 id,
/// carried as its 128-bit value. The id is random, so nothing is promised
/// of it; in particular, distinctness from earlier ids is checked by the
/// callers that need it.
#[verifier::external_body]
pub(crate) fn fresh_calc_id() -> (id: u128) {
    uuid::Uuid::new_v4().as_u128()
}

} // verus!
