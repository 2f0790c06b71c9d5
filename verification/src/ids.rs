use vstd::prelude::*;
use crate::types::TreeId;

verus! {

/// Calls `uuid::Uuid::new_v4` and returns the 128-bit value of the UUID.
/// The value is random: nothing is stated of it.
#[verifier::external_body]
pub(crate) fn new_random_id() -> (id: TreeId) {
    uuid::Uuid::new_v4().as_u128()
}

} // verus!
