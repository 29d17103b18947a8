//! Fresh identifiers for tree nodes.

use vstd::prelude::*;

verus! {

/// Relies on `uuid::Uuid::new_v4`, which draws a fresh random version-4
/// identifier, and `uuid::Uuid::as_u128`, which returns it as its 128-bit
/// value. The result depends on a random generator, so nothing is promised
/// of it; identities are treated as plain data by everything else.
#[verifier::external_body]
pub(crate) fn fresh_id() -> u128 {
    uuid::Uuid::new_v4().as_u128()
}

} // verus!
