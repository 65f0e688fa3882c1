//! Identifier generation for new records.

use vstd::prelude::*;

verus! {

/// Relies on uuid's Uuid::new_v4 and its string rendering: draws a fresh
/// random identifier, about which nothing can be promised — callers check
/// it against the ids already stored.
#[verifier::external_body]
pub(crate) fn new_id() -> String {
    uuid::Uuid::new_v4().to_string()
}

} // verus!
