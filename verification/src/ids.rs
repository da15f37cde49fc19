//! Task identifier generation. An identifier is a 128-bit value drawn at
//! random; nothing in the library depends on more than its value.

use vstd::prelude::*;

verus! {

/// Draw a fresh random task identifier.
///
/// Relies on `uuid::Uuid::new_v4` for the random value; nothing is promised
/// of the result, and every caller states what holds whatever came back.
#[verifier::external_body]
pub(crate) fn fresh_task_id() -> u128 {
    uuid::Uuid::new_v4().as_u128()
}

} // verus!
