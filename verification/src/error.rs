//! The error taxonomy shared by every operation of the library.
//!
//! Every failure is returned as a typed value; nothing in the library
//! logs, prints or panics.

use vstd::prelude::*;

use crate::task::Status;

verus! {

/// A typed failure of a library operation.
///
/// * `TaskNotFound` / `UserNotFound`: the identifier is absent.
/// * `InvalidStatusTransition`: an illegal state change, carrying the
///   attempted `from` and `to` states.
/// * `Validation`: malformed or empty required input, rejected before any
///   mutation.
/// * `Serialization`: corrupt or unreadable persisted data.
/// * `Authentication` / `Authorization`: account-layer failures.
#[derive(Clone, PartialEq, Eq, Debug)]
pub enum TaskFlowError {
    TaskNotFound { id: u128 },
    UserNotFound { id: u128 },
    InvalidStatusTransition { from: Status, to: Status },
    Validation { message: String },
    Serialization { message: String },
    Authentication { message: String },
    Authorization { message: String },
}

} // verus!
