//! The outcome of a failed ledger operation: a code and a message for people.

use vstd::prelude::*;

verus! {

/// What kind of failure an operation met.
#[derive(Clone, Copy, Debug, PartialEq, Eq, Structural)]
pub enum StatusCode {
    /// A malformed or inconsistent request.
    InvalidArgument,
    /// No live key has the id that the request names.
    NotFound,
    /// No transform of the policy admits the requesting application.
    FailedPrecondition,
    /// The blob was revoked, or every transform that admits the application is used up.
    ResourceExhausted,
    /// The ledger's own bookkeeping broke a rule it keeps.
    Internal,
}

/// A failed operation: its code, and a message that is not part of the contract.
#[derive(Clone, Debug, PartialEq, Eq)]
pub struct Status {
    pub code: StatusCode,
    pub message: String,
}

impl Status {
    pub fn new(code: StatusCode, message: &str) -> (r: Status)
        ensures
            r.code == code,
            r.message@ == message@,
    {
        Status { code, message: message.to_owned() }
    }
}

} // verus!
