//! The two terminal payload shapes of an invocation: a success marker and a
//! failure carrying a human-readable error message.

use vstd::prelude::*;

verus! {

/// Payload produced when the notification was dispatched: the flag is set and
/// the error text is empty.
#[derive(Debug)]
pub struct SuccessResponse {
    pub was_successful: bool,
    pub error_message: String,
}

impl SuccessResponse {
    pub fn new() -> (r: SuccessResponse)
        ensures
            r.was_successful,
            r.error_message@ == Seq::<char>::empty(),
    {
        SuccessResponse { was_successful: true, error_message: String::new() }
    }
}

/// Payload produced when validation or dispatch failed: the flag is cleared
/// and the error text names the cause.
#[derive(Debug)]
pub struct FailureResponse {
    pub was_successful: bool,
    pub error_message: String,
}

impl FailureResponse {
    pub fn new(error_message: String) -> (r: FailureResponse)
        ensures
            !r.was_successful,
            r.error_message == error_message,
    {
        FailureResponse { was_successful: false, error_message }
    }
}

/// Exactly one of the two payloads is produced per invocation.
pub type Response = Result<SuccessResponse, FailureResponse>;

} // verus!
