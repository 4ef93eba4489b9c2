//! The per-invocation decision: from the two configuration values and the
//! inbound request to either a ready-to-send outbound message or the failure
//! payload. The surrounding program reads the configuration from its
//! environment, performs the one provider call, and reports the outcome.

use vstd::prelude::*;

use crate::directory::{parse_directory, split_to_map};
use crate::dispatch::{build_outbound_email, outbound_subject, sender_view, OutboundEmail};
use crate::response::FailureResponse;
use crate::validate::{extract_message, validation_error, Request};

verus! {

/// Parses the configured directory string, validates the request against it,
/// and builds the outbound message. Succeeds exactly when validation does;
/// on failure the validation's error text is returned unchanged.
pub fn prepare_outbound(
    receiver_email_by_name_csv: &str,
    verified_from_email: String,
    request: Request,
) -> (r: Result<OutboundEmail, FailureResponse>)
    ensures
        match r {
            Ok(e) => {
                &&& validation_error(request, parse_directory(receiver_email_by_name_csv@))
                    is None
                &&& e.from_address == verified_from_email
                &&& e.to_address@ == parse_directory(
                    receiver_email_by_name_csv@,
                )[request.receiver_name->0@]
                &&& e.subject@ == outbound_subject(
                    sender_view(request.sender_email),
                    request.message->0@,
                )
                &&& Some(e.body) == request.message
                &&& e.charset@ == "UTF-8"@
            },
            Err(f) => {
                &&& validation_error(request, parse_directory(receiver_email_by_name_csv@))
                    matches Some(msg) && f.error_message@ == msg
                &&& !f.was_successful
            },
        },
{
    let directory = split_to_map(receiver_email_by_name_csv);
    let message = match extract_message(request, &directory) {
        Ok(m) => m,
        Err(f) => {
            return Err(f);
        },
    };
    Ok(build_outbound_email(message, verified_from_email))
}

} // verus!
