//! Validation of an inbound request against the directory: every required
//! field must be present and the recipient name must resolve, with a specific
//! error message for the first check that fails.

use vstd::prelude::*;

use crate::directory::Directory;
use crate::response::FailureResponse;

verus! {

/// The invocation's input: four optional fields. Any of them may be absent;
/// validation decides which absences are errors.
#[derive(Debug)]
pub struct Request {
    pub subject: Option<String>,
    pub message: Option<String>,
    pub sender_email: Option<String>,
    pub receiver_name: Option<String>,
}

/// A fully validated message, ready for dispatch. Values of this type are
/// produced by `extract_message`, which guarantees that the receiver email
/// is the directory's value for the requested recipient name.
#[derive(Debug)]
pub struct MessageData {
    pub subject: String,
    pub body: String,
    pub sender_email: Option<String>,
    pub receiver_email: String,
}

/// The error text validation produces for a request against a directory, if
/// any: checks run in a fixed order and the first failure wins. `None` means
/// the request is valid.
pub open spec fn validation_error(req: Request, dir: Map<Seq<char>, Seq<char>>) -> Option<
    Seq<char>,
> {
    if req.subject is None {
        Some("subject expected but not found"@)
    } else if req.message is None {
        Some("message expected but not found"@)
    } else if req.receiver_name is None {
        Some("receiverName expected but not found"@)
    } else if !dir.contains_key(req.receiver_name->0@) {
        Some("no email for receiverName "@ + req.receiver_name->0@)
    } else {
        None
    }
}

/// Transforms the request into a validated message, resolving the recipient
/// name through the directory. Succeeds exactly when subject, message and
/// receiver name are present and the name is a key of the directory; the
/// sender email is never required and passes through verbatim. On failure the
/// error text names the first check that failed.
pub fn extract_message(request: Request, directory: &Directory) -> (r: Result<
    MessageData,
    FailureResponse,
>)
    ensures
        match r {
            Ok(m) => {
                &&& validation_error(request, directory@) is None
                &&& Some(m.subject) == request.subject
                &&& Some(m.body) == request.message
                &&& m.sender_email == request.sender_email
                &&& m.receiver_email@ == directory@[request.receiver_name->0@]
            },
            Err(f) => {
                &&& validation_error(request, directory@) matches Some(msg) && f.error_message@
                    == msg
                &&& !f.was_successful
            },
        },
{
    let subject = match request.subject {
        Some(s) => s,
        None => {
            return Err(
                FailureResponse::new(String::from_str("subject expected but not found")),
            );
        },
    };
    let body = match request.message {
        Some(m) => m,
        None => {
            return Err(
                FailureResponse::new(String::from_str("message expected but not found")),
            );
        },
    };
    let receiver_name = match request.receiver_name {
        Some(n) => n,
        None => {
            return Err(
                FailureResponse::new(String::from_str("receiverName expected but not found")),
            );
        },
    };
    let receiver_email = match directory.lookup(&receiver_name) {
        Some(email) => email.clone(),
        None => {
            let mut msg = String::from_str("no email for receiverName ");
            msg.append(receiver_name.as_str());
            return Err(FailureResponse::new(msg));
        },
    };
    Ok(MessageData { subject, body, sender_email: request.sender_email, receiver_email })
}

} // verus!
