//! Construction of the outbound provider message from a validated message,
//! and translation of the provider's outcome into the invocation's terminal
//! payload. The network call itself is made by the surrounding program; what
//! it must send, and how its outcome is reported, is fixed here.

use vstd::prelude::*;

use crate::response::{FailureResponse, Response, SuccessResponse};
use crate::validate::MessageData;

verus! {

/// The view of an optional sender email.
pub open spec fn sender_view(s: Option<String>) -> Option<Seq<char>> {
    match s {
        Some(x) => Some(x@),
        None => None,
    }
}

/// The text placed in the provider's subject field: a two-line diagnostic
/// naming the claimed sender (or its absence) and repeating the message body.
/// The caller's own subject field is never transmitted.
pub open spec fn outbound_subject(sender: Option<Seq<char>>, body: Seq<char>) -> Seq<char> {
    "senderEmail: "@ + (match sender {
        Some(s) => s,
        None => "not provided"@,
    }) + "\n\nmessage: "@ + body
}

/// Everything the provider call needs, as plain values: a single destination
/// address, the from address, the subject and body texts, and the character
/// set of both.
#[derive(Debug)]
pub struct OutboundEmail {
    pub from_address: String,
    pub to_address: String,
    pub subject: String,
    pub body: String,
    pub charset: String,
}

/// Builds the outbound message. The from address is always the configured
/// verified address, never the request's sender email; the destination is the
/// resolved receiver email; the subject carries the diagnostic text; the body
/// is the message body, in UTF-8.
pub fn build_outbound_email(message: MessageData, verified_from_email: String) -> (e:
    OutboundEmail)
    ensures
        e.from_address == verified_from_email,
        e.to_address == message.receiver_email,
        e.subject@ == outbound_subject(sender_view(message.sender_email), message.body@),
        e.body == message.body,
        e.charset@ == "UTF-8"@,
{
    let mut subject = String::from_str("senderEmail: ");
    match &message.sender_email {
        Some(s) => subject.append(s.as_str()),
        None => subject.append("not provided"),
    }
    subject.append("\n\nmessage: ");
    subject.append(message.body.as_str());
    OutboundEmail {
        from_address: verified_from_email,
        to_address: message.receiver_email,
        subject,
        body: message.body,
        charset: String::from_str("UTF-8"),
    }
}

/// Translates the provider call's outcome into the terminal payload: an
/// accepted send becomes the success payload (flag set, empty error text) and
/// a provider error becomes the failure payload carrying the provider's error
/// text verbatim.
pub fn response_of_outcome(outcome: Result<(), String>) -> (r: Response)
    ensures
        match outcome {
            Ok(_) => {
                &&& r is Ok
                &&& r->Ok_0.was_successful
                &&& r->Ok_0.error_message@ == Seq::<char>::empty()
            },
            Err(e) => {
                &&& r is Err
                &&& !r->Err_0.was_successful
                &&& r->Err_0.error_message == e
            },
        },
{
    match outcome {
        Ok(_) => Ok(SuccessResponse::new()),
        Err(e) => Err(FailureResponse::new(e)),
    }
}

} // verus!
