//! A single-request notification relay.
//!
//! Given a structured request (subject, message body, optional sender email,
//! named recipient), the library resolves the recipient name to an email
//! address through a configured lookup table, validates the request, and
//! prepares the outbound message for a transactional-email provider. The
//! network call to the provider itself is made by the surrounding program;
//! everything that decides what is sent, and how outcomes are reported, is
//! verified here.

pub mod directory;
pub mod dispatch;
pub mod handler;
pub mod response;
pub mod text;
pub mod validate;
