use notification_relay::directory::split_to_map;
use notification_relay::dispatch::{build_outbound_email, response_of_outcome};
use notification_relay::handler::prepare_outbound;
use notification_relay::response::{FailureResponse, SuccessResponse};
use notification_relay::validate::{extract_message, MessageData, Request};

fn request(
    subject: Option<&str>,
    message: Option<&str>,
    sender_email: Option<&str>,
    receiver_name: Option<&str>,
) -> Request {
    Request {
        subject: subject.map(|s| s.to_string()),
        message: message.map(|s| s.to_string()),
        sender_email: sender_email.map(|s| s.to_string()),
        receiver_name: receiver_name.map(|s| s.to_string()),
    }
}

#[test]
fn parse_two_pairs() {
    let d = split_to_map("person1=guy@example.com, team=owner@example.com");
    assert_eq!(
        d.lookup(&"person1".to_string()),
        Some(&"guy@example.com".to_string())
    );
    assert_eq!(
        d.lookup(&"team".to_string()),
        Some(&"owner@example.com".to_string())
    );
    assert_eq!(d.lookup(&"nobody".to_string()), None);
}

#[test]
fn parse_trims_whitespace() {
    let d = split_to_map("  a  =  a@x.com  ");
    assert_eq!(d.lookup(&"a".to_string()), Some(&"a@x.com".to_string()));
    assert_eq!(d.lookup(&"  a  ".to_string()), None);
}

#[test]
fn parse_skips_malformed_segments() {
    let d = split_to_map("noequals, =v, k=  , a=b, ,");
    assert_eq!(d.lookup(&"a".to_string()), Some(&"b".to_string()));
    assert_eq!(d.lookup(&"noequals".to_string()), None);
    assert_eq!(d.lookup(&"k".to_string()), None);
    assert_eq!(d.lookup(&"".to_string()), None);
    assert_eq!(d.entries.len(), 1);
}

#[test]
fn parse_empty_string_yields_empty_directory() {
    let d = split_to_map("");
    assert_eq!(d.entries.len(), 0);
    assert_eq!(d.lookup(&"a".to_string()), None);
}

#[test]
fn parse_duplicate_key_last_wins() {
    let d = split_to_map("a=first@x.com, a=second@x.com");
    assert_eq!(d.lookup(&"a".to_string()), Some(&"second@x.com".to_string()));
}

#[test]
fn parse_value_keeps_second_equals() {
    let d = split_to_map("a=b=c");
    assert_eq!(d.lookup(&"a".to_string()), Some(&"b=c".to_string()));
}

#[test]
fn validate_resolves_receiver() {
    let d = split_to_map("a=a@x.com");
    let r = request(Some("S"), Some("M"), None, Some("a"));
    let m = extract_message(r, &d).unwrap();
    assert_eq!(m.subject, "S");
    assert_eq!(m.body, "M");
    assert_eq!(m.sender_email, None);
    assert_eq!(m.receiver_email, "a@x.com");
}

#[test]
fn validate_missing_subject() {
    let d = split_to_map("a=a@x.com");
    let r = request(None, Some("M"), None, Some("a"));
    let f = extract_message(r, &d).unwrap_err();
    assert!(!f.was_successful);
    assert_eq!(f.error_message, "subject expected but not found");
}

#[test]
fn validate_missing_message() {
    let d = split_to_map("a=a@x.com");
    let r = request(Some("S"), None, None, Some("a"));
    let f = extract_message(r, &d).unwrap_err();
    assert!(!f.was_successful);
    assert_eq!(f.error_message, "message expected but not found");
}

#[test]
fn validate_missing_receiver_name() {
    let d = split_to_map("a=a@x.com");
    let r = request(Some("S"), Some("M"), None, None);
    let f = extract_message(r, &d).unwrap_err();
    assert!(!f.was_successful);
    assert_eq!(f.error_message, "receiverName expected but not found");
}

#[test]
fn validate_unknown_receiver_name() {
    let d = split_to_map("a=a@x.com");
    let r = request(Some("S"), Some("M"), None, Some("z"));
    let f = extract_message(r, &d).unwrap_err();
    assert!(!f.was_successful);
    assert_eq!(f.error_message, "no email for receiverName z");
}

#[test]
fn validate_sender_passes_through() {
    let d = split_to_map("a=a@x.com");
    let r = request(Some("S"), Some("M"), Some("sender@y.com"), Some("a"));
    let m = extract_message(r, &d).unwrap();
    assert_eq!(m.sender_email, Some("sender@y.com".to_string()));
}

#[test]
fn dispatch_from_is_the_verified_address() {
    let m = MessageData {
        subject: "S".to_string(),
        body: "M".to_string(),
        sender_email: Some("caller@y.com".to_string()),
        receiver_email: "a@x.com".to_string(),
    };
    let e = build_outbound_email(m, "verified@relay.example".to_string());
    assert_eq!(e.from_address, "verified@relay.example");
    assert_ne!(e.from_address, "caller@y.com");
    assert_eq!(e.to_address, "a@x.com");
}

#[test]
fn dispatch_subject_without_sender() {
    let m = MessageData {
        subject: "S".to_string(),
        body: "M".to_string(),
        sender_email: None,
        receiver_email: "a@x.com".to_string(),
    };
    let e = build_outbound_email(m, "verified@relay.example".to_string());
    assert_eq!(e.subject, "senderEmail: not provided\n\nmessage: M");
}

#[test]
fn dispatch_subject_with_sender() {
    let m = MessageData {
        subject: "S".to_string(),
        body: "M".to_string(),
        sender_email: Some("S2".to_string()),
        receiver_email: "a@x.com".to_string(),
    };
    let e = build_outbound_email(m, "verified@relay.example".to_string());
    assert_eq!(e.subject, "senderEmail: S2\n\nmessage: M");
}

#[test]
fn dispatch_body_and_charset() {
    let m = MessageData {
        subject: "S".to_string(),
        body: "M".to_string(),
        sender_email: None,
        receiver_email: "a@x.com".to_string(),
    };
    let e = build_outbound_email(m, "verified@relay.example".to_string());
    assert_eq!(e.body, "M");
    assert_eq!(e.charset, "UTF-8");
}

#[test]
fn outcome_error_becomes_failure() {
    let r = response_of_outcome(Err("simulated transport error".to_string()));
    let f = r.unwrap_err();
    assert!(!f.was_successful);
    assert_eq!(f.error_message, "simulated transport error");
}

#[test]
fn outcome_ok_becomes_success() {
    let r = response_of_outcome(Ok(()));
    let s = r.unwrap();
    assert!(s.was_successful);
    assert_eq!(s.error_message, "");
}

#[test]
fn success_response_shape() {
    let s = SuccessResponse::new();
    assert!(s.was_successful);
    assert_eq!(s.error_message, "");
}

#[test]
fn failure_response_shape() {
    let f = FailureResponse::new("boom".to_string());
    assert!(!f.was_successful);
    assert_eq!(f.error_message, "boom");
}

#[test]
fn prepare_outbound_builds_the_message() {
    let r = request(Some("S"), Some("M"), Some("S2"), Some("a"));
    let e = prepare_outbound("a=a@x.com", "verified@relay.example".to_string(), r).unwrap();
    assert_eq!(e.from_address, "verified@relay.example");
    assert_eq!(e.to_address, "a@x.com");
    assert_eq!(e.subject, "senderEmail: S2\n\nmessage: M");
    assert_eq!(e.body, "M");
    assert_eq!(e.charset, "UTF-8");
}

#[test]
fn prepare_outbound_propagates_validation_failure() {
    let r = request(Some("S"), Some("M"), None, Some("z"));
    let f = prepare_outbound("a=a@x.com", "verified@relay.example".to_string(), r).unwrap_err();
    assert!(!f.was_successful);
    assert_eq!(f.error_message, "no email for receiverName z");
}
