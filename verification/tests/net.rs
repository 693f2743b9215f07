//! What is made of the outcome of a request.

use rworldradio::net::{
    describe, get_bytes, get_text, pump, Fetched, PumpAction, PumpEvent, RequestError, BYTES_LIMIT,
    TEXT_LIMIT,
};

const URL: &str = "http://h/x";

#[test]
fn failed_requests_are_described() {
    assert_eq!(describe(URL, &RequestError::Status(404)), "HTTP status 404 for http://h/x");
    assert_eq!(describe(URL, &RequestError::Transport("Dns Failed".into())), "Dns Failed");
}

#[test]
fn a_text_is_its_body_unless_that_is_empty() {
    assert_eq!(get_text(URL, Fetched::Body(b"a\xC3\xA9".to_vec())), Ok("a\u{e9}".into()));
    assert_eq!(
        get_text(URL, Fetched::Body(vec![])),
        Err("empty response body from http://h/x".into())
    );
    assert_eq!(get_text(URL, Fetched::Broken("reset".into())), Err("http://h/x: reset".into()));
    assert_eq!(
        get_text(URL, Fetched::Refused(RequestError::Status(500))),
        Err("HTTP status 500 for http://h/x".into())
    );
}

#[test]
fn bytes_are_their_body_unless_that_is_empty() {
    assert_eq!(get_bytes(URL, Fetched::Body(vec![1])), Ok(vec![1]));
    assert_eq!(
        get_bytes(URL, Fetched::Body(vec![])),
        Err("empty response body from http://h/x".into())
    );
    assert_eq!(get_bytes(URL, Fetched::Broken("reset".into())), Err("http://h/x: reset".into()));
    assert_eq!(
        get_bytes(URL, Fetched::Refused(RequestError::Transport("t".into()))),
        Err("t".into())
    );
}

#[test]
fn a_text_that_is_no_utf8_is_broken() {
    assert_eq!(
        get_text(URL, Fetched::Body(vec![b'a', 0xFF])),
        Err("http://h/x: stream did not contain valid UTF-8".into())
    );
}

#[test]
fn bodies_are_cut_at_their_ceiling() {
    assert_eq!(TEXT_LIMIT, 8 * 1024 * 1024);
    assert_eq!(BYTES_LIMIT, 32 * 1024 * 1024);
    let text = get_text(URL, Fetched::Body(vec![b'a'; TEXT_LIMIT])).unwrap();
    assert_eq!(text.len(), TEXT_LIMIT);
    let text = get_text(URL, Fetched::Body(vec![b'a'; TEXT_LIMIT + 3])).unwrap();
    assert_eq!(text.len(), TEXT_LIMIT);
    let bytes = get_bytes(URL, Fetched::Body(vec![7; BYTES_LIMIT + 1])).unwrap();
    assert_eq!(bytes.len(), BYTES_LIMIT);
    // The cut goes through a character.
    let mut body = vec![b'a'; TEXT_LIMIT - 1];
    body.extend_from_slice("\u{e9}".as_bytes());
    assert!(get_text(URL, Fetched::Body(body)).is_err());
}

#[test]
fn a_stream_is_read_until_it_ends_or_is_stopped() {
    assert!(matches!(pump(PumpEvent::Started, false, false), PumpAction::Read));
    assert!(matches!(pump(PumpEvent::Started, true, false), PumpAction::Close(None)));
    assert!(matches!(pump(PumpEvent::Read(9), false, false), PumpAction::Push(9)));
    assert!(matches!(pump(PumpEvent::Read(0), false, false), PumpAction::Close(None)));
    assert!(matches!(pump(PumpEvent::Pushed(true), false, false), PumpAction::Read));
    assert!(matches!(pump(PumpEvent::Pushed(true), true, false), PumpAction::Close(None)));
    assert!(matches!(pump(PumpEvent::Pushed(false), false, true), PumpAction::Quit));
}

#[test]
fn a_failed_read_is_an_error_unless_the_stream_was_stopped() {
    let failed = || PumpEvent::ReadFailed("timeout".into());
    assert!(matches!(
        pump(failed(), false, false),
        PumpAction::Close(Some(error)) if error == "stream read failed: timeout"
    ));
    assert!(matches!(pump(failed(), true, false), PumpAction::Close(None)));
    assert!(matches!(pump(failed(), false, true), PumpAction::Close(None)));
}
