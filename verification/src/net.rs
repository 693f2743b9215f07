//! HTTP: what is made of the outcome of a request, and what is done with the body of a stream.
//!
//! There are small one-shot requests (resolver links, playlists and segments) and one long-lived
//! request (a progressive audio body). The requests themselves are made by the caller.

use vstd::prelude::*;
use vstd::utf8::{decode_utf8, encode_utf8, valid_utf8};

use crate::text;

verus! {

/// The ceiling for a text. A playlist or a resolver response is a few kB at most, so that anything
/// near this is a wrong URL.
pub const TEXT_LIMIT: usize = 8_388_608;

/// The ceiling for a segment, which is well under a megabyte: a guard against runaways.
pub const BYTES_LIMIT: usize = 33_554_432;

/// How much of a stream is read at once.
pub const CHUNK_SIZE: usize = 32_768;

/// A request that failed.
#[derive(Debug)]
pub enum RequestError {
    /// The server answered with this status.
    Status(u16),
    /// There was no answer; the text says why.
    Transport(String),
}

/// What came of a one-shot request.
#[derive(Debug)]
pub enum Fetched {
    /// The body. What stands in it behind the ceiling counts for nothing, and need not be read.
    Body(Vec<u8>),
    /// The request failed.
    Refused(RequestError),
    /// The body could not be read; the text says why.
    Broken(String),
}

/// What is said of a request that failed.
pub open spec fn request_error_text(url: Seq<char>, error: RequestError) -> Seq<char> {
    match error {
        RequestError::Status(status) => "HTTP status "@ + text::decimal_of(status as nat) + " for "@
            + url,
        RequestError::Transport(reason) => reason@,
    }
}

/// What is said of a body that could not be read.
pub open spec fn broken_text(url: Seq<char>, reason: Seq<char>) -> Seq<char> {
    url + ": "@ + reason
}

/// What is said of an empty body.
pub open spec fn empty_text(url: Seq<char>) -> Seq<char> {
    "empty response body from "@ + url
}

/// What is kept of a body: all up to a ceiling.
pub open spec fn kept(body: Seq<u8>, limit: nat) -> Seq<u8> {
    if body.len() <= limit {
        body
    } else {
        body.take(limit as int)
    }
}

/// The bytes that a request gives, or what is said of one that gives none.
pub open spec fn bytes_of(url: Seq<char>, fetched: Fetched) -> Result<Seq<u8>, Seq<char>> {
    match fetched {
        Fetched::Refused(error) => Err(request_error_text(url, error)),
        Fetched::Broken(reason) => Err(broken_text(url, reason@)),
        Fetched::Body(body) => if kept(body@, BYTES_LIMIT as nat).len() == 0 {
            Err(empty_text(url))
        } else {
            Ok(kept(body@, BYTES_LIMIT as nat))
        },
    }
}

/// The text that a request gives, or what is said of one that gives none.
pub open spec fn text_of(url: Seq<char>, fetched: Fetched) -> Result<Seq<char>, Seq<char>> {
    match fetched {
        Fetched::Refused(error) => Err(request_error_text(url, error)),
        Fetched::Broken(reason) => Err(broken_text(url, reason@)),
        Fetched::Body(body) => if !valid_utf8(kept(body@, TEXT_LIMIT as nat)) {
            Err(broken_text(url, "stream did not contain valid UTF-8"@))
        } else if kept(body@, TEXT_LIMIT as nat).len() == 0 {
            Err(empty_text(url))
        } else {
            Ok(decode_utf8(kept(body@, TEXT_LIMIT as nat)))
        },
    }
}

/// Calls `String::from_utf8`: the text that some bytes encode, or nothing where they are not valid
/// UTF-8.
#[verifier::external_body]
fn from_utf8(bytes: Vec<u8>) -> (decoded: Option<String>)
    ensures
        match decoded {
            Some(text) => valid_utf8(bytes@) && text@ == decode_utf8(bytes@),
            None => !valid_utf8(bytes@),
        },
{
    String::from_utf8(bytes).ok()
}

/// What is said of a request that failed.
pub fn describe(url: &str, error: &RequestError) -> (message: String)
    ensures
        message@ == request_error_text(url@, *error),
{
    match error {
        RequestError::Status(status) => {
            let mut message: String = "HTTP status ".to_string();
            message.append(text::decimal(*status as u128).as_str());
            message.append(" for ");
            message.append(url);
            message
        },
        RequestError::Transport(reason) => reason.clone(),
    }
}

/// What is said of a body that could not be read.
fn describe_broken(url: &str, reason: &str) -> (message: String)
    ensures
        message@ == broken_text(url@, reason@),
{
    let mut message: String = url.to_string();
    message.append(": ");
    message.append(reason);
    message
}

/// What is said of an empty body.
fn describe_empty(url: &str) -> (message: String)
    ensures
        message@ == empty_text(url@),
{
    let mut message: String = "empty response body from ".to_string();
    message.append(url);
    message
}

/// Keeps a body up to a ceiling.
fn keep(body: Vec<u8>, limit: usize) -> (bytes: Vec<u8>)
    ensures
        bytes@ == kept(body@, limit as nat),
{
    let mut bytes: Vec<u8> = body;
    if bytes.len() > limit {
        bytes.truncate(limit);
    }
    assert(bytes@ =~= kept(body@, limit as nat));
    bytes
}

/// The whole body as text, of a playlist or a resolver response. At most [`TEXT_LIMIT`] bytes of
/// it are kept.
pub fn get_text(url: &str, fetched: Fetched) -> (body: Result<String, String>)
    ensures
        match body {
            Ok(text) => text_of(url@, fetched) == Ok::<Seq<char>, Seq<char>>(text@)
                && 0 < encode_utf8(text@).len() <= TEXT_LIMIT,
            Err(message) => text_of(url@, fetched) == Err::<Seq<char>, Seq<char>>(message@),
        },
{
    proof {
        law_texts_stay_under_their_ceiling(url@, fetched);
    }
    match fetched {
        Fetched::Refused(error) => Err(describe(url, &error)),
        Fetched::Broken(reason) => Err(describe_broken(url, reason.as_str())),
        Fetched::Body(body) => {
            let bytes: Vec<u8> = keep(body, TEXT_LIMIT);
            let empty: bool = bytes.len() == 0;
            match from_utf8(bytes) {
                Some(text) => if empty {
                    Err(describe_empty(url))
                } else {
                    Ok(text)
                },
                None => Err(describe_broken(url, "stream did not contain valid UTF-8")),
            }
        },
    }
}

/// The whole body as bytes, of a segment. At most [`BYTES_LIMIT`] of them are kept.
pub fn get_bytes(url: &str, fetched: Fetched) -> (body: Result<Vec<u8>, String>)
    ensures
        match body {
            Ok(bytes) => bytes_of(url@, fetched) == Ok::<Seq<u8>, Seq<char>>(bytes@) && 0
                < bytes@.len() <= BYTES_LIMIT,
            Err(message) => bytes_of(url@, fetched) == Err::<Seq<u8>, Seq<char>>(message@),
        },
{
    match fetched {
        Fetched::Refused(error) => Err(describe(url, &error)),
        Fetched::Broken(reason) => Err(describe_broken(url, reason.as_str())),
        Fetched::Body(body) => {
            let bytes: Vec<u8> = keep(body, BYTES_LIMIT);
            if bytes.len() == 0 {
                Err(describe_empty(url))
            } else {
                Ok(bytes)
            }
        },
    }
}

/// A progressive stream: the queue that its body goes to, and what the server said of it.
pub struct OpenedStream<Q> {
    pub queue: Q,
    pub content_type: Option<String>,
    /// The URL that is streamed from, after redirects.
    pub final_url: String,
}

/// What the reading of a stream has come to.
#[derive(Debug)]
pub enum PumpEvent {
    /// The headers are in.
    Started,
    /// So many bytes were read. None means that the server has closed the stream.
    Read(usize),
    /// The read failed; the text says why.
    ReadFailed(String),
    /// Whether the queue took the bytes: not if it is closed.
    Pushed(bool),
}

/// What is done next with a stream.
#[derive(Debug)]
pub enum PumpAction {
    /// Read the next chunk.
    Read,
    /// Push that many bytes of the chunk into the queue.
    Push(usize),
    /// Close the queue, with an error or cleanly, and quit.
    Close(Option<String>),
    /// Quit.
    Quit,
}

/// What is done next with a stream, with the error as text.
pub enum PumpView {
    Read,
    Push(int),
    Close(Option<Seq<char>>),
    Quit,
}

impl View for PumpAction {
    type V = PumpView;

    open spec fn view(&self) -> PumpView {
        match *self {
            PumpAction::Read => PumpView::Read,
            PumpAction::Push(count) => PumpView::Push(count as int),
            PumpAction::Close(Some(error)) => PumpView::Close(Some(error@)),
            PumpAction::Close(None) => PumpView::Close(None),
            PumpAction::Quit => PumpView::Quit,
        }
    }
}

/// What is done next with a stream. `stopped` says whether the session has been stopped, `closed`
/// whether the queue has been closed. A stop closes the queue first, so that the failed read that
/// follows it is no failure of the stream.
pub open spec fn pumped(event: PumpEvent, stopped: bool, closed: bool) -> PumpView {
    match event {
        PumpEvent::Started | PumpEvent::Pushed(true) => if stopped {
            PumpView::Close(None)
        } else {
            PumpView::Read
        },
        PumpEvent::Pushed(false) => PumpView::Quit,
        PumpEvent::Read(count) => if count == 0 {
            PumpView::Close(None)
        } else {
            PumpView::Push(count as int)
        },
        PumpEvent::ReadFailed(reason) => if stopped || closed {
            PumpView::Close(None)
        } else {
            PumpView::Close(Some("stream read failed: "@ + reason@))
        },
    }
}

/// Decides what is done next with a stream.
pub fn pump(event: PumpEvent, stopped: bool, closed: bool) -> (action: PumpAction)
    ensures
        action@ == pumped(event, stopped, closed),
{
    match event {
        PumpEvent::Started => if stopped {
            PumpAction::Close(None)
        } else {
            PumpAction::Read
        },
        PumpEvent::Pushed(taken) => if !taken {
            PumpAction::Quit
        } else if stopped {
            PumpAction::Close(None)
        } else {
            PumpAction::Read
        },
        PumpEvent::Read(count) => if count == 0 {
            PumpAction::Close(None)
        } else {
            PumpAction::Push(count)
        },
        PumpEvent::ReadFailed(reason) => if stopped || closed {
            PumpAction::Close(None)
        } else {
            let mut message: String = "stream read failed: ".to_string();
            message.append(reason.as_str());
            PumpAction::Close(Some(message))
        },
    }
}

/// No error is told of a stream whose session has been stopped or whose queue has been closed.
pub proof fn law_a_stop_is_no_failure(event: PumpEvent, stopped: bool, closed: bool)
    requires
        stopped || closed,
    ensures
        pumped(event, stopped, closed) matches PumpView::Close(error) ==> error is None,
{
}

/// A text that is handed on is not empty and has at most [`TEXT_LIMIT`] bytes. A body of valid
/// UTF-8 that is no longer than that is handed on whole.
pub proof fn law_texts_stay_under_their_ceiling(url: Seq<char>, fetched: Fetched)
    ensures
        text_of(url, fetched) matches Ok(text) ==> 0 < encode_utf8(text).len() <= TEXT_LIMIT,
        fetched matches Fetched::Body(body) ==> (valid_utf8(body@) && 0 < body@.len() <= TEXT_LIMIT
            ==> text_of(url, fetched) == Ok::<Seq<char>, Seq<char>>(decode_utf8(body@))),
{
    if let Fetched::Body(body) = fetched {
        let bytes = kept(body@, TEXT_LIMIT as nat);
        if valid_utf8(bytes) {
            vstd::utf8::decode_utf8_encode_utf8(bytes);
        }
    }
}

/// Bytes that are handed on are some, and at most [`BYTES_LIMIT`]. A body that is not empty and no
/// longer than that is handed on whole.
pub proof fn law_segments_stay_under_their_ceiling(url: Seq<char>, fetched: Fetched)
    ensures
        bytes_of(url, fetched) matches Ok(bytes) ==> 0 < bytes.len() <= BYTES_LIMIT,
        fetched matches Fetched::Body(body) ==> (0 < body@.len() <= BYTES_LIMIT ==> bytes_of(
            url,
            fetched,
        ) == Ok::<Seq<u8>, Seq<char>>(body@)),
{
}

/// What is kept of a body is its front: the whole body, or as many bytes as the ceiling allows. The
/// ceilings are 8 and 32 MiB.
pub proof fn law_a_body_is_cut_at_its_ceiling(url: Seq<char>, body: Vec<u8>)
    ensures
        body@.len() > 33_554_432 ==> bytes_of(url, Fetched::Body(body)) == Ok::<Seq<u8>, Seq<char>>(
            body@.take(33_554_432),
        ),
        0 < body@.len() <= 33_554_432 ==> bytes_of(url, Fetched::Body(body)) == Ok::<
            Seq<u8>,
            Seq<char>,
        >(body@),
        body@.len() == 0 ==> bytes_of(url, Fetched::Body(body)) == Err::<Seq<u8>, Seq<char>>(
            "empty response body from "@ + url,
        ) && text_of(url, Fetched::Body(body)) == Err::<Seq<char>, Seq<char>>(
            "empty response body from "@ + url,
        ),
        0 < body@.len() <= 8_388_608 && valid_utf8(body@) ==> text_of(url, Fetched::Body(body))
            == Ok::<Seq<char>, Seq<char>>(decode_utf8(body@)),
        body@.len() > 8_388_608 && valid_utf8(body@.take(8_388_608)) ==> text_of(
            url,
            Fetched::Body(body),
        ) == Ok::<Seq<char>, Seq<char>>(decode_utf8(body@.take(8_388_608))),
        body@.len() <= 8_388_608 && !valid_utf8(body@) ==> text_of(url, Fetched::Body(body)) == Err::<
            Seq<char>,
            Seq<char>,
        >(url + ": "@ + "stream did not contain valid UTF-8"@),
{
}

/// A request that failed, and a body that could not be read, are told: the status with the URL, the
/// reason of the transport as it is, and the reason of the read behind the URL.
pub proof fn law_failed_requests_are_told(url: Seq<char>, status: u16, reason: String)
    ensures
        request_error_text(url, RequestError::Status(status)) == "HTTP status "@ + text::decimal_of(
            status as nat,
        ) + " for "@ + url,
        request_error_text(url, RequestError::Transport(reason)) == reason@,
        bytes_of(url, Fetched::Refused(RequestError::Status(status))) == Err::<Seq<u8>, Seq<char>>(
            "HTTP status "@ + text::decimal_of(status as nat) + " for "@ + url,
        ),
        text_of(url, Fetched::Refused(RequestError::Status(status))) == Err::<Seq<char>, Seq<char>>(
            "HTTP status "@ + text::decimal_of(status as nat) + " for "@ + url,
        ),
        bytes_of(url, Fetched::Refused(RequestError::Transport(reason))) == Err::<
            Seq<u8>,
            Seq<char>,
        >(reason@),
        text_of(url, Fetched::Refused(RequestError::Transport(reason))) == Err::<
            Seq<char>,
            Seq<char>,
        >(reason@),
        bytes_of(url, Fetched::Broken(reason)) == Err::<Seq<u8>, Seq<char>>(url + ": "@ + reason@),
        text_of(url, Fetched::Broken(reason)) == Err::<Seq<char>, Seq<char>>(url + ": "@ + reason@),
{
}

/// A stream is read and pushed in turn. All that was read is pushed, a whole chunk of 32 KiB too;
/// the end of the stream closes the queue cleanly, a failed read with an error; a queue that takes
/// no more ends it; and a stop is heeded before the next read.
pub proof fn law_a_stream_is_read_and_pushed_in_turn(
    count: usize,
    reason: String,
    stopped: bool,
    closed: bool,
)
    ensures
        pumped(PumpEvent::Started, false, closed) == PumpView::Read,
        pumped(PumpEvent::Pushed(true), false, closed) == PumpView::Read,
        pumped(PumpEvent::Started, true, closed) == PumpView::Close(None),
        pumped(PumpEvent::Pushed(true), true, closed) == PumpView::Close(None),
        pumped(PumpEvent::Pushed(false), stopped, closed) == PumpView::Quit,
        count > 0 ==> pumped(PumpEvent::Read(count), stopped, closed) == PumpView::Push(
            count as int,
        ),
        pumped(PumpEvent::Read(CHUNK_SIZE), stopped, closed) == PumpView::Push(32_768),
        pumped(PumpEvent::Read(0), stopped, closed) == PumpView::Close(None),
        pumped(PumpEvent::ReadFailed(reason), false, false) == PumpView::Close(
            Some("stream read failed: "@ + reason@),
        ),
        pumped(PumpEvent::ReadFailed(reason), true, closed) == PumpView::Close(None),
        pumped(PumpEvent::ReadFailed(reason), stopped, true) == PumpView::Close(None),
{
}

} // verus!
