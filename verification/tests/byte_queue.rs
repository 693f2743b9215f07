//! The bounded pipe of bytes.

use rworldradio::byte_queue::{
    ByteQueue, PushOutcome, QueueReader, ReadOutcome, DEFAULT_CAPACITY,
};

/// Reads until the end of the stream.
fn read_to_end(reader: &mut QueueReader, limit: usize) -> Vec<u8> {
    let mut out = Vec::new();
    loop {
        match reader.read(limit) {
            ReadOutcome::Data(bytes) => out.extend(bytes),
            ReadOutcome::Eof => return out,
            other => panic!("unexpected {other:?}"),
        }
    }
}

#[test]
fn reads_pushed_bytes_then_sees_clean_eof() {
    let mut queue = ByteQueue::new();
    assert_eq!(queue.push(b"hello "), PushOutcome::Pushed);
    assert_eq!(queue.push(b"world"), PushOutcome::Pushed);
    queue.close(None);

    let mut reader = QueueReader::new(queue);
    let out = String::from_utf8(read_to_end(&mut reader, 4)).unwrap();
    assert_eq!(out, "hello world");
}

#[test]
fn close_with_error_surfaces_as_io_error_after_draining() {
    let mut queue = ByteQueue::new();
    queue.push(b"partial");
    queue.close(Some("segment fetch failed".into()));

    let mut reader = QueueReader::new(queue);
    assert!(matches!(reader.read(32), ReadOutcome::Data(bytes) if bytes.len() == 7));
    match reader.read(32) {
        ReadOutcome::Failed(error) => assert!(error.contains("segment fetch failed")),
        other => panic!("unexpected {other:?}"),
    }
    // The error is told once.
    assert!(matches!(reader.read(32), ReadOutcome::Eof));
}

#[test]
fn peek_does_not_consume() {
    let mut queue = ByteQueue::new();
    queue.push(b"\xff\xf9rest");
    assert_eq!(
        queue.peek(2, false),
        Some(vec![0xFF, 0xF9]),
        "peek must see the leading bytes"
    );
    queue.close(None);

    let mut reader = QueueReader::new(queue);
    assert_eq!(
        read_to_end(&mut reader, 100),
        b"\xff\xf9rest",
        "peeked bytes must still be readable"
    );
}

#[test]
fn peek_returns_what_it_has_when_the_stream_is_short() {
    let mut queue = ByteQueue::new();
    queue.push(b"\xff");
    queue.close(None);
    assert_eq!(queue.peek(4, false), Some(vec![0xFF]));
}

#[test]
fn push_after_close_is_rejected() {
    let mut queue = ByteQueue::new();
    queue.close(None);
    assert_eq!(queue.push(b"ignored"), PushOutcome::Closed);
    assert!(queue.is_closed());
}

#[test]
fn a_peek_waits_until_the_time_is_up() {
    let mut queue = ByteQueue::new();
    queue.push(b"ab");
    assert_eq!(queue.peek(3, false), None);
    assert_eq!(queue.peek(3, true), Some(b"ab".to_vec()));
}

#[test]
fn data_is_waited_for_until_a_close_or_the_time_is_up() {
    let mut queue = ByteQueue::new();
    assert_eq!(queue.wait_for_data(false), None);
    assert_eq!(queue.wait_for_data(true), Some(false));
    queue.push(b"a");
    assert_eq!(queue.wait_for_data(false), Some(true));
    let mut empty = ByteQueue::new();
    empty.close(None);
    assert_eq!(empty.wait_for_data(false), Some(false));
}

#[test]
fn a_full_queue_holds_the_producer_back() {
    let mut queue = ByteQueue::new();
    let chunk = vec![7u8; DEFAULT_CAPACITY - 1];
    assert_eq!(queue.push(&chunk), PushOutcome::Pushed);
    // One byte below the capacity a whole push still goes in.
    assert_eq!(queue.push(&[1, 2, 3]), PushOutcome::Pushed);
    assert_eq!(queue.push(&[4]), PushOutcome::Full);
    assert!(matches!(queue.read(10), ReadOutcome::Data(bytes) if bytes == vec![7; 10]));
    assert_eq!(queue.push(&[4]), PushOutcome::Pushed);
}

#[test]
fn an_open_queue_without_bytes_makes_the_reader_wait() {
    let mut queue = ByteQueue::new();
    assert!(matches!(queue.read(1), ReadOutcome::Wait));
    assert!(matches!(queue.read(0), ReadOutcome::Data(bytes) if bytes.is_empty()));
}

#[test]
fn the_first_close_counts() {
    let mut queue = ByteQueue::new();
    queue.close(None);
    queue.close(Some("late".into()));
    assert!(matches!(queue.read(1), ReadOutcome::Eof));
}

#[test]
fn a_radio_stream_cannot_be_sought_in() {
    let reader = QueueReader::new(ByteQueue::new());
    assert_eq!(reader.seek(), "radio streams are not seekable");
    assert!(!reader.is_seekable());
    assert_eq!(reader.byte_len(), None);
}
