//! The ADTS normalizer.

use rworldradio::adts::{
    frame_length, is_sync, normalize_buffer, normalize_frame, set_frame_length, AdtsNormalizer,
    FrameStep, ReadStep,
};

/// Builds one ADTS frame. `id` 1 = MPEG-2, 0 = MPEG-4; `crc` adds the 2-byte CRC and the 9-byte
/// header form. Payload is `payload_len` filler bytes.
fn frame(id: u8, crc: bool, payload_len: usize) -> Vec<u8> {
    let header_size = if crc { 9 } else { 7 };
    let total = header_size + payload_len;
    let mut bytes = vec![0u8; header_size];
    bytes[0] = 0xFF;
    bytes[1] = 0xF0 | (id << 3) | if crc { 0 } else { 1 };
    bytes[2] = 0x50; // AAC-LC, 44.1kHz
    bytes[3] = 0x80; // stereo
    set_frame_length(&mut bytes, total);
    bytes[5] |= 0x1F; // buffer fullness bits
    bytes[6] = 0x00; // one AAC frame per ADTS packet
    bytes.extend((0..payload_len).map(|i| (i % 251) as u8));
    assert_eq!(bytes.len(), total);
    bytes
}

fn payload_of(frame: &[u8]) -> &[u8] {
    &frame[7..]
}

#[test]
fn mpeg2_frames_become_mpeg4_with_payload_intact() {
    let input = [frame(1, false, 40), frame(1, false, 60)].concat();
    let out = normalize_buffer(&input);

    assert_eq!(out.len(), input.len(), "no bytes should be added or lost");
    assert_eq!(&out[..2], &[0xFF, 0xF1], "symphonia's syncword");
    assert_eq!(frame_length(&out), 47);
    assert_eq!(payload_of(&out[..47]), payload_of(&frame(1, false, 40)));

    // Second frame follows immediately and is normalized too.
    assert_eq!(&out[47..49], &[0xFF, 0xF1]);
    assert_eq!(frame_length(&out[47..]), 67);
}

#[test]
fn already_mpeg4_frames_pass_through_unchanged() {
    let input = [frame(0, false, 32), frame(0, false, 32)].concat();
    assert_eq!(normalize_buffer(&input), input);
}

#[test]
fn crc_protected_frames_are_stripped_to_the_unprotected_form() {
    let input = frame(1, true, 50); // 9-byte header + 50 payload = 59
    let out = normalize_buffer(&input);

    assert_eq!(&out[..2], &[0xFF, 0xF1]);
    assert_eq!(out.len(), input.len() - 2, "the 2 CRC bytes are removed");
    assert_eq!(
        frame_length(&out),
        out.len(),
        "aac_frame_length must match the rewritten frame"
    );
    // Payload after the 7-byte header equals the input's payload after its 9-byte header.
    assert_eq!(&out[7..], &input[9..]);
}

#[test]
fn leading_garbage_is_skipped() {
    let mut input = vec![0x00, 0x11, 0x22, 0xFF, 0x00];
    input.extend(frame(1, false, 24));
    let out = normalize_buffer(&input);
    assert_eq!(&out[..2], &[0xFF, 0xF1]);
    assert_eq!(out.len(), 31);
}

#[test]
fn a_bogus_syncword_inside_payload_does_not_derail_the_chain() {
    // Frame whose payload happens to contain 0xFF 0xF9. Frame-chain walking means it is copied as
    // payload, not treated as a header.
    let mut first = frame(1, false, 40);
    first[20] = 0xFF;
    first[21] = 0xF9;
    let input = [first.clone(), frame(1, false, 40)].concat();

    let out = normalize_buffer(&input);
    assert_eq!(out.len(), input.len());
    assert_eq!(out[20], 0xFF, "payload byte preserved");
    assert_eq!(out[21], 0xF9, "payload byte NOT rewritten");
    assert_eq!(&out[47..49], &[0xFF, 0xF1], "next real frame normalized");
}

#[test]
fn resyncs_after_a_corrupt_frame() {
    let mut input = frame(1, false, 30);
    input[3] = 0x00; // frame_length now smaller than the header: invalid
    input[4] = 0x00;
    input[5] = 0x1F;
    input.extend(frame(1, false, 30));
    let out = normalize_buffer(&input);
    // The good frame is still recovered.
    assert!(out.len() >= 37);
    assert_eq!(&out[out.len() - 37..out.len() - 35], &[0xFF, 0xF1]);
}

/// Feeds a stream in chunks and reads it out in pieces.
fn through(input: &[u8], chunk: usize, limit: usize) -> Vec<u8> {
    let mut normalizer = AdtsNormalizer::new();
    let mut rest = input;
    let mut out = Vec::new();
    loop {
        match normalizer.read(limit) {
            ReadStep::Bytes(bytes) => out.extend(bytes),
            ReadStep::NeedMore => {
                let count = chunk.min(rest.len());
                normalizer.fill(&rest[..count]);
                rest = &rest[count..];
            }
            ReadStep::End => return out,
        }
    }
}

#[test]
fn works_through_tiny_reads() {
    let input = [frame(1, false, 100), frame(1, true, 100)].concat();
    let expected = normalize_buffer(&input);

    // A source that only ever gives 3 bytes at a time, to exercise the buffer-boundary paths.
    assert_eq!(through(&input, 3, 1), expected);
}

#[test]
fn truncated_stream_yields_only_whole_frames() {
    let mut input = frame(1, false, 40);
    input.truncate(20); // half a frame
    assert!(normalize_buffer(&input).is_empty());
    assert!(normalize_buffer(&[]).is_empty());
    assert!(normalize_buffer(&[0xFF]).is_empty());
}

#[test]
fn the_pieces_of_the_input_do_not_matter() {
    let mut input = vec![0x12, 0xFF, 0xF0];
    input.extend(frame(1, true, 10));
    input.extend(frame(0, false, 300));
    input.extend([0xFF, 0xF1, 0x50]);
    let expected = normalize_buffer(&input);
    for chunk in [1, 2, 5, 64, 1000] {
        for limit in [1, 7, 1000] {
            assert_eq!(through(&input, chunk, limit), expected);
        }
    }
}

#[test]
fn normalizing_again_changes_nothing() {
    let input = [frame(1, true, 11), frame(1, false, 12)].concat();
    let once = normalize_buffer(&input);
    assert_eq!(normalize_buffer(&once), once);
    assert!(once.len() <= input.len());
}

#[test]
fn a_frame_length_reads_back() {
    for length in [0, 7, 188, 2047, 2048, 8191] {
        let mut header = vec![0xFF, 0xF1, 0x50, 0xFF, 0xFF, 0xFF, 0xFC];
        set_frame_length(&mut header, length);
        assert_eq!(frame_length(&header), length);
        assert_eq!(header[3] & 0xFC, 0xFC);
        assert_eq!(header[5] & 0x1F, 0x1F);
    }
}

#[test]
fn a_sync_needs_twelve_set_bits_and_no_layer() {
    assert!(is_sync(&[0xFF, 0xF0]));
    assert!(is_sync(&[0xFF, 0xF9]));
    assert!(!is_sync(&[0xFF, 0xF2]));
    assert!(!is_sync(&[0xFE, 0xF0]));
}

#[test]
fn a_single_frame_is_appended() {
    let mut out = vec![1, 2];
    normalize_frame(&frame(1, true, 3), &mut out);
    assert_eq!(&out[..4], &[1, 2, 0xFF, 0xF1]);
    assert_eq!(out.len(), 2 + 7 + 3);
}

#[test]
fn a_frame_is_announced_before_it_is_read() {
    let mut normalizer = AdtsNormalizer::new();
    assert_eq!(normalizer.next_frame(), FrameStep::NeedMore);
    normalizer.fill(&frame(0, false, 4));
    assert_eq!(normalizer.next_frame(), FrameStep::Frame);
    match normalizer.read(100) {
        ReadStep::Bytes(bytes) => assert_eq!(bytes, frame(0, false, 4)),
        _ => panic!("a frame was ready"),
    }
    normalizer.fill(&[]);
    assert_eq!(normalizer.next_frame(), FrameStep::End);
}

#[test]
fn a_source_that_fails_in_between_loses_no_byte() {
    let input = [vec![0x00, 0xFF], frame(1, true, 30), frame(0, false, 20), vec![0xFF, 0xF1]].concat();
    let expected = normalize_buffer(&input);
    let mut normalizer = AdtsNormalizer::new();
    let mut rest = input.as_slice();
    let mut out = Vec::new();
    let mut failures = 0;
    let mut fails = true;
    loop {
        match normalizer.read(7) {
            ReadStep::Bytes(bytes) => out.extend(bytes),
            ReadStep::End => break,
            ReadStep::NeedMore => {
                if fails {
                    failures += 1;
                    assert_eq!(normalizer.feed(Err(failures)), Err(failures));
                } else {
                    let count = rest.len().min(5);
                    assert_eq!(normalizer.feed(Ok::<&[u8], u32>(&rest[..count])), Ok(()));
                    rest = &rest[count..];
                }
                fails = !fails;
            }
        }
    }
    assert!(failures > 3);
    assert_eq!(out, expected);
}

#[test]
fn the_output_splits_into_readable_frames() {
    let input =
        [vec![1, 2, 3], frame(1, true, 20), vec![9], frame(0, false, 5), frame(1, false, 0)].concat();
    let out = normalize_buffer(&input);
    let mut rest = &out[..];
    let mut lengths = Vec::new();
    while !rest.is_empty() {
        assert_eq!(&rest[..2], &[0xFF, 0xF1]);
        let length = frame_length(rest);
        lengths.push(length);
        rest = &rest[length..];
    }
    assert_eq!(lengths, [27, 12, 7]);

    // A frame that is too short for its own CRC passes as it is.
    let mut stunted = frame(1, true, 0);
    set_frame_length(&mut stunted, 8);
    stunted.truncate(8);
    assert_eq!(normalize_buffer(&stunted), stunted);
}
