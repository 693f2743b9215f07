//! The transport stream demuxer.

use rworldradio::ts_demuxer::{
    extract, find_audio_stream, find_pmt_pid, parse_packets, section_of, AudioCodec, PACKET_SIZE,
};

fn ts_packet(pid: u16, payload_start: bool, payload: &[u8]) -> Vec<u8> {
    let mut packet = vec![0xFFu8; PACKET_SIZE];
    packet[0] = 0x47;
    packet[1] = if payload_start { 0x40 } else { 0x00 } | ((pid >> 8) as u8 & 0x1F);
    packet[2] = (pid & 0xFF) as u8;
    packet[3] = 0x10; // payload only, continuity counter 0
    assert!(payload.len() <= PACKET_SIZE - 4);
    packet[4..4 + payload.len()].copy_from_slice(payload);
    packet
}

/// PAT with a single program pointing at PMT PID 0x1000.
fn pat_payload() -> Vec<u8> {
    let mut section = vec![
        0x00, // table_id (PAT)
        0xB0, 0x0D, // section_syntax_indicator + section_length = 13
        0x00, 0x01, 0xC1, 0x00, 0x00, // transport_stream_id ... last_section
        0x00, 0x01, // program_number 1
        0xF0, 0x00, // reserved + PMT PID 0x1000
    ];
    section.extend_from_slice(&[0xDE, 0xAD, 0xBE, 0xEF]); // CRC32
    let mut payload = vec![0x00]; // pointer_field
    payload.extend_from_slice(&section);
    payload
}

/// PMT declaring one ADTS AAC (stream_type 0x0F) stream on PID 0x0101.
fn pmt_payload(stream_type: u8) -> Vec<u8> {
    let mut section = vec![
        0x02, // table_id (PMT)
        0xB0, 0x12, // section_length = 18
        0x00, 0x01, 0xC1, 0x00, 0x00, // program_number ... last_section
        0xE1, 0x00, // PCR PID
        0xF0, 0x00, // program_info_length = 0
        stream_type, 0xE1, 0x01, // elementary PID 0x0101
        0xF0, 0x00, // ES_info_length = 0
    ];
    section.extend_from_slice(&[0xDE, 0xAD, 0xBE, 0xEF]); // CRC32
    let mut payload = vec![0x00];
    payload.extend_from_slice(&section);
    payload
}

/// PES packet start whose payload is `audio`, with no optional header bytes.
fn pes_payload(audio: &[u8]) -> Vec<u8> {
    let mut payload = vec![
        0x00, 0x00, 0x01, // packet_start_code_prefix
        0xC0, // stream_id (audio)
        0x00, 0x00, // PES_packet_length
        0x80, 0x00, // flags
        0x00, // PES_header_data_length = 0
    ];
    payload.extend_from_slice(audio);
    payload
}

#[test]
fn extracts_aac_elementary_stream_across_pes_and_continuation() {
    let mut stream = Vec::new();
    stream.extend_from_slice(&ts_packet(0x0000, true, &pat_payload()));
    stream.extend_from_slice(&ts_packet(0x1000, true, &pmt_payload(0x0F)));
    stream.extend_from_slice(&ts_packet(0x0101, true, &pes_payload(&[0x11, 0x22, 0x33])));
    stream.extend_from_slice(&ts_packet(0x0101, false, &[0x44, 0x55]));

    let extracted = extract(&stream);
    assert_eq!(extracted.codec, AudioCodec::AdtsAac);
    // The PES packet's payload comes first, then the continuation packet's.
    assert_eq!(&extracted.elementary_stream[..3], &[0x11, 0x22, 0x33]);
    // Both packets are padded with 0xFF out to 188 bytes, so only check the continuation packet's
    // leading bytes landed in order.
    assert!(extracted.elementary_stream.windows(2).any(|w| w == [0x44, 0x55]));
}

#[test]
fn recognizes_mpeg_audio_stream_type() {
    let mut stream = Vec::new();
    stream.extend_from_slice(&ts_packet(0x0000, true, &pat_payload()));
    stream.extend_from_slice(&ts_packet(0x1000, true, &pmt_payload(0x03)));
    stream.extend_from_slice(&ts_packet(0x0101, true, &pes_payload(&[0x01])));

    assert_eq!(extract(&stream).codec, AudioCodec::MpegAudio);
}

#[test]
fn resyncs_on_a_misaligned_stream() {
    let mut stream = vec![0x00, 0x11]; // junk before the first sync byte
    stream.extend_from_slice(&ts_packet(0x0000, true, &pat_payload()));
    stream.extend_from_slice(&ts_packet(0x1000, true, &pmt_payload(0x0F)));
    stream.extend_from_slice(&ts_packet(0x0101, true, &pes_payload(&[0xAB])));

    assert_eq!(extract(&stream).codec, AudioCodec::AdtsAac);
}

#[test]
fn garbage_yields_no_stream_rather_than_panicking() {
    let extracted = extract(&[0x47u8; 400]);
    assert_eq!(extracted.codec, AudioCodec::Unknown);
    assert!(extracted.elementary_stream.is_empty());
    assert!(extract(&[]).elementary_stream.is_empty());
}

#[test]
fn the_tables_lead_to_the_stream() {
    let mut stream = Vec::new();
    stream.extend_from_slice(&ts_packet(0x0000, true, &pat_payload()));
    stream.extend_from_slice(&ts_packet(0x1000, true, &pmt_payload(0x0F)));
    let packets = parse_packets(&stream);
    assert_eq!(packets.len(), 2);
    assert_eq!(find_pmt_pid(&packets), Some(0x1000));
    assert_eq!(find_audio_stream(&packets, 0x1000), Some((0x0101, AudioCodec::AdtsAac)));
    assert_eq!(find_audio_stream(&packets, 0x1001), None);
}

#[test]
fn a_section_begins_behind_its_pointer() {
    assert_eq!(section_of(&[0x01, 0xAA, 0x02, 0x03, 0x04], 3), Some(&[0x02, 0x03, 0x04][..]));
    assert_eq!(section_of(&[0x01, 0xAA, 0x02, 0x03], 3), None);
    assert_eq!(section_of(&[], 1), None);
}

#[test]
fn an_adaptation_field_is_skipped() {
    let mut packet = ts_packet(0x0101, false, &[]);
    packet[3] = 0x30; // adaptation field and payload
    packet[4] = 0x02;
    packet[7] = 0x99;
    let packets = parse_packets(&packet);
    assert_eq!(packets[0].payload[0], 0x99);
    packet[3] = 0x20; // adaptation field alone
    assert!(parse_packets(&packet).is_empty());
}

#[test]
fn other_pids_and_a_cut_off_packet_add_nothing() {
    let tables = [
        ts_packet(0x0000, true, &pat_payload()),
        ts_packet(0x1000, true, &pmt_payload(0x0F)),
    ]
    .concat();
    let first = ts_packet(0x0101, true, &pes_payload(&[0x11]));
    let second = ts_packet(0x0101, false, &[0x22]);
    let plain = [&tables[..], &first, &second].concat();
    let expected = extract(&plain).elementary_stream;
    assert_eq!(expected.len(), 184 - 9 + 184);
    assert!(expected.len() <= 184 * parse_packets(&plain).len());

    let foreign = ts_packet(0x0102, true, &pes_payload(&[0x33]));
    let mixed = [&foreign[..], &tables, &foreign, &first, &foreign, &second, &foreign].concat();
    assert_eq!(extract(&mixed).elementary_stream, expected);
    let cut = [&plain[..], &second[..187]].concat();
    assert_eq!(extract(&cut).elementary_stream, expected);
}
