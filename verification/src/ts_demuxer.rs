//! Extracts the raw elementary audio stream from one MPEG-TS segment, stripping the TS
//! packet headers and the PES framing: the PAT gives the PMT, the PMT gives the audio
//! stream's PID and codec, and that PID's payload without its PES headers is the stream.
//!
//! Nothing is carried from one segment to the next. Encoders repeat PAT and PMT so that
//! a demuxer can start from any segment.

use vstd::prelude::*;
use vstd::slice::slice_subrange;

use crate::bytes::append_slice;

verus! {

/// The size of a TS packet.
pub const PACKET_SIZE: usize = 188;

/// The codec of an elementary audio stream.
#[derive(Clone, Copy, PartialEq, Eq, Debug, Structural)]
pub enum AudioCodec {
    Unknown,
    /// stream_type 0x0F
    AdtsAac,
    /// MP3/MP2 (stream_type 0x03/0x04)
    MpegAudio,
}

/// What was found in a segment.
#[derive(Debug)]
pub struct Extracted {
    pub codec: AudioCodec,
    pub elementary_stream: Vec<u8>,
}

/// What one TS packet carries.
pub struct Packet {
    pub pid: int,
    pub payload_start: bool,
    pub payload: Seq<u8>,
}

/// The number that a pair of bytes gives, the first one masked.
pub open spec fn masked_pair(high: u8, mask: u8, low: u8) -> int {
    (high & mask) * 256 + low
}

/// Where the payload of a packet begins. `None`: the packet has an adaptation field alone,
/// or one that is longer than the packet.
pub open spec fn payload_offset(packet: Seq<u8>) -> Option<int> {
    let control = (packet[3] >> 4) & 0x3;
    if control == 2 {
        None
    } else if control == 3 {
        if 5 + packet[4] > 188 { None } else { Some(5 + packet[4]) }
    } else {
        Some(4)
    }
}

/// What a packet of 188 bytes carries, if it has a payload.
pub open spec fn packet_of(packet: Seq<u8>) -> Option<Packet> {
    match payload_offset(packet) {
        Some(offset) => Some(
            Packet {
                pid: masked_pair(packet[1], 0x1F, packet[2]),
                payload_start: packet[1] & 0x40 != 0,
                payload: packet.skip(offset),
            },
        ),
        None => None,
    }
}

/// The packets of a stream that have a payload. A byte that is not a sync byte where a packet
/// should begin is skipped.
pub open spec fn packets_of(data: Seq<u8>) -> Seq<Packet>
    decreases data.len(),
{
    if data.len() < 188 {
        Seq::empty()
    } else if data[0] != 0x47 {
        packets_of(data.skip(1))
    } else {
        match packet_of(data.take(188)) {
            Some(packet) => seq![packet] + packets_of(data.skip(188)),
            None => packets_of(data.skip(188)),
        }
    }
}

/// The PSI section in the payload of a packet, behind the pointer field, where at least
/// `minimum` bytes of it are there.
pub open spec fn section_in(payload: Seq<u8>, minimum: int) -> Option<Seq<u8>> {
    if payload.len() == 0 || 1 + payload[0] > payload.len() {
        None
    } else if payload.len() - (1 + payload[0]) < minimum {
        None
    } else {
        Some(payload.skip(1 + payload[0]))
    }
}

/// Where the entries of a section end: before the CRC, and within what is there.
pub open spec fn entries_end(section: Seq<u8>) -> int {
    let covered = 3 + masked_pair(section[1], 0x0F, section[2]) - 4;
    if covered < 0 {
        0
    } else if covered > section.len() {
        section.len() as int
    } else {
        covered
    }
}

/// The PMT PID of the first program listed from `index` on. Program number 0 is the NIT.
pub open spec fn first_program(section: Seq<u8>, index: int, end: int) -> Option<int>
    decreases end - index,
{
    if index + 4 > end {
        None
    } else if section[index] * 256 + section[index + 1] != 0 {
        Some(masked_pair(section[index + 2], 0x1F, section[index + 3]))
    } else {
        first_program(section, index + 4, end)
    }
}

/// The PMT PID that a packet gives, if it holds a PAT that lists a program.
pub open spec fn pmt_pid_in(packet: Packet) -> Option<int> {
    if packet.pid != 0 || !packet.payload_start {
        None
    } else {
        match section_in(packet.payload, 8) {
            Some(section) => if section[0] != 0x00 {
                None
            } else {
                first_program(section, 8, entries_end(section))
            },
            None => None,
        }
    }
}

/// The PMT PID that the first packet with one gives.
pub open spec fn pmt_pid_of(packets: Seq<Packet>) -> Option<int>
    decreases packets.len(),
{
    if packets.len() == 0 {
        None
    } else {
        match pmt_pid_in(packets[0]) {
            Some(pid) => Some(pid),
            None => pmt_pid_of(packets.skip(1)),
        }
    }
}

/// The audio codec that a stream type stands for.
pub open spec fn codec_of_type(stream_type: u8) -> AudioCodec {
    if stream_type == 0x0F {
        AudioCodec::AdtsAac
    } else if stream_type == 0x03 || stream_type == 0x04 {
        AudioCodec::MpegAudio
    } else {
        AudioCodec::Unknown
    }
}

/// PID and codec of the first audio stream listed from `index` on.
pub open spec fn first_audio(section: Seq<u8>, index: int, end: int) -> Option<(int, AudioCodec)>
    decreases (if index < end { end - index } else { 0 }),
{
    if index + 5 > end {
        None
    } else if codec_of_type(section[index]) != AudioCodec::Unknown {
        Some(
            (
                masked_pair(section[index + 1], 0x1F, section[index + 2]),
                codec_of_type(section[index]),
            ),
        )
    } else {
        first_audio(
            section,
            index + 5 + masked_pair(section[index + 3], 0x0F, section[index + 4]),
            end,
        )
    }
}

/// The audio stream that a packet gives, if it holds a PMT that lists one.
pub open spec fn audio_in(packet: Packet, pmt_pid: int) -> Option<(int, AudioCodec)> {
    if packet.pid != pmt_pid || !packet.payload_start {
        None
    } else {
        match section_in(packet.payload, 12) {
            Some(section) => if section[0] != 0x02 {
                None
            } else {
                first_audio(
                    section,
                    12 + masked_pair(section[10], 0x0F, section[11]),
                    entries_end(section),
                )
            },
            None => None,
        }
    }
}

/// The audio stream that the first packet with one gives.
pub open spec fn audio_of(packets: Seq<Packet>, pmt_pid: int) -> Option<(int, AudioCodec)>
    decreases packets.len(),
{
    if packets.len() == 0 {
        None
    } else {
        match audio_in(packets[0], pmt_pid) {
            Some(found) => Some(found),
            None => audio_of(packets.skip(1), pmt_pid),
        }
    }
}

/// What a packet adds to the elementary stream of `pid`: its payload, without the PES header
/// where one starts in it. A packet that should start a PES packet and does not is dropped.
pub open spec fn audio_payload(packet: Packet, pid: int) -> Seq<u8> {
    if packet.pid != pid {
        Seq::empty()
    } else if !packet.payload_start {
        packet.payload
    } else if packet.payload.len() < 9 || packet.payload[0] != 0x00 || packet.payload[1] != 0x00
        || packet.payload[2] != 0x01 {
        Seq::empty()
    } else if 9 + packet.payload[8] < packet.payload.len() {
        packet.payload.skip(9 + packet.payload[8])
    } else {
        Seq::empty()
    }
}

/// The elementary stream of `pid`.
pub open spec fn stream_of(packets: Seq<Packet>, pid: int) -> Seq<u8>
    decreases packets.len(),
{
    if packets.len() == 0 {
        Seq::empty()
    } else {
        audio_payload(packets[0], pid) + stream_of(packets.skip(1), pid)
    }
}

/// Codec and elementary stream of the audio in a TS segment. Nothing is found without a PAT
/// that leads to a PMT with an audio stream.
pub open spec fn demuxed(data: Seq<u8>) -> (AudioCodec, Seq<u8>) {
    let packets = packets_of(data);
    match pmt_pid_of(packets) {
        Some(pmt_pid) => match audio_of(packets, pmt_pid) {
            Some((pid, codec)) => (codec, stream_of(packets, pid)),
            None => (AudioCodec::Unknown, Seq::empty()),
        },
        None => (AudioCodec::Unknown, Seq::empty()),
    }
}

/// A packet as it stands in the segment.
pub struct PacketInfo<'a> {
    pub pid: u16,
    pub payload_start: bool,
    /// TS header (and adaptation field, if any) stripped
    pub payload: &'a [u8],
}

impl<'a> View for PacketInfo<'a> {
    type V = Packet;

    open spec fn view(&self) -> Packet {
        Packet {
            pid: self.pid as int,
            payload_start: self.payload_start,
            payload: self.payload@,
        }
    }
}

/// The views of some packets.
pub open spec fn packet_views(packets: Seq<PacketInfo<'_>>) -> Seq<Packet> {
    packets.map_values(|packet: PacketInfo<'_>| packet@)
}

/// Two bytes as a number, the first one masked.
fn pair(high: u8, mask: u8, low: u8) -> (number: usize)
    ensures
        number == masked_pair(high, mask, low),
        number <= mask * 256 + 255,
{
    assert(high & mask <= mask) by (bit_vector);
    ((high & mask) as usize) * 256 + low as usize
}

/// The packets of a segment.
pub fn parse_packets(data: &[u8]) -> (packets: Vec<PacketInfo<'_>>)
    ensures
        packet_views(packets@) == packets_of(data@),
{
    let mut packets: Vec<PacketInfo<'_>> = Vec::new();
    let mut position: usize = 0;
    let length: usize = data.len();
    assert(data@.skip(0) =~= data@);
    assert(packet_views(packets@) + packets_of(data@) =~= packets_of(data@));
    while length - position >= PACKET_SIZE
        invariant
            position <= length,
            length == data@.len(),
            packets_of(data@) == packet_views(packets@) + packets_of(data@.skip(position as int)),
        decreases length - position,
    {
        let ghost here = data@.skip(position as int);
        if data[position] != 0x47 {
            // not aligned: look for the sync byte
            assert(here.skip(1) =~= data@.skip(position + 1));
            position += 1;
            continue;
        }
        let packet: &[u8] = slice_subrange(data, position, position + PACKET_SIZE);
        assert(packet@ =~= here.take(188));
        assert(here.skip(188) =~= data@.skip(position + 188));
        let pid: usize = pair(packet[1], 0x1F, packet[2]);
        let payload_start: bool = packet[1] & 0x40 != 0;
        let control: u8 = (packet[3] >> 4) & 0x3;
        position += PACKET_SIZE;
        if control == 2 {
            continue;
        }
        let offset: usize = if control == 3 { 5 + packet[4] as usize } else { 4 };
        if offset > PACKET_SIZE {
            continue;
        }
        let ghost before = packets@;
        let info: PacketInfo<'_> = PacketInfo {
            pid: pid as u16,
            payload_start,
            payload: slice_subrange(packet, offset, PACKET_SIZE),
        };
        packets.push(info);
        proof {
            assert(info@.payload =~= packet@.skip(offset as int));
            assert(packet_views(packets@) =~= packet_views(before).push(info@));
            assert(packet_of(here.take(188)) == Some(info@));
            assert(packet_views(before) + (seq![info@] + packets_of(data@.skip(position as int)))
                =~= packet_views(packets@) + packets_of(data@.skip(position as int)));
        }
    }
    assert(packet_views(packets@) + Seq::<Packet>::empty() =~= packet_views(packets@));
    packets
}

/// The section in a payload, behind the pointer field.
pub fn section_of(payload: &[u8], minimum_length: usize) -> (section: Option<&[u8]>)
    ensures
        match section {
            Some(found) => section_in(payload@, minimum_length as int) == Some(found@),
            None => section_in(payload@, minimum_length as int) is None,
        },
{
    if payload.len() == 0 {
        return None;
    }
    let start: usize = 1 + payload[0] as usize;
    if start > payload.len() {
        return None;
    }
    let section: &[u8] = slice_subrange(payload, start, payload.len());
    if section.len() < minimum_length {
        return None;
    }
    assert(section@ =~= payload@.skip(start as int));
    Some(section)
}

/// Where the entries of a section end.
fn end_of_entries(section: &[u8]) -> (end: usize)
    requires
        section@.len() >= 3,
    ensures
        end == entries_end(section@),
        end <= section@.len(),
        end <= 0x0FFF,
{
    let covered: usize = 3 + pair(section[1], 0x0F, section[2]);
    let without_crc: usize = if covered < 4 { 0 } else { covered - 4 };
    if without_crc < section.len() { without_crc } else { section.len() }
}

/// The PMT PID that one packet gives.
fn pmt_pid_in_packet(packet: &PacketInfo<'_>) -> (pid: Option<u16>)
    ensures
        match pid {
            Some(found) => pmt_pid_in(packet@) == Some(found as int),
            None => pmt_pid_in(packet@) is None,
        },
{
    if packet.pid != 0 || !packet.payload_start {
        return None;
    }
    let section: &[u8] = match section_of(packet.payload, 8) {
        Some(section) => section,
        None => {
            return None;
        },
    };
    if section[0] != 0x00 {
        return None;
    }
    let end: usize = end_of_entries(section);
    let mut index: usize = 8;
    while index + 4 <= end
        invariant
            end <= section@.len(),
            end <= 0x0FFF,
            index <= 0x0FFF + 8,
            pmt_pid_in(packet@) == first_program(section@, index as int, end as int),
        decreases end - index,
    {
        let program: usize = section[index] as usize * 256 + section[index + 1] as usize;
        if program != 0 {
            return Some(pair(section[index + 2], 0x1F, section[index + 3]) as u16);
        }
        index += 4;
    }
    None
}

/// The PID of the PMT.
pub fn find_pmt_pid(packets: &[PacketInfo<'_>]) -> (pid: Option<u16>)
    ensures
        match pid {
            Some(found) => pmt_pid_of(packet_views(packets@)) == Some(found as int),
            None => pmt_pid_of(packet_views(packets@)) is None,
        },
{
    let ghost views = packet_views(packets@);
    assert(views.skip(0) =~= views);
    for position in 0..packets.len()
        invariant
            views == packet_views(packets@),
            pmt_pid_of(views) == pmt_pid_of(views.skip(position as int)),
    {
        let packet: &PacketInfo<'_> = &packets[position];
        assert(views.skip(position as int)[0] == packet@);
        assert(views.skip(position as int).skip(1) =~= views.skip(position + 1));
        let found: Option<u16> = pmt_pid_in_packet(packet);
        if found.is_some() {
            return found;
        }
    }
    None
}

/// The audio stream that one packet gives.
fn audio_in_packet(packet: &PacketInfo<'_>, pmt_pid: u16) -> (found: Option<(u16, AudioCodec)>)
    ensures
        match found {
            Some((pid, codec)) => audio_in(packet@, pmt_pid as int) == Some((pid as int, codec)),
            None => audio_in(packet@, pmt_pid as int) is None,
        },
{
    if packet.pid != pmt_pid || !packet.payload_start {
        return None;
    }
    let section: &[u8] = match section_of(packet.payload, 12) {
        Some(section) => section,
        None => {
            return None;
        },
    };
    if section[0] != 0x02 {
        return None;
    }
    let end: usize = end_of_entries(section);
    let mut index: usize = 12 + pair(section[10], 0x0F, section[11]);
    while index + 5 <= end
        invariant
            end <= section@.len(),
            end <= 0x0FFF,
            index <= 0x0FFF + 0x0FFF + 12,
            audio_in(packet@, pmt_pid as int) == first_audio(section@, index as int, end as int),
        decreases (if index < end { end - index } else { 0 }),
    {
        let codec: AudioCodec = match section[index] {
            0x0F => AudioCodec::AdtsAac,
            0x03 | 0x04 => AudioCodec::MpegAudio,
            _ => AudioCodec::Unknown,
        };
        if codec != AudioCodec::Unknown {
            return Some((pair(section[index + 1], 0x1F, section[index + 2]) as u16, codec));
        }
        index += 5 + pair(section[index + 3], 0x0F, section[index + 4]);
    }
    None
}

/// PID and codec of the audio stream.
pub fn find_audio_stream(packets: &[PacketInfo<'_>], pmt_pid: u16) -> (found: Option<(u16, AudioCodec)>)
    ensures
        match found {
            Some((pid, codec)) => audio_of(packet_views(packets@), pmt_pid as int) == Some(
                (pid as int, codec),
            ),
            None => audio_of(packet_views(packets@), pmt_pid as int) is None,
        },
{
    let ghost views = packet_views(packets@);
    assert(views.skip(0) =~= views);
    for position in 0..packets.len()
        invariant
            views == packet_views(packets@),
            audio_of(views, pmt_pid as int) == audio_of(views.skip(position as int), pmt_pid as int),
    {
        let packet: &PacketInfo<'_> = &packets[position];
        assert(views.skip(position as int)[0] == packet@);
        assert(views.skip(position as int).skip(1) =~= views.skip(position + 1));
        let found: Option<(u16, AudioCodec)> = audio_in_packet(packet, pmt_pid);
        if found.is_some() {
            return found;
        }
    }
    None
}

/// Appends what a packet adds to the elementary stream.
fn append_payload(packet: &PacketInfo<'_>, pid: u16, out: &mut Vec<u8>)
    ensures
        final(out)@ == old(out)@ + audio_payload(packet@, pid as int),
{
    assert(out@ + Seq::<u8>::empty() =~= out@);
    if packet.pid != pid {
        return;
    }
    if !packet.payload_start {
        append_slice(out, packet.payload);
        return;
    }
    let payload: &[u8] = packet.payload;
    if payload.len() < 9 || !(payload[0] == 0x00 && payload[1] == 0x00 && payload[2] == 0x01) {
        return;
    }
    let start: usize = 9 + payload[8] as usize;
    if start < payload.len() {
        let audio: &[u8] = slice_subrange(payload, start, payload.len());
        assert(audio@ =~= payload@.skip(start as int));
        append_slice(out, audio);
    }
}

/// Extracts the audio of one segment.
pub fn extract(ts_data: &[u8]) -> (result: Extracted)
    ensures
        (result.codec, result.elementary_stream@) == demuxed(ts_data@),
{
    let mut result: Extracted = Extracted {
        codec: AudioCodec::Unknown,
        elementary_stream: Vec::new(),
    };
    let packets: Vec<PacketInfo<'_>> = parse_packets(ts_data);
    let pmt_pid: u16 = match find_pmt_pid(packets.as_slice()) {
        Some(pid) => pid,
        None => {
            return result;
        },
    };
    let (audio_pid, codec): (u16, AudioCodec) = match find_audio_stream(packets.as_slice(), pmt_pid) {
        Some(found) => found,
        None => {
            return result;
        },
    };
    result.codec = codec;
    let ghost views = packet_views(packets@);
    assert(views.skip(0) =~= views);
    assert(result.elementary_stream@ + stream_of(views, audio_pid as int) =~= stream_of(
        views,
        audio_pid as int,
    ));
    for position in 0..packets.len()
        invariant
            views == packet_views(packets@),
            result.codec == codec,
            stream_of(views, audio_pid as int) == result.elementary_stream@ + stream_of(
                views.skip(position as int),
                audio_pid as int,
            ),
    {
        let ghost before = result.elementary_stream@;
        append_payload(&packets[position], audio_pid, &mut result.elementary_stream);
        proof {
            let here = views.skip(position as int);
            assert(here[0] == packets@[position as int]@);
            assert(here.skip(1) =~= views.skip(position + 1));
            assert(before + (audio_payload(here[0], audio_pid as int) + stream_of(
                here.skip(1),
                audio_pid as int,
            )) =~= result.elementary_stream@ + stream_of(here.skip(1), audio_pid as int));
        }
    }
    assert(result.elementary_stream@ + Seq::<u8>::empty() =~= result.elementary_stream@);
    result
}

/// Bytes before the first sync byte are skipped.
pub proof fn law_junk_before_the_packets_is_skipped(junk: Seq<u8>, data: Seq<u8>)
    requires
        forall|i: int| 0 <= i < junk.len() ==> junk[i] != 0x47,
    ensures
        packets_of(junk + data) == packets_of(data),
        demuxed(junk + data) == demuxed(data),
    decreases junk.len(),
{
    if junk.len() == 0 {
        assert(junk + data =~= data);
    } else {
        let rest = junk.skip(1);
        law_junk_before_the_packets_is_skipped(rest, data);
        assert((junk + data).skip(1) =~= rest + data);
        if (junk + data).len() < 188 {
            assert(packets_of(junk + data) =~= packets_of(data));
        }
    }
}

/// A whole packet at the front is taken as one packet, whatever bytes it holds.
pub proof fn law_packets_are_chained(packet: Seq<u8>, rest: Seq<u8>)
    requires
        packet.len() == 188,
        packet[0] == 0x47,
    ensures
        packets_of(packet + rest) == packets_of(packet) + packets_of(rest),
{
    assert((packet + rest).take(188) =~= packet.take(188));
    assert((packet + rest).skip(188) =~= rest);
    assert(packet.skip(188) =~= Seq::empty());
    assert(packets_of(packet.skip(188)) =~= Seq::empty());
    assert(packets_of(packet + rest) =~= packets_of(packet) + packets_of(rest));
}

/// Where no codec is known, there is no stream.
pub proof fn law_no_stream_without_a_codec(data: Seq<u8>)
    ensures
        demuxed(data).0 == AudioCodec::Unknown ==> demuxed(data).1.len() == 0,
{
    let packets = packets_of(data);
    if let Some(pmt_pid) = pmt_pid_of(packets) {
        lemma_audio_has_codec(packets, pmt_pid);
    }
}

proof fn lemma_audio_has_codec(packets: Seq<Packet>, pmt_pid: int)
    ensures
        audio_of(packets, pmt_pid) matches Some((_, codec)) ==> codec != AudioCodec::Unknown,
    decreases packets.len(),
{
    if packets.len() > 0 {
        if let Some(section) = section_in(packets[0].payload, 12) {
            lemma_first_audio_has_codec(
                section,
                12 + masked_pair(section[10], 0x0F, section[11]),
                entries_end(section),
            );
        }
        lemma_audio_has_codec(packets.skip(1), pmt_pid);
    }
}

proof fn lemma_first_audio_has_codec(section: Seq<u8>, index: int, end: int)
    ensures
        first_audio(section, index, end) matches Some((_, codec)) ==> codec != AudioCodec::Unknown,
    decreases (if index < end { end - index } else { 0 }),
{
    if index + 5 <= end && codec_of_type(section[index]) == AudioCodec::Unknown {
        lemma_first_audio_has_codec(
            section,
            index + 5 + masked_pair(section[index + 3], 0x0F, section[index + 4]),
            end,
        );
    }
}

/// The elementary stream has at most 184 bytes of every whole packet, and every packet takes 188
/// bytes of the segment. So it is no longer than the segment.
pub proof fn law_a_packet_gives_at_most_its_payload(data: Seq<u8>)
    ensures
        demuxed(data).1.len() <= 184 * packets_of(data).len(),
        188 * packets_of(data).len() <= data.len(),
        demuxed(data).1.len() <= data.len(),
{
    let packets = packets_of(data);
    lemma_packet_count(data);
    if let Some(pmt_pid) = pmt_pid_of(packets) {
        if let Some((pid, _)) = audio_of(packets, pmt_pid) {
            lemma_stream_len(packets, pid);
        }
    }
}

/// Every packet takes 188 bytes, of which at most 184 are payload.
proof fn lemma_packet_count(data: Seq<u8>)
    ensures
        188 * packets_of(data).len() <= data.len(),
        forall|i: int|
            0 <= i < packets_of(data).len() ==> (#[trigger] packets_of(data)[i]).payload.len()
                <= 184,
    decreases data.len(),
{
    if data.len() < 188 {
    } else if data[0] != 0x47 {
        lemma_packet_count(data.skip(1));
    } else {
        let rest = packets_of(data.skip(188));
        lemma_packet_count(data.skip(188));
        if let Some(packet) = packet_of(data.take(188)) {
            let all = packets_of(data);
            assert(all == seq![packet] + rest);
            assert forall|i: int| 0 <= i < all.len() implies (#[trigger] all[i]).payload.len()
                <= 184 by {
                if i > 0 {
                    assert(all[i] == rest[i - 1]);
                }
            }
        }
    }
}

proof fn lemma_stream_len(packets: Seq<Packet>, pid: int)
    requires
        forall|i: int| 0 <= i < packets.len() ==> (#[trigger] packets[i]).payload.len() <= 184,
    ensures
        stream_of(packets, pid).len() <= 184 * packets.len(),
    decreases packets.len(),
{
    if packets.len() > 0 {
        let rest = packets.skip(1);
        assert forall|i: int| 0 <= i < rest.len() implies (#[trigger] rest[i]).payload.len()
            <= 184 by {
            assert(rest[i] == packets[i + 1]);
        }
        assert(packets[0].payload.len() <= 184);
        lemma_stream_len(rest, pid);
    }
}

/// The bytes are whole packets, one behind the other.
pub open spec fn whole_packets(data: Seq<u8>) -> bool
    decreases data.len(),
{
    data.len() == 0 || (data.len() >= 188 && data[0] == 0x47 && whole_packets(data.skip(188)))
}

/// Behind whole packets the packets are those of what follows.
pub proof fn law_packets_follow_whole_packets(front: Seq<u8>, rest: Seq<u8>)
    requires
        whole_packets(front),
    ensures
        packets_of(front + rest) == packets_of(front) + packets_of(rest),
    decreases front.len(),
{
    if front.len() == 0 {
        assert(front + rest =~= rest);
        assert(packets_of(front) + packets_of(rest) =~= packets_of(rest));
    } else {
        law_packets_follow_whole_packets(front.skip(188), rest);
        assert((front + rest).take(188) =~= front.take(188));
        assert((front + rest).skip(188) =~= front.skip(188) + rest);
        assert(packets_of(front + rest) =~= packets_of(front) + packets_of(rest));
    }
}

/// A packet that is cut off at the end of a segment adds nothing, whatever its bytes.
pub proof fn law_a_cut_off_packet_adds_nothing(front: Seq<u8>, tail: Seq<u8>)
    requires
        whole_packets(front),
        tail.len() < 188,
    ensures
        packets_of(front + tail) == packets_of(front),
        demuxed(front + tail) == demuxed(front),
{
    law_packets_follow_whole_packets(front, tail);
    assert(packets_of(front + tail) =~= packets_of(front));
}

/// A packet whose PID is neither that of the PAT nor that of the PMT nor that of the audio stream
/// changes nothing, wherever among the packets it stands.
pub proof fn law_packets_of_other_pids_add_nothing(
    front: Seq<u8>,
    packet: Seq<u8>,
    rest: Seq<u8>,
)
    requires
        whole_packets(front),
        packet.len() == 188,
        packet[0] == 0x47,
        ({
            let pid = masked_pair(packet[1], 0x1F, packet[2]);
            let others = packets_of(front + rest);
            &&& pid != 0
            &&& pmt_pid_of(others) matches Some(pmt_pid) ==> pid != pmt_pid && (audio_of(
                others,
                pmt_pid,
            ) matches Some((audio_pid, _)) ==> pid != audio_pid)
        }),
    ensures
        demuxed(front + packet + rest) == demuxed(front + rest),
{
    law_packets_follow_whole_packets(front, rest);
    law_packets_follow_whole_packets(front, packet + rest);
    law_packets_are_chained(packet, rest);
    assert(front + packet + rest =~= front + (packet + rest));
    assert(packet.take(188) =~= packet);
    assert(packets_of(packet.skip(188)) =~= Seq::empty());
    let before = packets_of(front);
    let after = packets_of(rest);
    match packet_of(packet) {
        None => {
            assert(packets_of(packet) =~= Seq::empty());
            assert(packets_of(front + packet + rest) =~= before + after);
        },
        Some(foreign) => {
            assert(packets_of(packet) =~= seq![foreign]);
            assert(packets_of(front + packet + rest) =~= before + (seq![foreign] + after));
            lemma_foreign_pmt_pid(before, foreign, after);
            if let Some(pmt_pid) = pmt_pid_of(before + after) {
                lemma_foreign_audio(before, foreign, after, pmt_pid);
                if let Some((pid, _)) = audio_of(before + after, pmt_pid) {
                    lemma_foreign_stream(before, foreign, after, pid);
                }
            }
        },
    }
}

proof fn lemma_foreign_pmt_pid(before: Seq<Packet>, foreign: Packet, after: Seq<Packet>)
    requires
        foreign.pid != 0,
    ensures
        pmt_pid_of(before + (seq![foreign] + after)) == pmt_pid_of(before + after),
    decreases before.len(),
{
    let all = before + (seq![foreign] + after);
    if before.len() == 0 {
        assert(all.skip(1) =~= after);
        assert(before + after =~= after);
    } else {
        assert(all.skip(1) =~= before.skip(1) + (seq![foreign] + after));
        assert((before + after).skip(1) =~= before.skip(1) + after);
        lemma_foreign_pmt_pid(before.skip(1), foreign, after);
    }
}

proof fn lemma_foreign_audio(
    before: Seq<Packet>,
    foreign: Packet,
    after: Seq<Packet>,
    pmt_pid: int,
)
    requires
        foreign.pid != pmt_pid,
    ensures
        audio_of(before + (seq![foreign] + after), pmt_pid) == audio_of(before + after, pmt_pid),
    decreases before.len(),
{
    let all = before + (seq![foreign] + after);
    if before.len() == 0 {
        assert(all.skip(1) =~= after);
        assert(before + after =~= after);
    } else {
        assert(all.skip(1) =~= before.skip(1) + (seq![foreign] + after));
        assert((before + after).skip(1) =~= before.skip(1) + after);
        lemma_foreign_audio(before.skip(1), foreign, after, pmt_pid);
    }
}

proof fn lemma_foreign_stream(before: Seq<Packet>, foreign: Packet, after: Seq<Packet>, pid: int)
    requires
        foreign.pid != pid,
    ensures
        stream_of(before + (seq![foreign] + after), pid) == stream_of(before + after, pid),
    decreases before.len(),
{
    let all = before + (seq![foreign] + after);
    if before.len() == 0 {
        assert(all.skip(1) =~= after);
        assert(before + after =~= after);
        assert(stream_of(all, pid) =~= stream_of(after, pid));
    } else {
        assert(all.skip(1) =~= before.skip(1) + (seq![foreign] + after));
        assert((before + after).skip(1) =~= before.skip(1) + after);
        lemma_foreign_stream(before.skip(1), foreign, after, pid);
    }
}

/// A packet as a multiplexer writes it.
pub struct WrittenPacket {
    pub pid: int,
    pub payload_start: bool,
    /// What stands in the adaptation field behind its length, where there is one.
    pub adaptation: Option<Seq<u8>>,
    pub payload: Seq<u8>,
    /// What the bits beside the start flag and the PID say.
    pub flags: u8,
    /// What the scrambling bits and the continuity counter say.
    pub counter: u8,
}

/// The packet can be written: the PID has 13 bits, and all together has 188 bytes.
pub open spec fn is_writable(packet: WrittenPacket) -> bool {
    &&& 0 <= packet.pid < 8192
    &&& match packet.adaptation {
        Some(field) => field.len() + packet.payload.len() == 183,
        None => packet.payload.len() == 184,
    }
}

/// The 188 bytes of a packet.
pub open spec fn written(packet: WrittenPacket) -> Seq<u8> {
    let second = (packet.flags & 0xA0) | (if packet.payload_start { 0x40u8 } else { 0x00u8 }) | (
    packet.pid / 256) as u8;
    let third = (packet.pid % 256) as u8;
    match packet.adaptation {
        Some(field) => seq![
            0x47u8,
            second,
            third,
            (packet.counter & 0xCF) | 0x30,
            field.len() as u8,
        ] + field + packet.payload,
        None => seq![0x47u8, second, third, (packet.counter & 0xCF) | 0x10] + packet.payload,
    }
}

/// Packets, one behind the other.
pub open spec fn written_all(packets: Seq<WrittenPacket>) -> Seq<u8>
    decreases packets.len(),
{
    if packets.len() == 0 {
        Seq::empty()
    } else {
        written(packets[0]) + written_all(packets.skip(1))
    }
}

/// What a packet carries.
pub open spec fn carried(packet: WrittenPacket) -> Packet {
    Packet {
        pid: packet.pid,
        payload_start: packet.payload_start,
        payload: packet.payload,
    }
}

/// A packet that was written is read as what it carries, with or without an adaptation field and
/// whatever its other bits say.
pub proof fn law_a_written_packet_is_read_back(packet: WrittenPacket)
    requires
        is_writable(packet),
    ensures
        written(packet).len() == 188,
        written(packet)[0] == 0x47,
        packet_of(written(packet)) == Some(carried(packet)),
{
    let high = (packet.pid / 256) as u8;
    let flags = packet.flags;
    let counter = packet.counter;
    assert(((flags & 0xA0) | 0x40u8 | high) & 0x1F == high && ((flags & 0xA0) | 0x40u8 | high) & 0x40
        != 0 && ((flags & 0xA0) | 0x00u8 | high) & 0x1F == high && ((flags & 0xA0) | 0x00u8 | high)
        & 0x40 == 0) by (bit_vector)
        requires
            high < 32u8,
    ;
    assert((((counter & 0xCF) | 0x30) >> 4) & 0x3 == 3 && (((counter & 0xCF) | 0x10) >> 4) & 0x3
        == 1) by (bit_vector);
    let bytes = written(packet);
    match packet.adaptation {
        Some(field) => {
            assert(bytes[4] == field.len());
            assert(bytes.skip(5 + bytes[4]) =~= packet.payload);
        },
        None => {
            assert(bytes.skip(4) =~= packet.payload);
        },
    }
}

/// The packets of a segment are those that were written into it, all of them and in order.
pub proof fn law_written_packets_are_read_back(packets: Seq<WrittenPacket>)
    requires
        forall|i: int| 0 <= i < packets.len() ==> is_writable(#[trigger] packets[i]),
    ensures
        whole_packets(written_all(packets)),
        packets_of(written_all(packets)) == Seq::new(packets.len(), |i: int| carried(packets[i])),
    decreases packets.len(),
{
    let all = Seq::new(packets.len(), |i: int| carried(packets[i]));
    if packets.len() == 0 {
        assert(packets_of(written_all(packets)) =~= all);
    } else {
        let rest = packets.skip(1);
        assert forall|i: int| 0 <= i < rest.len() implies is_writable(#[trigger] rest[i]) by {
            assert(rest[i] == packets[i + 1]);
        }
        law_written_packets_are_read_back(rest);
        law_a_written_packet_is_read_back(packets[0]);
        let data = written_all(packets);
        assert(data.take(188) =~= written(packets[0]));
        assert(data.skip(188) =~= written_all(rest));
        assert(packets_of(data) =~= all) by {
            assert(packets_of(data) == seq![carried(packets[0])] + packets_of(written_all(rest)));
            assert forall|i: int| 0 < i < all.len() implies all[i] == packets_of(written_all(rest))[i
                - 1] by {
                assert(rest[i - 1] == packets[i]);
            }
        }
    }
}

/// A packet that has an adaptation field alone, or one that reaches behind its end, carries nothing.
pub proof fn law_packets_without_a_payload_are_passed_over(packet: Seq<u8>, rest: Seq<u8>)
    requires
        packet.len() == 188,
        packet[0] == 0x47,
        (packet[3] >> 4) & 0x3 == 2 || ((packet[3] >> 4) & 0x3 == 3 && packet[4] > 183),
    ensures
        packets_of(packet + rest) == packets_of(rest),
{
    assert((packet + rest).take(188) =~= packet);
    assert((packet + rest).skip(188) =~= rest);
}

/// A program of a PAT.
pub struct Program {
    pub number: int,
    pub pid: int,
    pub reserved: u8,
}

/// The entries of a PAT, four bytes each.
pub open spec fn written_programs(programs: Seq<Program>) -> Seq<u8>
    decreases programs.len(),
{
    if programs.len() == 0 {
        Seq::empty()
    } else {
        let program = programs[0];
        seq![
            (program.number / 256) as u8,
            (program.number % 256) as u8,
            (program.reserved & 0xE0) | (program.pid / 256) as u8,
            (program.pid % 256) as u8,
        ] + written_programs(programs.skip(1))
    }
}

/// The payload of a packet with a section: bytes that the pointer field passes over, and then the
/// section, with its length, which counts what follows it, and its checksum. `rest` is what stands
/// behind it.
pub open spec fn written_section(
    passed: Seq<u8>,
    table: u8,
    syntax: u8,
    body: Seq<u8>,
    checksum: Seq<u8>,
    rest: Seq<u8>,
) -> Seq<u8> {
    let length = body.len() + 4;
    seq![passed.len() as u8] + passed + seq![
        table,
        (syntax & 0xF0) | (length / 256) as u8,
        (length % 256) as u8,
    ] + body + checksum + rest
}

/// A section that was written is found behind the pointer field, with its end before the checksum.
proof fn lemma_section(
    passed: Seq<u8>,
    table: u8,
    syntax: u8,
    body: Seq<u8>,
    checksum: Seq<u8>,
    rest: Seq<u8>,
    minimum: int,
)
    requires
        passed.len() < 256,
        body.len() + 4 < 4096,
        checksum.len() == 4,
        0 <= minimum <= 3 + body.len() + 4,
    ensures
        section_in(written_section(passed, table, syntax, body, checksum, rest), minimum) matches Some(
            section,
        ) && {
            &&& section[0] == table
            &&& section.skip(3) == body + (checksum + rest)
            &&& entries_end(section) == 3 + body.len()
            &&& section.len() >= 7 + body.len()
        },
{
    let length = body.len() + 4;
    let high = (length / 256) as u8;
    assert(((syntax & 0xF0) | high) & 0x0F == high) by (bit_vector)
        requires
            high < 16u8,
    ;
    let payload = written_section(passed, table, syntax, body, checksum, rest);
    assert(payload[0] == passed.len());
    let section = payload.skip(1 + payload[0]);
    assert(section =~= seq![table, (syntax & 0xF0) | high, (length % 256) as u8] + body + checksum
        + rest);
    assert(section.skip(3) =~= body + (checksum + rest));
}

/// A PAT gives the PID of the first program that is not numbered 0, and none where all are; whatever
/// the pointer passes over, whatever the other fields say and whatever stands behind it.
pub proof fn law_a_pat_gives_the_first_program(
    passed: Seq<u8>,
    syntax: u8,
    fields: Seq<u8>,
    programs: Seq<Program>,
    checksum: Seq<u8>,
    rest: Seq<u8>,
    first: int,
)
    requires
        passed.len() < 256,
        fields.len() == 5,
        checksum.len() == 4,
        fields.len() + 4 * programs.len() + 4 < 4096,
        forall|i: int|
            0 <= i < programs.len() ==> 0 <= (#[trigger] programs[i]).number < 65536 && 0
                <= programs[i].pid < 8192,
        0 <= first <= programs.len(),
        forall|i: int| 0 <= i < first ==> (#[trigger] programs[i]).number == 0,
        first < programs.len() ==> programs[first].number != 0,
    ensures
        pmt_pid_in(
            Packet {
                pid: 0,
                payload_start: true,
                payload: written_section(
                    passed,
                    0x00,
                    syntax,
                    fields + written_programs(programs),
                    checksum,
                    rest,
                ),
            },
        ) == (if first < programs.len() {
            Some(programs[first].pid)
        } else {
            None
        }),
{
    let body = fields + written_programs(programs);
    lemma_programs_len(programs);
    lemma_section(passed, 0x00, syntax, body, checksum, rest, 8);
    let payload = written_section(passed, 0x00, syntax, body, checksum, rest);
    let section = section_in(payload, 8).unwrap();
    assert(section.skip(8) =~= section.skip(3).skip(5));
    assert(section.skip(8) =~= written_programs(programs) + (checksum + rest));
    lemma_first_program(section, 8, entries_end(section), programs, checksum + rest, first);
}

proof fn lemma_programs_len(programs: Seq<Program>)
    ensures
        written_programs(programs).len() == 4 * programs.len(),
    decreases programs.len(),
{
    if programs.len() > 0 {
        lemma_programs_len(programs.skip(1));
    }
}

proof fn lemma_first_program(
    section: Seq<u8>,
    index: int,
    end: int,
    programs: Seq<Program>,
    rest: Seq<u8>,
    first: int,
)
    requires
        0 <= index <= section.len(),
        section.skip(index) == written_programs(programs) + rest,
        end == index + 4 * programs.len(),
        forall|i: int|
            0 <= i < programs.len() ==> 0 <= (#[trigger] programs[i]).number < 65536 && 0
                <= programs[i].pid < 8192,
        0 <= first <= programs.len(),
        forall|i: int| 0 <= i < first ==> (#[trigger] programs[i]).number == 0,
        first < programs.len() ==> programs[first].number != 0,
    ensures
        first_program(section, index, end) == (if first < programs.len() {
            Some(programs[first].pid)
        } else {
            None
        }),
    decreases programs.len(),
{
    if programs.len() > 0 {
        let program = programs[0];
        let others = programs.skip(1);
        lemma_programs_len(programs);
        lemma_programs_len(others);
        let here = section.skip(index);
        assert(here.len() >= 4) by {
            assert(here.len() == written_programs(programs).len() + rest.len());
        }
        let high = (program.pid / 256) as u8;
        let reserved = program.reserved;
        assert(((reserved & 0xE0) | high) & 0x1F == high) by (bit_vector)
            requires
                high < 32u8,
        ;
        assert(section[index] == here[0] && section[index + 1] == here[1] && section[index + 2]
            == here[2] && section[index + 3] == here[3]);
        assert(here[0] == (program.number / 256) as u8);
        assert(here[1] == (program.number % 256) as u8);
        assert(here[2] == (reserved & 0xE0) | high);
        assert(here[3] == (program.pid % 256) as u8);
        if program.number == 0 {
            assert(section.skip(index + 4) =~= here.skip(4));
            assert(here.skip(4) =~= written_programs(others) + rest);
            assert forall|i: int| 0 <= i < others.len() implies 0 <= (#[trigger] others[i]).number
                < 65536 && 0 <= others[i].pid < 8192 by {
                assert(others[i] == programs[i + 1]);
            }
            assert forall|i: int| 0 <= i < first - 1 implies (#[trigger] others[i]).number == 0 by {
                assert(others[i] == programs[i + 1]);
            }
            lemma_first_program(section, index + 4, end, others, rest, first - 1);
        }
    }
}

/// Only a PAT gives a program: not a packet of another PID, not one that begins no section, and not
/// a section of another table.
pub proof fn law_only_a_pat_gives_a_program(packet: Packet)
    requires
        packet.pid != 0 || !packet.payload_start || packet.payload.len() == 0 || ({
            let at = 1 + packet.payload[0] as int;
            at + 8 > packet.payload.len() || packet.payload[at] != 0x00
        }),
    ensures
        pmt_pid_in(packet) is None,
{
}

/// An elementary stream of a PMT.
pub struct ListedStream {
    pub kind: u8,
    pub pid: int,
    pub info: Seq<u8>,
    pub reserved: u8,
    pub more_reserved: u8,
}

/// The entries of a PMT, each with its descriptors behind it.
pub open spec fn written_streams(streams: Seq<ListedStream>) -> Seq<u8>
    decreases streams.len(),
{
    if streams.len() == 0 {
        Seq::empty()
    } else {
        let stream = streams[0];
        seq![
            stream.kind,
            (stream.reserved & 0xE0) | (stream.pid / 256) as u8,
            (stream.pid % 256) as u8,
            (stream.more_reserved & 0xF0) | (stream.info.len() / 256) as u8,
            (stream.info.len() % 256) as u8,
        ] + stream.info + written_streams(streams.skip(1))
    }
}

/// The stream is audio: AAC has the type 15, MPEG audio the type 3 or 4.
pub open spec fn is_listed_audio(kind: u8) -> bool {
    kind == 15 || kind == 3 || kind == 4
}

/// A PMT gives PID and codec of the first audio stream that it lists, and none where it lists none;
/// whatever descriptors stand between the entries.
pub proof fn law_a_pmt_gives_the_first_audio_stream(
    pmt_pid: int,
    passed: Seq<u8>,
    syntax: u8,
    fields: Seq<u8>,
    reserved: u8,
    info: Seq<u8>,
    streams: Seq<ListedStream>,
    checksum: Seq<u8>,
    rest: Seq<u8>,
    first: int,
)
    requires
        passed.len() < 256,
        fields.len() == 7,
        checksum.len() == 4,
        fields.len() + 2 + info.len() + written_streams(streams).len() + 4 < 4096,
        forall|i: int| 0 <= i < streams.len() ==> 0 <= (#[trigger] streams[i]).pid < 8192,
        0 <= first <= streams.len(),
        forall|i: int| 0 <= i < first ==> !is_listed_audio((#[trigger] streams[i]).kind),
        first < streams.len() ==> is_listed_audio(streams[first].kind),
    ensures
        audio_in(
            Packet {
                pid: pmt_pid,
                payload_start: true,
                payload: written_section(
                    passed,
                    0x02,
                    syntax,
                    fields + seq![
                        (reserved & 0xF0) | (info.len() / 256) as u8,
                        (info.len() % 256) as u8,
                    ] + info + written_streams(streams),
                    checksum,
                    rest,
                ),
            },
            pmt_pid,
        ) == (if first < streams.len() {
            Some(
                (
                    streams[first].pid,
                    if streams[first].kind == 15 {
                        AudioCodec::AdtsAac
                    } else {
                        AudioCodec::MpegAudio
                    },
                ),
            )
        } else {
            None
        }),
{
    let high = (info.len() / 256) as u8;
    assert(((reserved & 0xF0) | high) & 0x0F == high) by (bit_vector)
        requires
            high < 16u8,
    ;
    let body = fields + seq![(reserved & 0xF0) | high, (info.len() % 256) as u8] + info
        + written_streams(streams);
    lemma_section(passed, 0x02, syntax, body, checksum, rest, 12);
    let payload = written_section(passed, 0x02, syntax, body, checksum, rest);
    let section = section_in(payload, 12).unwrap();
    assert(section[10] == section.skip(3)[7]);
    assert(section[11] == section.skip(3)[8]);
    assert(section.skip(3)[7] == body[7] && section.skip(3)[8] == body[8]);
    let at = 12 + info.len() as int;
    assert(section.skip(at) =~= section.skip(3).skip(9 + info.len() as int));
    assert(section.skip(at) =~= written_streams(streams) + (checksum + rest));
    lemma_first_audio(section, at, entries_end(section), streams, checksum + rest, first);
}

proof fn lemma_first_audio(
    section: Seq<u8>,
    index: int,
    end: int,
    streams: Seq<ListedStream>,
    rest: Seq<u8>,
    first: int,
)
    requires
        0 <= index <= section.len(),
        section.skip(index) == written_streams(streams) + rest,
        end == index + written_streams(streams).len(),
        written_streams(streams).len() < 4096,
        forall|i: int| 0 <= i < streams.len() ==> 0 <= (#[trigger] streams[i]).pid < 8192,
        0 <= first <= streams.len(),
        forall|i: int| 0 <= i < first ==> !is_listed_audio((#[trigger] streams[i]).kind),
        first < streams.len() ==> is_listed_audio(streams[first].kind),
    ensures
        first_audio(section, index, end) == (if first < streams.len() {
            Some(
                (
                    streams[first].pid,
                    if streams[first].kind == 15 {
                        AudioCodec::AdtsAac
                    } else {
                        AudioCodec::MpegAudio
                    },
                ),
            )
        } else {
            None
        }),
    decreases streams.len(),
{
    if streams.len() > 0 {
        let stream = streams[0];
        let others = streams.skip(1);
        let here = section.skip(index);
        assert(here.len() >= 5) by {
            assert(here.len() == written_streams(streams).len() + rest.len());
        }
        let high = (stream.pid / 256) as u8;
        let long = (stream.info.len() / 256) as u8;
        let reserved = stream.reserved;
        let more_reserved = stream.more_reserved;
        assert(((reserved & 0xE0) | high) & 0x1F == high && ((more_reserved & 0xF0) | long) & 0x0F
            == long) by (bit_vector)
            requires
                high < 32u8,
                long < 16u8,
        ;
        assert(section[index] == here[0] && section[index + 1] == here[1] && section[index + 2]
            == here[2] && section[index + 3] == here[3] && section[index + 4] == here[4]);
        assert(here[0] == stream.kind);
        assert(here[1] == (reserved & 0xE0) | high);
        assert(here[2] == (stream.pid % 256) as u8);
        assert(here[3] == (more_reserved & 0xF0) | long);
        assert(here[4] == (stream.info.len() % 256) as u8);
        if !is_listed_audio(stream.kind) {
            let step = 5 + stream.info.len() as int;
            assert(section.skip(index + step) =~= here.skip(step));
            assert(here.skip(step) =~= written_streams(others) + rest);
            assert forall|i: int| 0 <= i < others.len() implies 0 <= (#[trigger] others[i]).pid
                < 8192 by {
                assert(others[i] == streams[i + 1]);
            }
            assert forall|i: int| 0 <= i < first - 1 implies !is_listed_audio(
                (#[trigger] others[i]).kind,
            ) by {
                assert(others[i] == streams[i + 1]);
            }
            lemma_first_audio(section, index + step, end, others, rest, first - 1);
        }
    }
}

/// Only a PMT gives an audio stream: not a packet of another PID, not one that begins no section,
/// and not a section of another table.
pub proof fn law_only_a_pmt_gives_a_stream(packet: Packet, pmt_pid: int)
    requires
        packet.pid != pmt_pid || !packet.payload_start || packet.payload.len() == 0 || ({
            let at = 1 + packet.payload[0] as int;
            at + 12 > packet.payload.len() || packet.payload[at] != 0x02
        }),
    ensures
        audio_in(packet, pmt_pid) is None,
{
}

/// The payload of a packet that begins a PES packet: the start code, the stream, the length, two
/// bytes of flags, the length of the optional header, that header, and then the audio.
pub open spec fn written_pes(
    stream: u8,
    length: (u8, u8),
    flags: (u8, u8),
    header: Seq<u8>,
    audio: Seq<u8>,
) -> Seq<u8> {
    seq![
        0x00u8,
        0x00,
        0x01,
        stream,
        length.0,
        length.1,
        flags.0,
        flags.1,
        header.len() as u8,
    ] + header + audio
}

/// A packet that begins a PES packet adds its audio, all of it and nothing of the headers, however
/// long the optional one is.
pub proof fn law_a_pes_packet_adds_its_audio(
    pid: int,
    stream: u8,
    length: (u8, u8),
    flags: (u8, u8),
    header: Seq<u8>,
    audio: Seq<u8>,
)
    requires
        header.len() < 256,
    ensures
        audio_payload(
            Packet {
                pid,
                payload_start: true,
                payload: written_pes(stream, length, flags, header, audio),
            },
            pid,
        ) == audio,
{
    let payload = written_pes(stream, length, flags, header, audio);
    assert(payload[8] == header.len());
    if audio.len() > 0 {
        assert(payload.skip(9 + payload[8]) =~= audio);
    } else {
        assert(audio =~= Seq::empty());
    }
}

/// A packet that goes on with a PES packet adds its payload as it is; one of another PID, and one
/// that should begin a PES packet without its start code, add nothing.
pub proof fn law_other_packets_add_their_payload_or_nothing(packet: Packet, pid: int)
    ensures
        packet.pid == pid && !packet.payload_start ==> audio_payload(packet, pid) == packet.payload,
        packet.pid != pid ==> audio_payload(packet, pid).len() == 0,
        packet.payload_start && (packet.payload.len() < 9 || packet.payload[0] != 0
            || packet.payload[1] != 0 || packet.payload[2] != 1) ==> audio_payload(packet, pid).len()
            == 0,
        packet.payload_start && packet.payload.len() >= 9 && packet.payload.len() <= 9
            + packet.payload[8] ==> audio_payload(packet, pid).len() == 0,
{
}

/// Pieces of audio, one behind the other.
pub open spec fn joined(pieces: Seq<Seq<u8>>) -> Seq<u8>
    decreases pieces.len(),
{
    if pieces.len() == 0 {
        Seq::empty()
    } else {
        pieces[0] + joined(pieces.skip(1))
    }
}

/// A packet of a segment holds this piece of the audio of a PID: its whole payload, or what stands
/// behind the PES header where one begins in it, or nothing where it is of another PID.
pub open spec fn holds_audio(packet: WrittenPacket, pid: int, piece: Seq<u8>) -> bool {
    if packet.pid != pid {
        piece.len() == 0
    } else if !packet.payload_start {
        piece == packet.payload
    } else {
        exists|stream: u8, length: (u8, u8), flags: (u8, u8), header: Seq<u8>|
            header.len() < 256 && packet.payload == #[trigger] written_pes(
                stream,
                length,
                flags,
                header,
                piece,
            )
    }
}

/// Demuxing undoes multiplexing: of a segment of whole packets, of which the first that gives a
/// program leads to the first that gives an audio stream, the stream is all the pieces of its audio,
/// in order and one behind the other, with the codec that was listed for it.
pub proof fn law_demuxing_undoes_multiplexing(
    packets: Seq<WrittenPacket>,
    pat: int,
    pmt: int,
    pmt_pid: int,
    pid: int,
    codec: AudioCodec,
    pieces: Seq<Seq<u8>>,
)
    requires
        forall|i: int| 0 <= i < packets.len() ==> is_writable(#[trigger] packets[i]),
        0 <= pat < packets.len(),
        0 <= pmt < packets.len(),
        pmt_pid_in(carried(packets[pat])) == Some(pmt_pid),
        forall|i: int| 0 <= i < pat ==> pmt_pid_in(carried(#[trigger] packets[i])) is None,
        audio_in(carried(packets[pmt]), pmt_pid) == Some((pid, codec)),
        forall|i: int| 0 <= i < pmt ==> audio_in(carried(#[trigger] packets[i]), pmt_pid) is None,
        pieces.len() == packets.len(),
        forall|i: int| 0 <= i < packets.len() ==> holds_audio(#[trigger] packets[i], pid, pieces[i]),
    ensures
        demuxed(written_all(packets)) == (codec, joined(pieces)),
{
    law_written_packets_are_read_back(packets);
    let all = Seq::new(packets.len(), |i: int| carried(packets[i]));
    assert forall|i: int| 0 <= i < pat implies pmt_pid_in(#[trigger] all[i]) is None by {
        assert(all[i] == carried(packets[i]));
    }
    assert forall|i: int| 0 <= i < pmt implies audio_in(#[trigger] all[i], pmt_pid) is None by {
        assert(all[i] == carried(packets[i]));
    }
    lemma_first_pmt_pid(all, pat);
    lemma_first_audio_stream(all, pmt_pid, pmt);
    assert forall|i: int| 0 <= i < all.len() implies audio_payload(#[trigger] all[i], pid)
        == pieces[i] by {
        let packet = packets[i];
        assert(holds_audio(packet, pid, pieces[i]));
        if packet.pid != pid {
            assert(pieces[i] =~= Seq::empty());
        } else if packet.payload_start {
            let (stream, length, flags, header) = choose|
                stream: u8,
                length: (u8, u8),
                flags: (u8, u8),
                header: Seq<u8>,
            |
                header.len() < 256 && packet.payload == #[trigger] written_pes(
                    stream,
                    length,
                    flags,
                    header,
                    pieces[i],
                );
            law_a_pes_packet_adds_its_audio(pid, stream, length, flags, header, pieces[i]);
        }
    }
    lemma_joined(all, pid, pieces);
}

proof fn lemma_first_pmt_pid(packets: Seq<Packet>, at: int)
    requires
        0 <= at < packets.len(),
        pmt_pid_in(packets[at]) is Some,
        forall|i: int| 0 <= i < at ==> pmt_pid_in(#[trigger] packets[i]) is None,
    ensures
        pmt_pid_of(packets) == pmt_pid_in(packets[at]),
    decreases at,
{
    if at > 0 {
        let rest = packets.skip(1);
        assert forall|i: int| 0 <= i < at - 1 implies pmt_pid_in(#[trigger] rest[i]) is None by {
            assert(rest[i] == packets[i + 1]);
        }
        assert(rest[at - 1] == packets[at]);
        lemma_first_pmt_pid(rest, at - 1);
    }
}

proof fn lemma_first_audio_stream(packets: Seq<Packet>, pmt_pid: int, at: int)
    requires
        0 <= at < packets.len(),
        audio_in(packets[at], pmt_pid) is Some,
        forall|i: int| 0 <= i < at ==> audio_in(#[trigger] packets[i], pmt_pid) is None,
    ensures
        audio_of(packets, pmt_pid) == audio_in(packets[at], pmt_pid),
    decreases at,
{
    if at > 0 {
        let rest = packets.skip(1);
        assert forall|i: int| 0 <= i < at - 1 implies audio_in(#[trigger] rest[i], pmt_pid) is None by {
            assert(rest[i] == packets[i + 1]);
        }
        assert(rest[at - 1] == packets[at]);
        lemma_first_audio_stream(rest, pmt_pid, at - 1);
    }
}

proof fn lemma_joined(packets: Seq<Packet>, pid: int, pieces: Seq<Seq<u8>>)
    requires
        pieces.len() == packets.len(),
        forall|i: int| 0 <= i < packets.len() ==> audio_payload(#[trigger] packets[i], pid)
            == pieces[i],
    ensures
        stream_of(packets, pid) == joined(pieces),
    decreases packets.len(),
{
    if packets.len() > 0 {
        let rest = packets.skip(1);
        assert forall|i: int| 0 <= i < rest.len() implies audio_payload(#[trigger] rest[i], pid)
            == pieces.skip(1)[i] by {
            assert(rest[i] == packets[i + 1]);
        }
        assert(audio_payload(packets[0], pid) == pieces[0]);
        lemma_joined(rest, pid, pieces.skip(1));
    }
}

/// Nothing is found in a segment in which no packet gives a program, or none gives an audio stream of
/// the program.
pub proof fn law_nothing_is_found_without_the_tables(data: Seq<u8>, pmt_pid: int)
    requires
        ({
            let packets = packets_of(data);
            ||| forall|i: int| 0 <= i < packets.len() ==> pmt_pid_in(#[trigger] packets[i]) is None
            ||| pmt_pid_of(packets) == Some(pmt_pid) && forall|i: int|
                0 <= i < packets.len() ==> audio_in(#[trigger] packets[i], pmt_pid) is None
        }),
    ensures
        demuxed(data) == (AudioCodec::Unknown, Seq::<u8>::empty()),
{
    let packets = packets_of(data);
    if forall|i: int| 0 <= i < packets.len() ==> pmt_pid_in(#[trigger] packets[i]) is None {
        lemma_no_pmt_pid(packets);
    } else {
        lemma_no_audio(packets, pmt_pid);
    }
}

proof fn lemma_no_pmt_pid(packets: Seq<Packet>)
    requires
        forall|i: int| 0 <= i < packets.len() ==> pmt_pid_in(#[trigger] packets[i]) is None,
    ensures
        pmt_pid_of(packets) is None,
    decreases packets.len(),
{
    if packets.len() > 0 {
        let rest = packets.skip(1);
        assert forall|i: int| 0 <= i < rest.len() implies pmt_pid_in(#[trigger] rest[i]) is None by {
            assert(rest[i] == packets[i + 1]);
        }
        lemma_no_pmt_pid(rest);
    }
}

proof fn lemma_no_audio(packets: Seq<Packet>, pmt_pid: int)
    requires
        forall|i: int| 0 <= i < packets.len() ==> audio_in(#[trigger] packets[i], pmt_pid) is None,
    ensures
        audio_of(packets, pmt_pid) is None,
    decreases packets.len(),
{
    if packets.len() > 0 {
        let rest = packets.skip(1);
        assert forall|i: int| 0 <= i < rest.len() implies audio_in(#[trigger] rest[i], pmt_pid) is None by {
            assert(rest[i] == packets[i + 1]);
        }
        lemma_no_audio(rest, pmt_pid);
    }
}

/// The payload of a packet with the front of a section that goes on behind the packet.
pub open spec fn cut_off_section(
    passed: Seq<u8>,
    table: u8,
    syntax: u8,
    length: int,
    body: Seq<u8>,
) -> Seq<u8> {
    seq![passed.len() as u8] + passed + seq![
        table,
        (syntax & 0xF0) | (length / 256) as u8,
        (length % 256) as u8,
    ] + body
}

proof fn lemma_cut_off_section(
    passed: Seq<u8>,
    table: u8,
    syntax: u8,
    length: int,
    body: Seq<u8>,
    minimum: int,
)
    requires
        passed.len() < 256,
        body.len() + 4 <= length < 4096,
        0 <= minimum <= 3 + body.len(),
    ensures
        section_in(cut_off_section(passed, table, syntax, length, body), minimum) matches Some(
            section,
        ) && {
            &&& section[0] == table
            &&& section.skip(3) == body
            &&& entries_end(section) == 3 + body.len()
            &&& section.len() == 3 + body.len()
        },
{
    let high = (length / 256) as u8;
    assert(((syntax & 0xF0) | high) & 0x0F == high) by (bit_vector)
        requires
            high < 16u8,
    ;
    let payload = cut_off_section(passed, table, syntax, length, body);
    assert(payload[0] == passed.len());
    let section = payload.skip(1 + payload[0]);
    assert(section =~= seq![table, (syntax & 0xF0) | high, (length % 256) as u8] + body);
    assert(section.skip(3) =~= body);
}

/// A PAT that goes on behind its packet is read as far as it is there.
pub proof fn law_a_cut_off_pat_gives_what_is_there(
    passed: Seq<u8>,
    syntax: u8,
    length: int,
    fields: Seq<u8>,
    programs: Seq<Program>,
    first: int,
)
    requires
        passed.len() < 256,
        fields.len() == 5,
        fields.len() + 4 * programs.len() + 4 <= length < 4096,
        forall|i: int|
            0 <= i < programs.len() ==> 0 <= (#[trigger] programs[i]).number < 65536 && 0
                <= programs[i].pid < 8192,
        0 <= first < programs.len(),
        forall|i: int| 0 <= i < first ==> (#[trigger] programs[i]).number == 0,
        programs[first].number != 0,
    ensures
        pmt_pid_in(
            Packet {
                pid: 0,
                payload_start: true,
                payload: cut_off_section(
                    passed,
                    0x00,
                    syntax,
                    length,
                    fields + written_programs(programs),
                ),
            },
        ) == Some(programs[first].pid),
{
    let body = fields + written_programs(programs);
    lemma_programs_len(programs);
    lemma_cut_off_section(passed, 0x00, syntax, length, body, 8);
    let payload = cut_off_section(passed, 0x00, syntax, length, body);
    let section = section_in(payload, 8).unwrap();
    let nothing = Seq::<u8>::empty();
    assert(section.skip(8) =~= section.skip(3).skip(5));
    assert(section.skip(8) =~= written_programs(programs) + nothing);
    lemma_first_program(section, 8, entries_end(section), programs, nothing, first);
}

/// A PMT that goes on behind its packet is read as far as it is there.
pub proof fn law_a_cut_off_pmt_gives_what_is_there(
    pmt_pid: int,
    passed: Seq<u8>,
    syntax: u8,
    length: int,
    fields: Seq<u8>,
    reserved: u8,
    info: Seq<u8>,
    streams: Seq<ListedStream>,
    first: int,
)
    requires
        passed.len() < 256,
        fields.len() == 7,
        fields.len() + 2 + info.len() + written_streams(streams).len() + 4 <= length < 4096,
        forall|i: int| 0 <= i < streams.len() ==> 0 <= (#[trigger] streams[i]).pid < 8192,
        0 <= first < streams.len(),
        forall|i: int| 0 <= i < first ==> !is_listed_audio((#[trigger] streams[i]).kind),
        is_listed_audio(streams[first].kind),
    ensures
        audio_in(
            Packet {
                pid: pmt_pid,
                payload_start: true,
                payload: cut_off_section(
                    passed,
                    0x02,
                    syntax,
                    length,
                    fields + seq![
                        (reserved & 0xF0) | (info.len() / 256) as u8,
                        (info.len() % 256) as u8,
                    ] + info + written_streams(streams),
                ),
            },
            pmt_pid,
        ) == Some(
            (
                streams[first].pid,
                if streams[first].kind == 15 {
                    AudioCodec::AdtsAac
                } else {
                    AudioCodec::MpegAudio
                },
            ),
        ),
{
    let high = (info.len() / 256) as u8;
    assert(((reserved & 0xF0) | high) & 0x0F == high) by (bit_vector)
        requires
            high < 16u8,
    ;
    let body = fields + seq![(reserved & 0xF0) | high, (info.len() % 256) as u8] + info
        + written_streams(streams);
    lemma_cut_off_section(passed, 0x02, syntax, length, body, 12);
    let payload = cut_off_section(passed, 0x02, syntax, length, body);
    let section = section_in(payload, 12).unwrap();
    let nothing = Seq::<u8>::empty();
    assert(section[10] == section.skip(3)[7]);
    assert(section[11] == section.skip(3)[8]);
    let at = 12 + info.len() as int;
    assert(section.skip(at) =~= section.skip(3).skip(9 + info.len() as int));
    assert(section.skip(at) =~= written_streams(streams) + nothing);
    lemma_first_audio(section, at, entries_end(section), streams, nothing, first);
}

/// The entries of a section end four bytes before its end, where the CRC begins, but neither before
/// its first byte nor behind what is there.
pub proof fn law_entries_end_before_the_crc(section: Seq<u8>, length: u16)
    requires
        section.len() >= 3,
        length < 4096,
        section[1] as int % 16 == length as int / 256,
        section[2] as int == length as int % 256,
    ensures
        length == 0 ==> entries_end(section) == 0,
        1 <= length && length - 1 <= section.len() ==> entries_end(section) == length - 1,
        length - 1 > section.len() ==> entries_end(section) == section.len(),
{
    let high: u8 = section[1];
    assert(high & 0x0F == high % 16) by (bit_vector);
}

} // verus!
