//! Rewrites an ADTS AAC bitstream into the one shape that a decoder syncing on the
//! exact pair `0xFF 0xF1` can read: MPEG-4, no CRC.
//!
//! Two other valid variants are common. MPEG-2 frames (`0xFF 0xF9`) differ in the ID
//! bit alone. CRC-protected frames (`0xFF 0xF0`, `0xFF 0xF8`) have a 9-byte header
//! whose last two bytes are the checksum; without those two bytes, with the
//! `protection_absent` bit set and a frame length that is two less, the frame says
//! the same. The AAC payload is never touched.
//!
//! The rewriting walks the chain of frames, so that a pair of bytes inside a payload
//! is never taken for a header.

use vstd::prelude::*;
use vstd::slice::slice_subrange;

use crate::bytes::{append_slice, drop_front};

verus! {

/// The size of an ADTS header without a CRC.
pub const HEADER_SIZE: usize = 7;

/// ADTS frame lengths are 13 bits, so no frame can exceed this.
pub const MAX_FRAME_LEN: usize = 8191;

/// The stream begins with an ADTS syncword: 12 sync bits, layer 0.
pub open spec fn starts_in_sync(stream: Seq<u8>) -> bool {
    stream.len() >= 2 && stream[0] == 0xFF && stream[1] & 0xF6 == 0xF0
}

/// The 13-bit frame length that an ADTS header gives, header included.
pub open spec fn declared_length(header: Seq<u8>) -> int {
    (header[3] & 0x03) * 2048 + header[4] * 8 + (header[5] >> 5)
}

/// The header with its frame length field set to the low 13 bits of `length`.
pub open spec fn with_declared_length(header: Seq<u8>, length: int) -> Seq<u8> {
    header
        .update(3, (header[3] & 0xFC) | ((length / 2048) % 4) as u8)
        .update(4, ((length / 8) % 256) as u8)
        .update(5, (header[5] & 0x1F) | ((length % 8) * 32) as u8)
}

/// The header of a frame carries a CRC.
pub open spec fn has_crc(frame: Seq<u8>) -> bool {
    frame[1] & 0x01 == 0
}

/// The size of a frame's own header.
pub open spec fn header_size(frame: Seq<u8>) -> int {
    if has_crc(frame) { 9 } else { 7 }
}

/// A whole frame in the MPEG-4 form without a CRC. A frame too short to hold the CRC
/// that its header announces stays as it is.
pub open spec fn normalized_frame(frame: Seq<u8>) -> Seq<u8> {
    if frame.len() < header_size(frame) {
        frame
    } else {
        let flags = (frame[1] & 0xF7) | 0x01;
        let header = frame.take(7).update(1, flags);
        if has_crc(frame) {
            with_declared_length(header, frame.len() - 2) + frame.skip(9)
        } else {
            header + frame.skip(7)
        }
    }
}

/// How many leading bytes of a stream can begin no frame: those before a syncword,
/// and those of a syncword whose frame length is less than a header.
pub open spec fn junk_len(stream: Seq<u8>) -> nat
    decreases stream.len(),
{
    if stream.len() < 2 {
        0
    } else if !starts_in_sync(stream) || (stream.len() >= 7 && declared_length(stream) < 7) {
        1 + junk_len(stream.skip(1))
    } else {
        0
    }
}

/// The stream without the bytes that can begin no frame.
pub open spec fn after_junk(stream: Seq<u8>) -> Seq<u8> {
    stream.skip(junk_len(stream) as int)
}

/// The stream holds a whole frame behind the bytes that can begin none.
pub open spec fn has_frame(stream: Seq<u8>) -> bool {
    after_junk(stream).len() >= 7 && declared_length(after_junk(stream)) <= after_junk(stream).len()
}

/// The first whole frame of a stream.
pub open spec fn first_frame(stream: Seq<u8>) -> Seq<u8> {
    after_junk(stream).take(declared_length(after_junk(stream)))
}

/// What follows the first whole frame of a stream.
pub open spec fn after_first_frame(stream: Seq<u8>) -> Seq<u8> {
    after_junk(stream).skip(declared_length(after_junk(stream)))
}

/// What a stream becomes: its whole frames, one after the other, each normalized.
pub open spec fn normalized_stream(stream: Seq<u8>) -> Seq<u8>
    decreases stream.len(),
{
    if has_frame(stream) {
        proof {
            lemma_junk(stream);
        }
        normalized_frame(first_frame(stream)) + normalized_stream(after_first_frame(stream))
    } else {
        Seq::empty()
    }
}

/// What is left behind the junk begins with a usable header, or is too short to tell.
pub proof fn lemma_junk(stream: Seq<u8>)
    ensures
        junk_len(stream) <= stream.len(),
        after_junk(stream).len() >= 2 ==> starts_in_sync(after_junk(stream)),
        after_junk(stream).len() >= 7 ==> declared_length(after_junk(stream)) >= 7,
    decreases stream.len(),
{
    if stream.len() < 2 {
        assert(stream.skip(0) =~= stream);
    } else if !starts_in_sync(stream) || (stream.len() >= 7 && declared_length(stream) < 7) {
        let rest = stream.skip(1);
        lemma_junk(rest);
        assert(rest.skip(junk_len(rest) as int) =~= stream.skip(junk_len(stream) as int));
    } else {
        assert(stream.skip(0) =~= stream);
    }
}

/// Behind the junk there is no more junk.
proof fn lemma_junk_gone(stream: Seq<u8>)
    ensures
        junk_len(after_junk(stream)) == 0,
{
    lemma_junk(stream);
}

/// Bytes that follow do not turn junk into anything else.
proof fn lemma_junk_with_more(stream: Seq<u8>, more: Seq<u8>)
    ensures
        junk_len(stream) <= stream.len(),
        junk_len(stream + more) == junk_len(stream) + junk_len(after_junk(stream) + more),
        after_junk(stream + more) == after_junk(after_junk(stream) + more),
    decreases stream.len(),
{
    lemma_junk(stream);
    lemma_junk(stream + more);
    lemma_junk(after_junk(stream) + more);
    if stream.len() >= 2 && (!starts_in_sync(stream) || (stream.len() >= 7 && declared_length(
        stream,
    ) < 7)) {
        let rest = stream.skip(1);
        lemma_junk_with_more(rest, more);
        assert((stream + more).skip(1) =~= rest + more);
        assert(after_junk(rest) =~= after_junk(stream));
    } else {
        assert(after_junk(stream) =~= stream);
    }
    assert(after_junk(stream + more) =~= after_junk(after_junk(stream) + more));
}

/// Dropping the junk of what has been received so far changes nothing.
proof fn lemma_drop_junk(stream: Seq<u8>, more: Seq<u8>)
    ensures
        normalized_stream(stream + more) == normalized_stream(after_junk(stream) + more),
{
    lemma_junk_with_more(stream, more);
    lemma_junk(stream + more);
    lemma_junk(after_junk(stream) + more);
}

/// A whole frame is taken off the front, whatever bytes follow.
proof fn lemma_take_frame(stream: Seq<u8>, more: Seq<u8>)
    requires
        has_frame(stream),
    ensures
        normalized_stream(stream + more) == normalized_frame(first_frame(stream))
            + normalized_stream(after_first_frame(stream) + more),
{
    let clean = after_junk(stream);
    lemma_junk(stream);
    lemma_junk_gone(stream);
    lemma_drop_junk(stream, more);
    assert(clean + more == after_junk(clean + more)) by {
        assert(junk_len(clean + more) == 0);
        assert((clean + more).skip(0) =~= clean + more);
    }
    let length = declared_length(clean);
    assert(declared_length(clean + more) == length);
    assert((clean + more).take(length) =~= clean.take(length));
    assert((clean + more).skip(length) =~= clean.skip(length) + more);
    assert(has_frame(clean + more));
}

/// True if `bytes` starts with any ADTS syncword (12 sync bits, layer 0).
pub fn is_sync(bytes: &[u8]) -> (sync: bool)
    ensures
        sync == starts_in_sync(bytes@),
{
    bytes.len() >= 2 && bytes[0] == 0xFF && bytes[1] & 0xF6 == 0xF0
}

/// The frame length that a header gives.
pub fn frame_length(header: &[u8]) -> (length: usize)
    requires
        header@.len() >= 6,
    ensures
        length == declared_length(header@),
        length <= MAX_FRAME_LEN,
{
    let high: u8 = header[3] & 0x03;
    let low: u8 = header[5] >> 5;
    let b3: u8 = header[3];
    let b5: u8 = header[5];
    assert(b3 & 0x03 <= 3) by (bit_vector);
    assert(b5 >> 5 <= 7) by (bit_vector);
    (high as usize) * 2048 + (header[4] as usize) * 8 + low as usize
}

/// Writes a frame length into a header.
pub fn set_frame_length(header: &mut Vec<u8>, length: usize)
    requires
        old(header)@.len() >= 6,
    ensures
        final(header)@ == with_declared_length(old(header)@, length as int),
{
    let high: u8 = ((length / 2048) % 4) as u8;
    let middle: u8 = ((length / 8) % 256) as u8;
    let low: u8 = ((length % 8) * 32) as u8;
    let b3: u8 = (header[3] & 0xFC) | high;
    let b5: u8 = (header[5] & 0x1F) | low;
    header[3] = b3;
    header[4] = middle;
    header[5] = b5;
}

/// Appends the normalized form of one whole frame.
pub fn normalize_frame(frame: &[u8], out: &mut Vec<u8>)
    requires
        frame@.len() >= HEADER_SIZE,
    ensures
        final(out)@ == old(out)@ + normalized_frame(frame@),
{
    let crc_present: bool = frame[1] & 0x01 == 0;
    let own_header: usize = if crc_present { HEADER_SIZE + 2 } else { HEADER_SIZE };
    if frame.len() < own_header {
        // The CRC is not all there: there is nothing to strip.
        append_slice(out, frame);
        return;
    }
    let mut header: Vec<u8> = Vec::with_capacity(HEADER_SIZE);
    append_slice(&mut header, slice_subrange(frame, 0, HEADER_SIZE));
    assert(header@ =~= frame@.take(7));
    // MPEG-2 becomes MPEG-4, and protection_absent is set.
    let flags: u8 = (header[1] & 0xF7) | 0x01;
    header[1] = flags;
    if crc_present {
        set_frame_length(&mut header, frame.len() - 2);
    }
    append_slice(out, header.as_slice());
    append_slice(out, slice_subrange(frame, own_header, frame.len()));
    assert(out@ =~= old(out)@ + normalized_frame(frame@));
}

/// What a step of the normalizer came to.
#[derive(Clone, Copy, Debug, PartialEq, Eq, Structural)]
pub enum FrameStep {
    /// A normalized frame is ready.
    Frame,
    /// More input is needed before anything can be said.
    NeedMore,
    /// The input has ended, and holds no further whole frame.
    End,
}

/// What a read from the normalizer gave.
pub enum ReadStep {
    /// These bytes come next.
    Bytes(Vec<u8>),
    /// More input is needed first.
    NeedMore,
    /// The stream is at its end.
    End,
}

/// What a read from the normalizer gave, as a value.
pub enum ReadView {
    Bytes(Seq<u8>),
    NeedMore,
    End,
}

impl View for ReadStep {
    type V = ReadView;

    open spec fn view(&self) -> ReadView {
        match *self {
            ReadStep::Bytes(bytes) => ReadView::Bytes(bytes@),
            ReadStep::NeedMore => ReadView::NeedMore,
            ReadStep::End => ReadView::End,
        }
    }
}

/// The state of a normalizer.
pub struct NormalizerView {
    /// What was received and not yet turned into a frame.
    pub received: Seq<u8>,
    /// What is ready to be handed out.
    pub available: Seq<u8>,
    /// The input has ended.
    pub ended: bool,
}

/// A normalizer that has received nothing.
pub open spec fn empty_normalizer() -> NormalizerView {
    NormalizerView { received: Seq::empty(), available: Seq::empty(), ended: false }
}

/// All that is still to come out of a normalizer if `more` is received before the end.
pub open spec fn output_of(normalizer: NormalizerView, more: Seq<u8>) -> Seq<u8> {
    normalizer.available + normalized_stream(normalizer.received + more)
}

/// A normalizer after the bytes that one read of the source gave. None at all means that the
/// source is at its end.
pub open spec fn after_fill(normalizer: NormalizerView, chunk: Seq<u8>) -> NormalizerView {
    NormalizerView {
        received: normalizer.received + chunk,
        ended: normalizer.ended || chunk.len() == 0,
        ..normalizer
    }
}

/// What a read hands out of: what is ready, or else the next frame.
pub open spec fn at_hand(normalizer: NormalizerView) -> Seq<u8> {
    if normalizer.available.len() > 0 {
        normalizer.available
    } else {
        normalized_frame(first_frame(normalizer.received))
    }
}

/// How many bytes a read hands out.
pub open spec fn read_count(normalizer: NormalizerView, limit: nat) -> int {
    if limit < at_hand(normalizer).len() {
        limit as int
    } else {
        at_hand(normalizer).len() as int
    }
}

/// What a read of at most `limit` bytes gives.
pub open spec fn read_given(normalizer: NormalizerView, limit: nat) -> ReadView {
    if limit == 0 {
        ReadView::Bytes(Seq::empty())
    } else if normalizer.available.len() > 0 || has_frame(normalizer.received) {
        ReadView::Bytes(at_hand(normalizer).take(read_count(normalizer, limit)))
    } else if normalizer.ended {
        ReadView::End
    } else {
        ReadView::NeedMore
    }
}

/// A normalizer after a read of at most `limit` bytes.
pub open spec fn after_read(normalizer: NormalizerView, limit: nat) -> NormalizerView {
    if limit == 0 {
        normalizer
    } else if normalizer.available.len() > 0 || has_frame(normalizer.received) {
        NormalizerView {
            available: at_hand(normalizer).skip(read_count(normalizer, limit)),
            received: if normalizer.available.len() > 0 {
                normalizer.received
            } else {
                after_first_frame(normalizer.received)
            },
            ..normalizer
        }
    } else {
        NormalizerView { received: after_junk(normalizer.received), ..normalizer }
    }
}

/// Turns a stream that arrives in pieces into its normalized form.
pub struct AdtsNormalizer {
    /// Bytes received but not yet consumed as a whole frame.
    pending: Vec<u8>,
    /// The normalized frame that is being handed out.
    ready: Vec<u8>,
    ready_position: usize,
    eof: bool,
}

impl View for AdtsNormalizer {
    type V = NormalizerView;

    closed spec fn view(&self) -> NormalizerView {
        NormalizerView {
            received: self.pending@,
            available: self.ready@.skip(self.ready_position as int),
            ended: self.eof,
        }
    }
}

impl AdtsNormalizer {
    /// The position within the ready frame is inside it.
    pub closed spec fn wf(self) -> bool {
        self.ready_position <= self.ready@.len()
    }

    /// What was received and not yet turned into a frame.
    pub open spec fn received(self) -> Seq<u8> {
        self@.received
    }

    /// What is ready to be handed out.
    pub open spec fn available(self) -> Seq<u8> {
        self@.available
    }

    /// The input has ended.
    pub open spec fn ended(self) -> bool {
        self@.ended
    }

    /// All that is still to come out if `more` is received before the end.
    pub open spec fn output(self, more: Seq<u8>) -> Seq<u8> {
        output_of(self@, more)
    }

    /// A normalizer that has received nothing.
    pub fn new() -> (normalizer: AdtsNormalizer)
        ensures
            normalizer.wf(),
            normalizer@ == empty_normalizer(),
    {
        let normalizer = AdtsNormalizer {
            pending: Vec::new(),
            ready: Vec::new(),
            ready_position: 0,
            eof: false,
        };
        assert(normalizer.available() =~= Seq::empty());
        normalizer
    }

    /// Takes in the bytes that one read of the source gave. None at all means that the
    /// source is at its end.
    pub fn fill(&mut self, chunk: &[u8])
        requires
            old(self).wf(),
        ensures
            final(self).wf(),
            final(self)@ == after_fill(old(self)@, chunk@),
            forall|more: Seq<u8>| #[trigger] final(self).output(more) == old(self).output(chunk@ + more),
    {
        append_slice(&mut self.pending, chunk);
        if chunk.len() == 0 {
            self.eof = true;
        }
        assert forall|more: Seq<u8>| #[trigger] self.output(more) == old(self).output(chunk@ + more) by {
            assert(self.received() + more =~= old(self).received() + (chunk@ + more));
        }
    }

    /// Drops the bytes that can begin no frame.
    fn resync(&mut self)
        requires
            old(self).wf(),
        ensures
            final(self).wf(),
            final(self).received() == after_junk(old(self).received()),
            final(self).available() == old(self).available(),
            final(self).ended() == old(self).ended(),
    {
        let mut junk: usize = 0;
        let length: usize = self.pending.len();
        assert(self.pending@.skip(0) =~= self.pending@);
        while length - junk >= 2
            invariant_except_break
                junk <= length,
                length == self.pending@.len(),
                self.pending@ == old(self).pending@,
                junk_len(self.pending@) == junk + junk_len(self.pending@.skip(junk as int)),
            ensures
                junk <= length,
                length == self.pending@.len(),
                self.pending@ == old(self).pending@,
                junk_len(self.pending@) == junk,
            decreases length - junk,
        {
            let rest: &[u8] = slice_subrange(self.pending.as_slice(), junk, length);
            assert(rest@ =~= self.pending@.skip(junk as int));
            if is_sync(rest) && !(rest.len() >= HEADER_SIZE && frame_length(rest) < HEADER_SIZE) {
                break;
            }
            assert(rest@.skip(1) =~= self.pending@.skip(junk + 1));
            junk += 1;
        }
        drop_front(&mut self.pending, junk);
    }

    /// Makes the next normalized frame ready.
    pub fn next_frame(&mut self) -> (step: FrameStep)
        requires
            old(self).wf(),
        ensures
            final(self).wf(),
            final(self).ended() == old(self).ended(),
            step == (if has_frame(old(self).received()) {
                FrameStep::Frame
            } else if old(self).ended() {
                FrameStep::End
            } else {
                FrameStep::NeedMore
            }),
            step == FrameStep::Frame ==> {
                &&& final(self).available() == normalized_frame(first_frame(old(self).received()))
                &&& final(self).received() == after_first_frame(old(self).received())
            },
            step != FrameStep::Frame ==> {
                &&& final(self).available() == old(self).available()
                &&& final(self).received() == after_junk(old(self).received())
            },
    {
        self.resync();
        proof {
            lemma_junk(old(self).pending@);
        }
        if self.pending.len() < HEADER_SIZE {
            return if self.eof { FrameStep::End } else { FrameStep::NeedMore };
        }
        let length: usize = frame_length(self.pending.as_slice());
        if self.pending.len() < length {
            return if self.eof { FrameStep::End } else { FrameStep::NeedMore };
        }
        let mut frame: Vec<u8> = Vec::new();
        normalize_frame(slice_subrange(self.pending.as_slice(), 0, length), &mut frame);
        self.ready = frame;
        self.ready_position = 0;
        assert(self.ready@.skip(0) =~= self.ready@);
        assert(after_junk(old(self).pending@).subrange(0, length as int) =~= first_frame(
            old(self).pending@,
        ));
        drop_front(&mut self.pending, length);
        FrameStep::Frame
    }

    /// Takes what one read of the source came to. An error is handed back as it is, and costs
    /// nothing of what has been received.
    pub fn feed<E>(&mut self, got: Result<&[u8], E>) -> (fed: Result<(), E>)
        requires
            old(self).wf(),
        ensures
            final(self).wf(),
            match got {
                Ok(chunk) => fed == Ok::<(), E>(()) && final(self)@ == after_fill(
                    old(self)@,
                    chunk@,
                ),
                Err(error) => fed == Err::<(), E>(error) && final(self)@ == old(self)@,
            },
    {
        match got {
            Ok(chunk) => {
                self.fill(chunk);
                Ok(())
            },
            Err(error) => Err(error),
        }
    }

    /// Hands out at most `limit` bytes of the normalized stream.
    pub fn read(&mut self, limit: usize) -> (step: ReadStep)
        requires
            old(self).wf(),
        ensures
            final(self).wf(),
            step@ == read_given(old(self)@, limit as nat),
            final(self)@ == after_read(old(self)@, limit as nat),
            limit > 0 ==> (step matches ReadStep::Bytes(given) ==> given@.len() > 0),
            forall|more: Seq<u8>| #[trigger]
                old(self).output(more) == (match step {
                    ReadStep::Bytes(given) => given@ + final(self).output(more),
                    _ => final(self).output(more),
                }),
            step is End ==> old(self).output(Seq::empty()) == Seq::<u8>::empty(),
    {
        proof {
            lemma_read(self@, limit as nat);
        }
        if limit == 0 {
            let none: Vec<u8> = Vec::new();
            assert(none@ =~= Seq::empty());
            return ReadStep::Bytes(none);
        }
        let ghost before = *self;
        if self.ready_position >= self.ready.len() {
            assert(before.available() =~= Seq::empty());
            match self.next_frame() {
                FrameStep::Frame => {},
                FrameStep::NeedMore => {
                    return ReadStep::NeedMore;
                },
                FrameStep::End => {
                    return ReadStep::End;
                },
            }
        }
        let ghost middle = *self;
        let left: usize = self.ready.len() - self.ready_position;
        let count: usize = if limit < left { limit } else { left };
        let mut given: Vec<u8> = Vec::with_capacity(count);
        append_slice(
            &mut given,
            slice_subrange(self.ready.as_slice(), self.ready_position, self.ready_position + count),
        );
        self.ready_position = self.ready_position + count;
        assert(middle.available() == at_hand(before@));
        assert(given@ =~= middle.available().take(count as int));
        assert(self.available() =~= middle.available().skip(count as int));
        ReadStep::Bytes(given)
    }
}

/// A read loses nothing and makes nothing up: what it hands out and what is still to come out are
/// together what was still to come out before. It hands out something wherever it can.
proof fn lemma_read(normalizer: NormalizerView, limit: nat)
    ensures
        forall|more: Seq<u8>| #[trigger]
            output_of(normalizer, more) == (match read_given(normalizer, limit) {
                ReadView::Bytes(given) => given + output_of(after_read(normalizer, limit), more),
                _ => output_of(after_read(normalizer, limit), more),
            }),
        limit > 0 ==> (read_given(normalizer, limit) matches ReadView::Bytes(given) ==> given.len()
            > 0),
        read_given(normalizer, limit) is End ==> output_of(normalizer, Seq::empty()) == Seq::<
            u8,
        >::empty(),
{
    let after = after_read(normalizer, limit);
    lemma_junk(normalizer.received);
    if normalizer.available.len() == 0 && has_frame(normalizer.received) {
        lemma_normalized_frame_len(first_frame(normalizer.received));
    }
    assert forall|more: Seq<u8>| #[trigger]
        output_of(normalizer, more) == (match read_given(normalizer, limit) {
            ReadView::Bytes(given) => given + output_of(after, more),
            _ => output_of(after, more),
        }) by {
        if limit == 0 {
            assert(Seq::<u8>::empty() + output_of(after, more) =~= output_of(after, more));
        } else if normalizer.available.len() > 0 {
            let count = read_count(normalizer, limit);
            assert(normalizer.available.take(count) + output_of(after, more) =~= output_of(
                normalizer,
                more,
            ));
        } else if has_frame(normalizer.received) {
            lemma_take_frame(normalizer.received, more);
            let count = read_count(normalizer, limit);
            assert(at_hand(normalizer).take(count) + output_of(after, more) =~= at_hand(normalizer)
                + normalized_stream(after.received + more));
            assert(output_of(normalizer, more) =~= at_hand(normalizer) + normalized_stream(
                after.received + more,
            ));
        } else {
            lemma_drop_junk(normalizer.received, more);
        }
    }
    if read_given(normalizer, limit) is End {
        assert(normalizer.received + Seq::<u8>::empty() =~= normalizer.received);
        assert(output_of(normalizer, Seq::empty()) =~= Seq::empty());
    }
}

/// A normalized frame is two bytes shorter where a CRC was stripped, and never longer.
proof fn lemma_normalized_frame_len(frame: Seq<u8>)
    requires
        frame.len() >= 7,
    ensures
        normalized_frame(frame).len() == (if has_crc(frame) && frame.len() >= 9 {
            frame.len() - 2
        } else {
            frame.len() as int
        }),
        normalized_frame(frame).len() >= 7,
{
}

/// Normalizes a stream that is already all there.
pub fn normalize_buffer(data: &[u8]) -> (out: Vec<u8>)
    ensures
        out@ == normalized_stream(data@),
{
    let mut normalizer: AdtsNormalizer = AdtsNormalizer::new();
    normalizer.fill(data);
    normalizer.fill(slice_subrange(data, 0, 0));
    let mut out: Vec<u8> = Vec::with_capacity(data.len());
    assert(normalizer.received() =~= data@);
    assert(out@ + normalized_stream(data@) =~= normalized_stream(data@));
    loop
        invariant_except_break
            normalizer.wf(),
            normalizer.ended(),
            out@ + normalized_stream(normalizer.received()) == normalized_stream(data@),
        ensures
            out@ == normalized_stream(data@),
        decreases normalizer.received().len(),
    {
        let ghost before = normalizer;
        let step: FrameStep = normalizer.next_frame();
        if step != FrameStep::Frame {
            assert(out@ + Seq::<u8>::empty() =~= out@);
            break;
        }
        proof {
            lemma_junk(before.received());
        }
        let ghost written = out@;
        let frame: &[u8] = slice_subrange(
            normalizer.ready.as_slice(),
            normalizer.ready_position,
            normalizer.ready.len(),
        );
        append_slice(&mut out, frame);
        assert(frame@ =~= normalizer.available());
        assert(out@ + normalized_stream(normalizer.received()) =~= written + normalized_stream(
            before.received(),
        ));
    }
    out
}

/// A header gives back the frame length that was written into it, and the bits beside
/// the length field keep their values.
pub proof fn law_frame_length_reads_back(header: Seq<u8>, length: int)
    requires
        header.len() >= 6,
        0 <= length <= MAX_FRAME_LEN,
    ensures
        declared_length(with_declared_length(header, length)) == length,
        with_declared_length(header, length)[3] & 0xFC == header[3] & 0xFC,
        with_declared_length(header, length)[5] & 0x1F == header[5] & 0x1F,
        forall|i: int|
            0 <= i < header.len() && i != 3 && i != 4 && i != 5 ==> #[trigger] with_declared_length(
                header,
                length,
            )[i] == header[i],
{
    let high = ((length / 2048) % 4) as u8;
    let b3 = header[3];
    let low = (length % 8) as u8;
    let b5 = header[5];
    assert(((b3 & 0xFC) | high) & 0x03 == high && ((b3 & 0xFC) | high) & 0xFC == b3 & 0xFC)
        by (bit_vector)
        requires
            high < 4u8,
    ;
    assert(((b5 & 0x1F) | ((low * 32) as u8)) >> 5 == low && ((b5 & 0x1F) | ((low * 32) as u8)) & 0x1F
        == b5 & 0x1F) by (bit_vector)
        requires
            low < 8u8,
    ;
}

/// A normalized frame begins with the pair `0xFF 0xF1`, says its own length, and has the
/// payload of the frame that it was made from.
pub proof fn law_normalized_frame_is_readable(frame: Seq<u8>)
    requires
        starts_in_sync(frame),
        header_size(frame) <= frame.len() <= MAX_FRAME_LEN,
        declared_length(frame) == frame.len(),
    ensures
        normalized_frame(frame)[0] == 0xFF,
        normalized_frame(frame)[1] == 0xF1,
        declared_length(normalized_frame(frame)) == normalized_frame(frame).len(),
        normalized_frame(frame).skip(7) == frame.skip(header_size(frame)),
{
    let b1 = frame[1];
    assert((b1 & 0xF7) | 0x01 == 0xF1) by (bit_vector)
        requires
            b1 & 0xF6 == 0xF0u8,
    ;
    let header = frame.take(7).update(1, ((b1 & 0xF7) | 0x01) as u8);
    law_frame_length_reads_back(header, frame.len() - 2);
    assert(normalized_frame(frame).skip(7) =~= frame.skip(header_size(frame)));
}

/// A frame that is already MPEG-4 without a CRC passes unchanged.
pub proof fn law_mpeg4_frame_is_unchanged(frame: Seq<u8>)
    requires
        frame.len() >= 7,
        frame[1] == 0xF1,
    ensures
        normalized_frame(frame) == frame,
{
    assert(0xF1u8 & 0x01 == 1 && (0xF1u8 & 0xF7) | 0x01 == 0xF1) by (bit_vector);
    assert(normalized_frame(frame) =~= frame);
}

/// A whole frame at the front is taken as one frame, whatever its payload holds: the rest
/// of the stream begins right behind it.
pub proof fn law_frames_are_chained(frame: Seq<u8>, rest: Seq<u8>)
    requires
        frame.len() >= 7,
        starts_in_sync(frame),
        declared_length(frame) == frame.len(),
    ensures
        normalized_stream(frame + rest) == normalized_frame(frame) + normalized_stream(rest),
{
    assert(junk_len(frame) == 0);
    assert(after_junk(frame) =~= frame);
    assert(first_frame(frame) =~= frame);
    lemma_take_frame(frame, rest);
    assert(after_first_frame(frame) + rest =~= rest);
}

/// Normalizing adds no byte.
pub proof fn law_normalized_stream_is_not_longer(stream: Seq<u8>)
    ensures
        normalized_stream(stream).len() <= stream.len(),
    decreases stream.len(),
{
    lemma_junk(stream);
    if has_frame(stream) {
        lemma_normalized_frame_len(first_frame(stream));
        law_normalized_stream_is_not_longer(after_first_frame(stream));
    }
}

/// What a whole frame becomes is found as a whole frame again, and stays what it is.
proof fn lemma_normalized_frame_again(frame: Seq<u8>)
    requires
        starts_in_sync(frame),
        7 <= frame.len() <= MAX_FRAME_LEN,
        declared_length(frame) == frame.len(),
    ensures
        starts_in_sync(normalized_frame(frame)),
        declared_length(normalized_frame(frame)) == normalized_frame(frame).len(),
        normalized_frame(normalized_frame(frame)) == normalized_frame(frame),
{
    if frame.len() >= header_size(frame) {
        law_normalized_frame_is_readable(frame);
        lemma_normalized_frame_len(frame);
        assert(0xF1u8 & 0xF6 == 0xF0) by (bit_vector);
        law_mpeg4_frame_is_unchanged(normalized_frame(frame));
    }
}

/// A normalized stream is its own normalized form.
pub proof fn law_normalizing_twice_is_normalizing_once(stream: Seq<u8>)
    ensures
        normalized_stream(normalized_stream(stream)) == normalized_stream(stream),
    decreases stream.len(),
{
    lemma_junk(stream);
    if has_frame(stream) {
        let frame = first_frame(stream);
        let rest = after_first_frame(stream);
        let done = normalized_frame(frame);
        lemma_declared_length_bound(after_junk(stream));
        lemma_normalized_frame_again(frame);
        lemma_normalized_frame_len(frame);
        assert(junk_len(done) == 0);
        assert(after_junk(done) =~= done);
        assert(first_frame(done) =~= done);
        assert(after_first_frame(done) =~= Seq::empty());
        lemma_take_frame(done, normalized_stream(rest));
        law_normalizing_twice_is_normalizing_once(rest);
        assert(Seq::<u8>::empty() + normalized_stream(rest) =~= normalized_stream(rest));
    } else {
        let none = Seq::<u8>::empty();
        lemma_junk(none);
        assert(normalized_stream(none) =~= none);
    }
}

/// The frame length field has 13 bits.
proof fn lemma_declared_length_bound(header: Seq<u8>)
    ensures
        0 <= declared_length(header) <= MAX_FRAME_LEN,
{
    let b3 = header[3];
    let b5 = header[5];
    assert(b3 & 0x03 <= 3) by (bit_vector);
    assert(b5 >> 5 <= 7) by (bit_vector);
}

/// The whole frames of a stream, each normalized.
pub open spec fn normalized_frames(stream: Seq<u8>) -> Seq<Seq<u8>>
    decreases stream.len(),
{
    if has_frame(stream) {
        proof {
            lemma_junk(stream);
        }
        seq![normalized_frame(first_frame(stream))] + normalized_frames(after_first_frame(stream))
    } else {
        Seq::empty()
    }
}

/// Frames, one behind the other.
pub open spec fn joined(frames: Seq<Seq<u8>>) -> Seq<u8>
    decreases frames.len(),
{
    if frames.len() == 0 {
        Seq::empty()
    } else {
        frames[0] + joined(frames.skip(1))
    }
}

/// A frame that a decoder can read and step over: it begins with the pair `0xFF 0xF1`, holds its
/// header, and says its own length.
pub open spec fn is_readable(frame: Seq<u8>) -> bool {
    frame.len() >= 7 && frame[0] == 0xFF && frame[1] == 0xF1 && declared_length(frame)
        == frame.len()
}

/// A frame that says its own length, which leaves no room for the CRC that its header announces.
pub open spec fn is_stunted(frame: Seq<u8>) -> bool {
    7 <= frame.len() < 9 && starts_in_sync(frame) && has_crc(frame) && declared_length(frame)
        == frame.len()
}

/// All that comes out splits into frames, one behind the other with nothing between them: each is
/// readable, unless it is one of those that are too short for their own CRC and pass unchanged.
pub proof fn law_the_output_splits_into_readable_frames(stream: Seq<u8>)
    ensures
        normalized_stream(stream) == joined(normalized_frames(stream)),
        forall|i: int|
            0 <= i < normalized_frames(stream).len() ==> is_readable(
                #[trigger] normalized_frames(stream)[i],
            ) || is_stunted(normalized_frames(stream)[i]),
    decreases stream.len(),
{
    lemma_junk(stream);
    if has_frame(stream) {
        let frame = first_frame(stream);
        let rest = after_first_frame(stream);
        let frames = normalized_frames(stream);
        law_the_output_splits_into_readable_frames(rest);
        lemma_declared_length_bound(after_junk(stream));
        assert(frames[0] == normalized_frame(frame));
        assert(frames.skip(1) =~= normalized_frames(rest));
        if frame.len() >= header_size(frame) {
            law_normalized_frame_is_readable(frame);
            lemma_normalized_frame_len(frame);
        }
        assert forall|i: int| 0 <= i < frames.len() implies is_readable(#[trigger] frames[i])
            || is_stunted(frames[i]) by {
            if i > 0 {
                assert(frames[i] == normalized_frames(rest)[i - 1]);
            }
        }
    }
}

/// What happens to a normalizer between the source and the reader.
pub enum NormalizerOperation<E> {
    /// The source was read, or could not be.
    Got(Result<Seq<u8>, E>),
    /// The normalized stream was read, up to so many bytes.
    Read(nat),
}

/// A normalizer after an operation. A source that could not be read changes nothing.
pub open spec fn after_operation<E>(
    normalizer: NormalizerView,
    operation: NormalizerOperation<E>,
) -> NormalizerView {
    match operation {
        NormalizerOperation::Got(Ok(chunk)) => after_fill(normalizer, chunk),
        NormalizerOperation::Got(Err(_)) => normalizer,
        NormalizerOperation::Read(limit) => after_read(normalizer, limit),
    }
}

/// A new normalizer after some operations, in order.
pub open spec fn after_operations<E>(operations: Seq<NormalizerOperation<E>>) -> NormalizerView
    decreases operations.len(),
{
    if operations.len() == 0 {
        empty_normalizer()
    } else {
        after_operation(after_operations(operations.drop_last()), operations.last())
    }
}

/// The bytes that the source gave in some operations, in order.
pub open spec fn data_of<E>(operations: Seq<NormalizerOperation<E>>) -> Seq<u8>
    decreases operations.len(),
{
    if operations.len() == 0 {
        Seq::empty()
    } else {
        let earlier = data_of(operations.drop_last());
        match operations.last() {
            NormalizerOperation::Got(Ok(chunk)) => earlier + chunk,
            _ => earlier,
        }
    }
}

/// The bytes that the reads among some operations handed out, in order.
pub open spec fn given_in<E>(operations: Seq<NormalizerOperation<E>>) -> Seq<u8>
    decreases operations.len(),
{
    if operations.len() == 0 {
        Seq::empty()
    } else {
        let before = after_operations(operations.drop_last());
        let earlier = given_in(operations.drop_last());
        match operations.last() {
            NormalizerOperation::Read(limit) => match read_given(before, limit) {
                ReadView::Bytes(given) => earlier + given,
                _ => earlier,
            },
            _ => earlier,
        }
    }
}

/// The operations without the failed reads of the source.
pub open spec fn without_failures<E>(operations: Seq<NormalizerOperation<E>>) -> Seq<
    NormalizerOperation<E>,
>
    decreases operations.len(),
{
    if operations.len() == 0 {
        Seq::empty()
    } else {
        let earlier = without_failures(operations.drop_last());
        match operations.last() {
            NormalizerOperation::Got(Err(_)) => earlier,
            other => earlier.push(other),
        }
    }
}

/// However the source is read, fails and is read again, and however the normalized stream is read
/// in between: what has been handed out and what is still to come out are together the normalized
/// form of the data. Once a read finds the end, all of that form has been handed out.
pub proof fn law_no_schedule_loses_a_byte<E>(operations: Seq<NormalizerOperation<E>>, limit: nat)
    ensures
        forall|more: Seq<u8>|
            given_in(operations) + #[trigger] output_of(after_operations(operations), more)
                == normalized_stream(data_of(operations) + more),
        read_given(after_operations(operations), limit) is End ==> given_in(operations)
            == normalized_stream(data_of(operations)),
    decreases operations.len(),
{
    let now = after_operations(operations);
    if operations.len() == 0 {
        assert forall|more: Seq<u8>|
            given_in(operations) + #[trigger] output_of(now, more) == normalized_stream(
                data_of(operations) + more,
            ) by {
            assert(Seq::<u8>::empty() + more =~= more);
            assert(given_in(operations) + output_of(now, more) =~= normalized_stream(more));
        }
    } else {
        let earlier = operations.drop_last();
        let before = after_operations(earlier);
        law_no_schedule_loses_a_byte(earlier, limit);
        assert forall|more: Seq<u8>|
            given_in(operations) + #[trigger] output_of(now, more) == normalized_stream(
                data_of(operations) + more,
            ) by {
            match operations.last() {
                NormalizerOperation::Got(Ok(chunk)) => {
                    let all = chunk + more;
                    assert(given_in(earlier) + output_of(before, all) == normalized_stream(
                        data_of(earlier) + all,
                    ));
                    assert(before.received + all =~= now.received + more);
                    assert(data_of(earlier) + all =~= data_of(operations) + more);
                },
                NormalizerOperation::Got(Err(_)) => {
                    assert(given_in(earlier) + output_of(before, more) == normalized_stream(
                        data_of(earlier) + more,
                    ));
                },
                NormalizerOperation::Read(count) => {
                    lemma_read(before, count);
                    assert(given_in(earlier) + output_of(before, more) == normalized_stream(
                        data_of(earlier) + more,
                    ));
                    if let ReadView::Bytes(given) = read_given(before, count) {
                        assert((given_in(earlier) + given) + output_of(now, more) =~= given_in(
                            earlier,
                        ) + (given + output_of(now, more)));
                    }
                },
            }
        }
    }
    if read_given(now, limit) is End {
        lemma_read(now, limit);
        let nothing = Seq::<u8>::empty();
        assert(given_in(operations) + output_of(now, nothing) == normalized_stream(
            data_of(operations) + nothing,
        ));
        assert(data_of(operations) + nothing =~= data_of(operations));
        assert(given_in(operations) + nothing =~= given_in(operations));
    }
}

/// Failed reads of the source might as well not have happened: without them the normalizer is in
/// the same state, has received the same data and has handed out the same bytes.
pub proof fn law_failed_reads_change_nothing<E>(operations: Seq<NormalizerOperation<E>>)
    ensures
        after_operations(without_failures(operations)) == after_operations(operations),
        data_of(without_failures(operations)) == data_of(operations),
        given_in(without_failures(operations)) == given_in(operations),
    decreases operations.len(),
{
    if operations.len() > 0 {
        let earlier = without_failures(operations.drop_last());
        law_failed_reads_change_nothing(operations.drop_last());
        assert(earlier.push(operations.last()).drop_last() =~= earlier);
    }
}

/// The frame length stands in 13 bits: the last two of the fourth byte, all of the fifth, and the
/// first three of the sixth.
pub proof fn law_the_frame_length_has_its_place(header: Seq<u8>, high: u8, middle: u8, low: u8)
    requires
        header.len() >= 6,
        header[3] & 0x03 == high,
        header[4] == middle,
        header[5] >> 5 == low,
    ensures
        declared_length(header) == high * 2048 + middle * 8 + low,
{
}

/// The frame length that is written has the high bits in the fourth byte, the next eight in the
/// fifth, and the low three in the sixth; no other bit changes.
pub proof fn law_the_frame_length_is_written_in_its_place(header: Seq<u8>, length: int)
    requires
        header.len() >= 6,
        0 <= length <= 8191,
    ensures
        ({
            let written = with_declared_length(header, length);
            &&& written.len() == header.len()
            &&& (written[3] & 0x03) as int == length / 2048
            &&& written[4] as int == (length / 8) % 256
            &&& (written[5] >> 5) as int == length % 8
            &&& written[3] & 0xFC == header[3] & 0xFC
            &&& written[5] & 0x1F == header[5] & 0x1F
            &&& forall|i: int|
                0 <= i < header.len() && i != 3 && i != 4 && i != 5 ==> #[trigger] written[i]
                    == header[i]
        }),
{
    law_frame_length_reads_back(header, length);
    let high = ((length / 2048) % 4) as u8;
    let b3 = header[3];
    let low = (length % 8) as u8;
    let b5 = header[5];
    assert(((b3 & 0xFC) | high) & 0x03 == high) by (bit_vector)
        requires
            high < 4u8,
    ;
    assert(((b5 & 0x1F) | ((low * 32) as u8)) >> 5 == low) by (bit_vector)
        requires
            low < 8u8,
    ;
}

/// A syncword is twelve set bits and a layer of zero; the bits of the version and of the
/// protection may be anything.
pub proof fn law_syncwords_are_twelve_bits_and_no_layer(stream: Seq<u8>)
    ensures
        starts_in_sync(stream) <==> stream.len() >= 2 && stream[0] == 255 && (stream[1] == 240
            || stream[1] == 241 || stream[1] == 248 || stream[1] == 249),
{
    if stream.len() >= 2 {
        let b = stream[1];
        assert(b & 0xF6 == 0xF0 <==> b == 240 || b == 241 || b == 248 || b == 249) by (bit_vector);
    }
}

/// Without a CRC a frame changes in its second byte alone: profile, sampling frequency, channels,
/// length and payload stay what they are.
pub proof fn law_without_a_crc_only_the_version_changes(frame: Seq<u8>)
    requires
        frame.len() >= 7,
        frame[1] % 2 == 1,
    ensures
        normalized_frame(frame).len() == frame.len(),
        forall|i: int|
            0 <= i < frame.len() && i != 1 ==> #[trigger] normalized_frame(frame)[i] == frame[i],
        starts_in_sync(frame) ==> normalized_frame(frame)[1] == 0xF1,
{
    let b = frame[1];
    assert(b & 0x01 == b % 2) by (bit_vector);
    assert(b & 0xF6 == 0xF0 ==> (b & 0xF7) | 0x01 == 0xF1) by (bit_vector);
    assert(!has_crc(frame));
}

/// With a CRC a frame loses the two bytes of the CRC. Besides its length, which is two less, and the
/// second byte nothing changes: profile, sampling frequency, channels and payload stay what they
/// are.
pub proof fn law_with_a_crc_the_rest_of_the_header_is_kept(frame: Seq<u8>)
    requires
        9 <= frame.len() <= MAX_FRAME_LEN,
        frame[1] % 2 == 0,
    ensures
        ({
            let done = normalized_frame(frame);
            &&& done.len() == frame.len() - 2
            &&& done[0] == frame[0]
            &&& starts_in_sync(frame) ==> done[1] == 0xF1
            &&& done[2] == frame[2]
            &&& done[6] == frame[6]
            &&& done[3] & 0xFC == frame[3] & 0xFC
            &&& done[5] & 0x1F == frame[5] & 0x1F
            &&& (done[3] & 0x03) * 2048 + done[4] * 8 + (done[5] >> 5) == frame.len() - 2
            &&& forall|i: int| 7 <= i < done.len() ==> #[trigger] done[i] == frame[i + 2]
        }),
{
    let b = frame[1];
    assert(b & 0x01 == b % 2) by (bit_vector);
    assert(b & 0xF6 == 0xF0 ==> (b & 0xF7) | 0x01 == 0xF1) by (bit_vector);
    assert(has_crc(frame));
    let header = frame.take(7).update(1, ((b & 0xF7) | 0x01) as u8);
    let done = normalized_frame(frame);
    law_the_frame_length_is_written_in_its_place(header, frame.len() - 2);
    law_frame_length_reads_back(header, frame.len() - 2);
    let written = with_declared_length(header, frame.len() - 2);
    assert(done =~= written + frame.skip(9));
    assert(done[3] == written[3] && done[4] == written[4] && done[5] == written[5]);
    assert(written[2] == header[2] && written[6] == header[6] && written[0] == header[0]
        && written[1] == header[1]);
}

/// A frame whose header announces a CRC for which it has no room stays as it is.
pub proof fn law_a_frame_without_room_for_its_crc_is_unchanged(frame: Seq<u8>)
    requires
        7 <= frame.len() < 9,
        frame[1] % 2 == 0,
    ensures
        normalized_frame(frame) == frame,
{
    let b = frame[1];
    assert(b & 0x01 == b % 2) by (bit_vector);
    assert(has_crc(frame));
}

/// Bytes before a frame that are part of no syncword are dropped, and what follows is what it would
/// be without them.
pub proof fn law_bytes_before_a_frame_are_dropped(junk: Seq<u8>, frame: Seq<u8>, rest: Seq<u8>)
    requires
        forall|i: int| 0 <= i < junk.len() ==> #[trigger] junk[i] != 255,
        frame.len() >= 7,
        starts_in_sync(frame),
        declared_length(frame) == frame.len(),
    ensures
        normalized_stream(junk + frame + rest) == normalized_frame(frame) + normalized_stream(rest),
{
    law_frames_are_chained(frame, rest);
    assert(junk + frame + rest =~= junk + (frame + rest));
    assert(junk_len(frame + rest) == 0) by {
        assert(declared_length(frame + rest) == declared_length(frame));
    }
    lemma_junk_in_front(junk, frame + rest);
    lemma_drop_junk(junk + (frame + rest), Seq::empty());
    let all = junk + (frame + rest);
    assert(all + Seq::<u8>::empty() =~= all);
    assert(after_junk(all) + Seq::<u8>::empty() =~= frame + rest);
}

proof fn lemma_junk_in_front(junk: Seq<u8>, rest: Seq<u8>)
    requires
        forall|i: int| 0 <= i < junk.len() ==> #[trigger] junk[i] != 255,
        rest.len() >= 2,
        junk_len(rest) == 0,
    ensures
        junk_len(junk + rest) == junk.len(),
    decreases junk.len(),
{
    if junk.len() == 0 {
        assert(junk + rest =~= rest);
    } else {
        assert((junk + rest)[0] == junk[0]);
        assert((junk + rest).skip(1) =~= junk.skip(1) + rest);
        lemma_junk_in_front(junk.skip(1), rest);
    }
}

/// A syncword whose frame would be shorter than a header begins no frame: the search goes on behind
/// its first byte.
pub proof fn law_a_frame_too_short_for_a_header_is_no_frame(stream: Seq<u8>)
    requires
        stream.len() >= 7,
        declared_length(stream) < 7 || !starts_in_sync(stream),
    ensures
        normalized_stream(stream) == normalized_stream(stream.skip(1)),
{
    let rest = stream.skip(1);
    lemma_junk(stream);
    lemma_junk(rest);
    assert(after_junk(stream) =~= after_junk(rest));
}

/// A frame that is not all there gives nothing.
pub proof fn law_a_cut_off_frame_gives_nothing(stream: Seq<u8>)
    requires
        starts_in_sync(stream),
        stream.len() >= 7 ==> declared_length(stream) >= 7 && declared_length(stream) > stream.len(),
    ensures
        normalized_stream(stream) == Seq::<u8>::empty(),
{
    assert(junk_len(stream) == 0);
    assert(after_junk(stream) =~= stream);
}

/// A read hands out the front of what is ready, as much of it as is asked for and as there is, or
/// else that of the next whole frame. Where there is neither it asks for more, and after the end of
/// the input it is at the end.
pub proof fn law_a_read_gives_the_front_of_what_is_ready(normalizer: NormalizerView, limit: nat)
    requires
        limit > 0,
    ensures
        normalizer.available.len() > 0 ==> {
            let count = if limit < normalizer.available.len() {
                limit as int
            } else {
                normalizer.available.len() as int
            };
            &&& read_given(normalizer, limit) == ReadView::Bytes(normalizer.available.take(count))
            &&& after_read(normalizer, limit) == (NormalizerView {
                available: normalizer.available.skip(count),
                ..normalizer
            })
        },
        normalizer.available.len() == 0 && normalizer.received.len() < 7 ==> read_given(
            normalizer,
            limit,
        ) == (if normalizer.ended {
            ReadView::End
        } else {
            ReadView::NeedMore
        }),
{
    lemma_junk(normalizer.received);
}

/// What the source gives is added behind what was received. The input ends with the first read of
/// the source that gives nothing, and with no other.
pub proof fn law_the_input_ends_with_an_empty_read(normalizer: NormalizerView, chunk: Seq<u8>)
    ensures
        after_fill(normalizer, chunk).received == normalizer.received + chunk,
        after_fill(normalizer, chunk).available == normalizer.available,
        after_fill(normalizer, chunk).ended <==> normalizer.ended || chunk.len() == 0,
        !empty_normalizer().ended,
        empty_normalizer().received.len() == 0,
        empty_normalizer().available.len() == 0,
{
}

} // verus!
