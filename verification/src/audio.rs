//! The decoded side of playback: a ring of samples between the decoder and the audio device, and
//! the parts of the conversion between their formats that pick samples and channels.
//!
//! A sample is held as the bits of its IEEE 754 single. Of numbers without a sign the bits are
//! ordered as the numbers are, so that peaks are found on the bits.
//!
//! The ring never blocks. A push that finds it full says how far it came, and goes on from there
//! once there is space.

use std::collections::VecDeque;
use vstd::prelude::*;

verus! {

/// Roughly 400 ms of audio at 48 kHz: big enough to ride out jitter and the boundary of a segment,
/// small enough that stopping is heard at once.
pub const RING_CAPACITY_FRAMES: usize = 19_200;

/// The bits of 1.0.
pub const FULL_SCALE: u32 = 0x3F80_0000;

/// The bits of infinity. Greater ones, without the sign, are those of no number.
pub const INFINITE: u32 = 0x7F80_0000;

/// The bits of a sample without its sign.
pub open spec fn magnitude(sample: u32) -> u32 {
    if sample >= 0x8000_0000 {
        (sample - 0x8000_0000) as u32
    } else {
        sample
    }
}

/// The sample is a number.
pub open spec fn is_number(sample: u32) -> bool {
    magnitude(sample) <= INFINITE
}

/// The greatest magnitude among the samples that are numbers, or that of silence.
pub open spec fn peak_of(samples: Seq<u32>) -> u32
    decreases samples.len(),
{
    if samples.len() == 0 {
        0
    } else {
        let before = peak_of(samples.drop_last());
        if is_number(samples.last()) && magnitude(samples.last()) > before {
            magnitude(samples.last())
        } else {
            before
        }
    }
}

/// The peak, at full scale at most.
pub open spec fn level_of(samples: Seq<u32>) -> u32 {
    if peak_of(samples) > FULL_SCALE {
        FULL_SCALE
    } else {
        peak_of(samples)
    }
}

/// The state of a sink.
pub struct SinkView {
    /// The samples that wait to be played, in order.
    pub ring: Seq<u32>,
    pub capacity: nat,
    pub muted: bool,
    /// The peak of what was played last.
    pub level: u32,
}

/// The ring holds no more than it may.
pub open spec fn valid_sink(sink: SinkView) -> bool {
    sink.ring.len() <= sink.capacity && sink.capacity > 0 && sink.level <= FULL_SCALE
}

/// What became of a push.
#[derive(Clone, Copy, Debug, PartialEq, Eq, Structural)]
pub enum PushProgress {
    /// All samples are in the ring.
    Done,
    /// The sink is muted and takes nothing more: the decoder is to stop.
    Muted,
    /// The ring is full: the push is to go on from this sample later.
    Wait(usize),
}

/// How far a push comes from a sample on. A muted sink takes nothing.
pub open spec fn push_end(sink: SinkView, len: nat, from: nat) -> nat {
    if sink.muted {
        from
    } else if len - from <= sink.capacity - sink.ring.len() {
        len
    } else {
        (from + (sink.capacity - sink.ring.len())) as nat
    }
}

/// The sink after a push from a sample on.
pub open spec fn after_push(sink: SinkView, samples: Seq<u32>, from: nat) -> SinkView {
    if sink.muted {
        sink
    } else {
        SinkView {
            ring: sink.ring + samples.subrange(
                from as int,
                push_end(sink, samples.len(), from) as int,
            ),
            ..sink
        }
    }
}

/// What becomes of a push from a sample on.
pub open spec fn push_progress(sink: SinkView, len: nat, from: nat) -> PushProgress {
    if sink.muted {
        PushProgress::Muted
    } else if push_end(sink, len, from) == len {
        PushProgress::Done
    } else {
        PushProgress::Wait(push_end(sink, len, from) as usize)
    }
}

/// How many samples of the ring are played in a buffer.
pub open spec fn played_count(sink: SinkView, len: nat) -> nat {
    if sink.muted {
        0
    } else if len <= sink.ring.len() {
        len
    } else {
        sink.ring.len()
    }
}

/// What is played in a buffer: the next samples, and silence where there are too few or the sink
/// is muted.
pub open spec fn played(sink: SinkView, len: nat) -> Seq<u32> {
    sink.ring.take(played_count(sink, len) as int) + Seq::new(
        (len - played_count(sink, len)) as nat,
        |i: int| 0u32,
    )
}

/// The sink after a buffer has been played.
pub open spec fn after_fill(sink: SinkView, len: nat) -> SinkView {
    let count = played_count(sink, len) as int;
    SinkView { ring: sink.ring.skip(count), level: level_of(sink.ring.take(count)), ..sink }
}

/// The sink after it has been muted.
pub open spec fn after_mute(sink: SinkView) -> SinkView {
    SinkView { ring: Seq::empty(), muted: true, level: 0, ..sink }
}

/// The ring between the decoder and the audio device.
pub struct AudioSink {
    ring: VecDeque<u32>,
    capacity: usize,
    muted: bool,
    level_bits: u32,
}

impl View for AudioSink {
    type V = SinkView;

    closed spec fn view(&self) -> SinkView {
        SinkView {
            ring: self.ring@,
            capacity: self.capacity as nat,
            muted: self.muted,
            level: self.level_bits,
        }
    }
}

/// How many samples a ring for that many channels holds.
pub open spec fn ring_capacity(channels: nat) -> nat {
    RING_CAPACITY_FRAMES as nat * (if channels == 0 { 1 } else { channels })
}

impl AudioSink {
    /// The state makes sense.
    pub open spec fn wf(&self) -> bool {
        valid_sink(self@)
    }

    /// A sink for a device with that many channels.
    pub fn new(channels: usize) -> (sink: Self)
        requires
            ring_capacity(channels as nat) <= usize::MAX,
        ensures
            sink.wf(),
            sink@ == (SinkView {
                ring: Seq::empty(),
                capacity: ring_capacity(channels as nat),
                muted: false,
                level: 0,
            }),
    {
        let count: usize = if channels == 0 { 1 } else { channels };
        assert(ring_capacity(channels as nat) > 0) by (nonlinear_arith)
            requires
                ring_capacity(channels as nat) == 19_200 * (count as nat),
                count > 0,
        ;
        let sink = AudioSink {
            ring: VecDeque::new(),
            capacity: RING_CAPACITY_FRAMES * count,
            muted: false,
            level_bits: 0,
        };
        sink
    }

    /// Appends interleaved samples, from a sample on, as long as there is space. A full ring is
    /// what paces the decoder to real time. A muted sink takes none, which is the decoder's signal
    /// to stop.
    pub fn push(&mut self, samples: &[u32], from: usize) -> (progress: PushProgress)
        requires
            old(self).wf(),
            from <= samples@.len(),
        ensures
            final(self).wf(),
            progress == push_progress(old(self)@, samples@.len(), from as nat),
            final(self)@ == after_push(old(self)@, samples@, from as nat),
    {
        if self.muted {
            return PushProgress::Muted;
        }
        let mut position: usize = from;
        while position < samples.len() && self.ring.len() < self.capacity
            invariant
                from <= position <= samples@.len(),
                old(self).wf(),
                self.ring@ =~= old(self).ring@ + samples@.subrange(from as int, position as int),
                self.ring@.len() <= self.capacity,
                self.capacity == old(self).capacity,
                self.muted == old(self).muted,
                self.level_bits == old(self).level_bits,
            decreases samples@.len() - position,
        {
            self.ring.push_back(samples[position]);
            assert(samples@.subrange(from as int, position + 1) =~= samples@.subrange(
                from as int,
                position as int,
            ).push(samples@[position as int]));
            position += 1;
        }
        if position == samples.len() {
            PushProgress::Done
        } else {
            PushProgress::Wait(position)
        }
    }

    /// Fills a buffer from the ring and measures its peak.
    pub fn fill(&mut self, out: &mut Vec<u32>)
        requires
            old(self).wf(),
        ensures
            final(self).wf(),
            final(out)@ == played(old(self)@, old(out)@.len()),
            final(self)@ == after_fill(old(self)@, old(out)@.len()),
    {
        let len: usize = out.len();
        let waiting: usize = self.ring.len();
        let count: usize = if self.muted {
            0
        } else if len <= waiting {
            len
        } else {
            waiting
        };
        let ghost before = self.ring@;
        let mut peak: u32 = 0;
        for position in 0..count
            invariant
                count <= before.len(),
                count <= len,
                out@.len() == len,
                before == old(self).ring@,
                self.ring@ =~= before.skip(position as int),
                forall|i: int| 0 <= i < position ==> out@[i] == before[i],
                peak == peak_of(before.take(position as int)),
                self.capacity == old(self).capacity,
                self.muted == old(self).muted,
        {
            let sample: u32 = match self.ring.pop_front() {
                Some(sample) => sample,
                None => 0,
            };
            out.set(position, sample);
            let bits: u32 = if sample >= 0x8000_0000 { sample - 0x8000_0000 } else { sample };
            assert(before.take(position + 1).drop_last() =~= before.take(position as int));
            if bits <= INFINITE && bits > peak {
                peak = bits;
            }
        }
        for position in count..len
            invariant
                count <= len,
                out@.len() == len,
                count <= before.len(),
                forall|i: int| 0 <= i < count ==> out@[i] == before[i],
                forall|i: int| count <= i < position ==> out@[i] == 0,
        {
            out.set(position, 0);
        }
        assert(out@ =~= played(old(self)@, len as nat));
        self.level_bits = if peak > FULL_SCALE { FULL_SCALE } else { peak };
        assert(self.ring@ =~= before.skip(count as int));
    }

    /// Silences the output at once and releases a decoder that waits.
    pub fn mute(&mut self)
        requires
            old(self).wf(),
        ensures
            final(self).wf(),
            final(self)@ == after_mute(old(self)@),
    {
        self.muted = true;
        self.ring.clear();
        self.level_bits = 0;
        assert(self.ring@ =~= Seq::empty());
    }

    /// The peak of what was played last, from silence to full scale.
    pub fn level(&self) -> (level: u32)
        ensures
            level == self@.level,
    {
        self.level_bits
    }
}

/// What can be done to a sink.
pub enum SinkOperation {
    Push(Seq<u32>),
    Fill(nat),
}

/// The sink after some operations, in order.
pub open spec fn after_operations(sink: SinkView, operations: Seq<SinkOperation>) -> SinkView
    decreases operations.len(),
{
    if operations.len() == 0 {
        sink
    } else {
        let before = after_operations(sink, operations.drop_last());
        match operations.last() {
            SinkOperation::Push(samples) => after_push(before, samples, 0),
            SinkOperation::Fill(len) => after_fill(before, len),
        }
    }
}

/// The samples that the pushes among the operations put into the ring, in order.
pub open spec fn accepted(sink: SinkView, operations: Seq<SinkOperation>) -> Seq<u32>
    decreases operations.len(),
{
    if operations.len() == 0 {
        Seq::empty()
    } else {
        let before = after_operations(sink, operations.drop_last());
        let earlier = accepted(sink, operations.drop_last());
        match operations.last() {
            SinkOperation::Push(samples) => earlier + samples.take(
                push_end(before, samples.len(), 0) as int,
            ),
            SinkOperation::Fill(_) => earlier,
        }
    }
}

/// The samples that were played in the buffers among the operations, in order, without the silence
/// behind them.
pub open spec fn delivered(sink: SinkView, operations: Seq<SinkOperation>) -> Seq<u32>
    decreases operations.len(),
{
    if operations.len() == 0 {
        Seq::empty()
    } else {
        let before = after_operations(sink, operations.drop_last());
        let earlier = delivered(sink, operations.drop_last());
        match operations.last() {
            SinkOperation::Push(_) => earlier,
            SinkOperation::Fill(len) => earlier + played(before, len).take(
                played_count(before, len) as int,
            ),
        }
    }
}

/// However pushes and buffers follow each other, the samples that are played are those that were
/// pushed, in order, and what has not been played still waits; and the ring stays within its
/// capacity.
pub proof fn law_samples_are_played_as_they_were_pushed(
    sink: SinkView,
    operations: Seq<SinkOperation>,
)
    requires
        valid_sink(sink),
    ensures
        sink.ring + accepted(sink, operations) == delivered(sink, operations) + after_operations(
            sink,
            operations,
        ).ring,
        valid_sink(after_operations(sink, operations)),
    decreases operations.len(),
{
    if operations.len() > 0 {
        let earlier = operations.drop_last();
        law_samples_are_played_as_they_were_pushed(sink, earlier);
        let before = after_operations(sink, earlier);
        match operations.last() {
            SinkOperation::Push(samples) => {
                let part = samples.take(push_end(before, samples.len(), 0) as int);
                assert(before.muted ==> before.ring + part =~= before.ring);
                assert(part =~= samples.subrange(0, push_end(before, samples.len(), 0) as int));
                assert(sink.ring + (accepted(sink, earlier) + part) =~= (sink.ring + accepted(
                    sink,
                    earlier,
                )) + part);
                assert(delivered(sink, earlier) + (before.ring + part) =~= (delivered(sink, earlier)
                    + before.ring) + part);
            },
            SinkOperation::Fill(len) => {
                let count = played_count(before, len) as int;
                assert(played(before, len).take(count) =~= before.ring.take(count));
                assert(delivered(sink, earlier) + before.ring =~= (delivered(sink, earlier)
                    + before.ring.take(count)) + before.ring.skip(count));
            },
        }
    }
}

/// A muted sink plays silence and shows no level, and every push into it is refused.
pub proof fn law_mute_silences(sink: SinkView, len: nat, samples: Seq<u32>, from: nat)
    ensures
        forall|i: int| 0 <= i < len ==> #[trigger] played(after_mute(sink), len)[i] == 0,
        played(after_mute(sink), len).len() == len,
        after_mute(sink).level == 0,
        after_fill(after_mute(sink), len).level == 0,
        push_progress(after_mute(sink), samples.len(), from) == PushProgress::Muted,
        after_push(after_mute(sink), samples, from) == after_mute(sink),
{
}

/// Whatever was decoded, the level lies between silence and full scale.
pub proof fn law_level_is_at_most_full_scale(samples: Seq<u32>)
    ensures
        level_of(samples) <= FULL_SCALE,
{
}

/// No sample that is a number exceeds the peak, and the peak is the magnitude of a sample unless
/// it is silence.
pub proof fn law_peak_is_the_greatest_magnitude(samples: Seq<u32>)
    ensures
        forall|i: int|
            0 <= i < samples.len() && is_number(#[trigger] samples[i]) ==> magnitude(samples[i])
                <= peak_of(samples),
        peak_of(samples) == 0 || exists|i: int|
            0 <= i < samples.len() && is_number(#[trigger] samples[i]) && magnitude(samples[i])
                == peak_of(samples),
    decreases samples.len(),
{
    if samples.len() > 0 {
        let earlier = samples.drop_last();
        let last = samples.len() - 1;
        law_peak_is_the_greatest_magnitude(earlier);
        assert forall|i: int|
            0 <= i < samples.len() && is_number(#[trigger] samples[i]) implies magnitude(samples[i])
            <= peak_of(samples) by {
            if i < last {
                assert(earlier[i] == samples[i]);
            }
        }
        if peak_of(samples) != 0 {
            if peak_of(samples) == peak_of(earlier) {
                let i = choose|i: int|
                    0 <= i < earlier.len() && is_number(#[trigger] earlier[i]) && magnitude(
                        earlier[i],
                    ) == peak_of(earlier);
                assert(samples[i] == earlier[i]);
            } else {
                assert(is_number(samples[last]));
            }
        }
    }
}

/// Where a sample of the input comes from.
#[derive(Clone, Copy, Debug, PartialEq, Eq, Structural)]
pub enum SampleSource {
    /// The last frame of the buffer before.
    Previous,
    /// A frame of this buffer.
    Frame(usize),
}

/// What goes to a channel of the output.
#[derive(Clone, Copy, Debug, PartialEq, Eq, Structural)]
pub enum ChannelSource {
    /// A channel of the input.
    Channel(usize),
    /// The mean of the first two channels of the input.
    Mean,
}

/// Where the sample of a frame comes from, on a timeline on which -1 is the last frame of the
/// buffer before. Behind the end it is the last frame.
pub open spec fn sample_source(frames: int, index: int, have_previous: bool) -> SampleSource {
    if index < 0 {
        if have_previous {
            SampleSource::Previous
        } else {
            SampleSource::Frame(0)
        }
    } else if index < frames {
        SampleSource::Frame(index as usize)
    } else {
        SampleSource::Frame((frames - 1) as usize)
    }
}

/// What goes to a channel of the output: the same channel where there are as many, a mono source
/// to every channel, the mean to a mono output, and else what lines up, and the last channel to
/// fill.
pub open spec fn channel_source(inputs: int, outputs: int, channel: int) -> ChannelSource {
    if inputs == outputs {
        ChannelSource::Channel(channel as usize)
    } else if inputs == 1 {
        ChannelSource::Channel(0)
    } else if outputs == 1 {
        ChannelSource::Mean
    } else if channel < inputs {
        ChannelSource::Channel(channel as usize)
    } else {
        ChannelSource::Channel((inputs - 1) as usize)
    }
}

/// The shape of a conversion from a decoded stream to a device.
#[derive(Clone, Copy, Debug, PartialEq, Eq, Structural)]
pub struct Converter {
    pub in_channels: usize,
    pub out_channels: usize,
    /// The formats are the same: the samples are handed on as they are.
    pub passthrough: bool,
}

impl Converter {
    /// The conversion between two formats. Each side has a channel at least.
    pub fn new(in_channels: usize, in_rate: u32, out_channels: usize, out_rate: u32) -> (converter:
        Self)
        ensures
            converter.in_channels == (if in_channels == 0 { 1 } else { in_channels }),
            converter.out_channels == (if out_channels == 0 { 1 } else { out_channels }),
            converter.passthrough == (in_rate == out_rate && in_channels == out_channels),
    {
        Converter {
            in_channels: if in_channels == 0 { 1 } else { in_channels },
            out_channels: if out_channels == 0 { 1 } else { out_channels },
            passthrough: in_rate == out_rate && in_channels == out_channels,
        }
    }

    /// How many whole frames there are in that many samples.
    pub fn frames(&self, samples: usize) -> (frames: usize)
        requires
            self.in_channels > 0,
        ensures
            frames == samples / self.in_channels,
    {
        samples / self.in_channels
    }

    /// Where the sample of a frame comes from.
    pub fn sample_at(&self, frames: usize, index: i64, have_previous: bool) -> (source: SampleSource)
        requires
            frames > 0,
        ensures
            source == sample_source(frames as int, index as int, have_previous),
    {
        if index < 0 {
            if have_previous {
                SampleSource::Previous
            } else {
                SampleSource::Frame(0)
            }
        } else if (index as u64) < frames as u64 {
            SampleSource::Frame(index as usize)
        } else {
            SampleSource::Frame(frames - 1)
        }
    }

    /// What goes to each channel of the output.
    pub fn write_frame(&self) -> (sources: Vec<ChannelSource>)
        requires
            self.in_channels > 0,
        ensures
            sources@.len() == self.out_channels,
            forall|channel: int|
                0 <= channel < self.out_channels ==> #[trigger] sources@[channel] == channel_source(
                    self.in_channels as int,
                    self.out_channels as int,
                    channel,
                ),
    {
        let mut sources: Vec<ChannelSource> = Vec::new();
        for channel in 0..self.out_channels
            invariant
                self.in_channels > 0,
                sources@.len() == channel,
                forall|c: int|
                    0 <= c < channel ==> #[trigger] sources@[c] == channel_source(
                        self.in_channels as int,
                        self.out_channels as int,
                        c,
                    ),
        {
            let source: ChannelSource = if self.in_channels == self.out_channels {
                ChannelSource::Channel(channel)
            } else if self.in_channels == 1 {
                ChannelSource::Channel(0)
            } else if self.out_channels == 1 {
                ChannelSource::Mean
            } else if channel < self.in_channels {
                ChannelSource::Channel(channel)
            } else {
                ChannelSource::Channel(self.in_channels - 1)
            };
            sources.push(source);
        }
        sources
    }
}

/// A conversion reads only samples and channels that are there.
pub proof fn law_conversion_stays_inside(
    inputs: int,
    outputs: int,
    channel: int,
    frames: int,
    index: int,
    have_previous: bool,
)
    requires
        0 < inputs <= usize::MAX,
        0 <= channel < outputs,
        0 < frames <= usize::MAX,
    ensures
        channel_source(inputs, outputs, channel) matches ChannelSource::Channel(c) ==> c < inputs,
        channel_source(inputs, outputs, channel) is Mean ==> inputs >= 2,
        sample_source(frames, index, have_previous) matches SampleSource::Frame(f) ==> f < frames,
        sample_source(frames, index, have_previous) is Previous ==> have_previous,
{
}

/// The magnitude of a sample is its bits without the sign, which is the highest; it is a number up to
/// infinity. Full scale is one.
pub proof fn law_the_sign_is_the_highest_bit(sample: u32)
    ensures
        magnitude(sample) == sample % 0x8000_0000,
        is_number(sample) <==> sample % 0x8000_0000 <= 0x7F80_0000,
        FULL_SCALE == 127 * 0x80_0000,
        INFINITE == 255 * 0x80_0000,
{
}

/// The level is the greatest magnitude of a number among the samples, and full scale where that is
/// greater; it is silence where there is none.
pub proof fn law_the_level_is_the_greatest_magnitude(samples: Seq<u32>, sample: u32)
    ensures
        level_of(Seq::empty()) == 0,
        ({
            let bits = (sample % 0x8000_0000) as u32;
            let peak = peak_of(samples);
            &&& bits > 0x7F80_0000 || bits <= peak ==> peak_of(samples.push(sample)) == peak
            &&& bits <= 0x7F80_0000 && bits > peak ==> peak_of(samples.push(sample)) == bits
        }),
        peak_of(samples) <= 0x3F80_0000 ==> level_of(samples) == peak_of(samples),
        peak_of(samples) > 0x3F80_0000 ==> level_of(samples) == 0x3F80_0000,
{
    assert(samples.push(sample).drop_last() =~= samples);
}

/// A push puts samples behind those that wait, from where it was asked to begin and as many as there
/// is room for, and says where it is to go on. A muted sink takes none and says so.
pub proof fn law_a_push_goes_as_far_as_there_is_room(
    sink: SinkView,
    samples: Seq<u32>,
    from: nat,
)
    requires
        valid_sink(sink),
        from <= samples.len() <= usize::MAX,
    ensures
        ({
            let room = sink.capacity - sink.ring.len();
            let rest = samples.len() - from;
            &&& !sink.muted && rest <= room ==> push_progress(sink, samples.len(), from)
                == PushProgress::Done && after_push(sink, samples, from) == (SinkView {
                ring: sink.ring + samples.skip(from as int),
                ..sink
            })
            &&& !sink.muted && rest > room ==> push_progress(sink, samples.len(), from)
                == PushProgress::Wait((from + room) as usize) && after_push(sink, samples, from)
                == (SinkView {
                ring: sink.ring + samples.subrange(from as int, from + room),
                ..sink
            })
            &&& sink.muted ==> push_progress(sink, samples.len(), from) == PushProgress::Muted
                && after_push(sink, samples, from) == sink
        }),
{
    assert(samples.subrange(from as int, samples.len() as int) =~= samples.skip(from as int));
}

/// A buffer is filled with the samples that wait, in order, and with silence behind them where they
/// are too few. They are taken off, and their level is shown.
pub proof fn law_a_buffer_is_filled_from_the_ring(sink: SinkView, len: nat)
    requires
        !sink.muted,
    ensures
        ({
            let count = if len < sink.ring.len() { len as int } else { sink.ring.len() as int };
            &&& played(sink, len).len() == len
            &&& forall|i: int| 0 <= i < count ==> #[trigger] played(sink, len)[i] == sink.ring[i]
            &&& forall|i: int| count <= i < len ==> #[trigger] played(sink, len)[i] == 0
            &&& after_fill(sink, len) == (SinkView {
                ring: sink.ring.skip(count),
                level: level_of(sink.ring.take(count)),
                ..sink
            })
        }),
{
}

/// A mute empties the ring, shows no level, and stays.
pub proof fn law_a_mute_stays(sink: SinkView, len: nat)
    ensures
        after_mute(sink).muted,
        after_mute(sink).ring.len() == 0,
        after_mute(sink).level == 0,
        after_mute(sink).capacity == sink.capacity,
        after_fill(after_mute(sink), len).muted,
{
}

/// A ring holds 19200 frames of as many samples as there are channels, and of one where there are
/// none.
pub proof fn law_a_ring_holds_frames_of_all_channels(channels: nat)
    ensures
        channels > 0 ==> ring_capacity(channels) == 19_200 * channels,
        ring_capacity(0) == 19_200,
{
}

/// A frame is that of its index in the buffer. Before the buffer it is the last frame of the buffer
/// before, or the first of this one where there was none; behind the buffer it is the last.
pub proof fn law_a_frame_is_that_of_its_index(frames: int, index: int, have_previous: bool)
    requires
        0 < frames <= usize::MAX,
    ensures
        0 <= index < frames ==> sample_source(frames, index, have_previous) == SampleSource::Frame(
            index as usize,
        ),
        index >= frames ==> sample_source(frames, index, have_previous) == SampleSource::Frame(
            (frames - 1) as usize,
        ),
        index < 0 ==> sample_source(frames, index, true) == SampleSource::Previous,
        index < 0 ==> sample_source(frames, index, false) == SampleSource::Frame(0),
{
}

/// Each channel goes to its own where there are as many. A mono source goes to every channel, and
/// the mean of the first two to a mono output. Else each goes to its own as far as there are any,
/// and the last one to the others.
pub proof fn law_a_channel_goes_to_its_own(inputs: int, outputs: int, channel: int)
    requires
        0 < inputs <= usize::MAX,
        0 <= channel < outputs <= usize::MAX,
    ensures
        inputs == outputs ==> channel_source(inputs, outputs, channel) == ChannelSource::Channel(
            channel as usize,
        ),
        inputs == 1 ==> channel_source(inputs, outputs, channel) == ChannelSource::Channel(0),
        outputs == 1 && inputs > 1 ==> channel_source(inputs, outputs, channel)
            == ChannelSource::Mean,
        outputs > 1 && inputs > 1 && channel < inputs ==> channel_source(inputs, outputs, channel)
            == ChannelSource::Channel(channel as usize),
        outputs > 1 && inputs > 1 && channel >= inputs ==> channel_source(inputs, outputs, channel)
            == ChannelSource::Channel((inputs - 1) as usize),
{
}

} // verus!
