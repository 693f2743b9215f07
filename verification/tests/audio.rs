//! The ring of samples and the shape of conversions.

use rworldradio::audio::{
    AudioSink, ChannelSource, Converter, PushProgress, SampleSource, RING_CAPACITY_FRAMES,
};

fn bits(samples: &[f32]) -> Vec<u32> {
    samples.iter().map(|sample| sample.to_bits()).collect()
}

fn samples(bits: &[u32]) -> Vec<f32> {
    bits.iter().map(|bits| f32::from_bits(*bits)).collect()
}

/// The level, as a number.
fn level(sink: &AudioSink) -> f32 {
    f32::from_bits(sink.level())
}

#[test]
fn sink_pads_underrun_with_silence_and_tracks_peak() {
    let mut sink = AudioSink::new(2);
    assert_eq!(sink.push(&bits(&[0.5, -0.75]), 0), PushProgress::Done);
    let mut out = bits(&[9.0f32; 6]);
    sink.fill(&mut out);
    let out = samples(&out);
    assert_eq!(&out[..2], &[0.5, -0.75]);
    assert_eq!(&out[2..], &[0.0; 4]);
    assert!((level(&sink) - 0.75).abs() < 1e-6);
}

#[test]
fn mute_silences_output_and_releases_producer() {
    let mut sink = AudioSink::new(2);
    sink.push(&bits(&[1.0, 1.0]), 0);
    sink.mute();
    let mut out = bits(&[1.0f32; 4]);
    sink.fill(&mut out);
    assert_eq!(samples(&out), [0.0; 4]);
    assert_eq!(level(&sink), 0.0);
    assert_eq!(sink.push(&bits(&[1.0; 1_000_000]), 0), PushProgress::Muted);
}

#[test]
fn a_full_ring_holds_the_decoder_back() {
    let mut sink = AudioSink::new(0);
    let many = bits(&vec![0.25; RING_CAPACITY_FRAMES + 10]);
    assert_eq!(sink.push(&many, 0), PushProgress::Wait(RING_CAPACITY_FRAMES));
    assert_eq!(sink.push(&many, RING_CAPACITY_FRAMES), PushProgress::Wait(RING_CAPACITY_FRAMES));
    let mut out = vec![0u32; 4];
    sink.fill(&mut out);
    assert_eq!(sink.push(&many, RING_CAPACITY_FRAMES), PushProgress::Wait(RING_CAPACITY_FRAMES + 4));
    let mut out = vec![0u32; 100];
    sink.fill(&mut out);
    assert_eq!(sink.push(&many, RING_CAPACITY_FRAMES + 4), PushProgress::Done);
}

#[test]
fn samples_come_out_in_order() {
    let mut sink = AudioSink::new(1);
    let all: Vec<u32> = (1..=10).collect();
    sink.push(&all[..7], 0);
    let mut first = vec![0; 4];
    sink.fill(&mut first);
    sink.push(&all[7..], 0);
    let mut second = vec![0; 6];
    sink.fill(&mut second);
    assert_eq!([first, second].concat(), all);
}

#[test]
fn the_level_is_the_peak_of_the_numbers_up_to_full_scale() {
    for peaks in [
        vec![0.1, -0.9, 0.3],
        vec![],
        vec![-0.0],
        vec![3.5, -0.2],
        vec![f32::NEG_INFINITY],
        vec![f32::NAN, -0.5, -f32::NAN],
        vec![f32::MIN_POSITIVE, -1e-40],
    ] {
        let mut sink = AudioSink::new(2);
        sink.push(&bits(&peaks), 0);
        let mut out = vec![0; 8];
        sink.fill(&mut out);
        let mut peak = 0.0f32;
        for sample in &peaks {
            if sample.abs() > peak {
                peak = sample.abs();
            }
        }
        assert_eq!(level(&sink), peak.min(1.0));
    }
}

#[test]
fn equal_formats_are_passed_through() {
    assert!(Converter::new(2, 48_000, 2, 48_000).passthrough);
    assert!(!Converter::new(2, 44_100, 2, 48_000).passthrough);
    assert!(!Converter::new(1, 48_000, 2, 48_000).passthrough);
    let shape = Converter::new(0, 1, 0, 1);
    assert_eq!((shape.in_channels, shape.out_channels), (1, 1));
}

#[test]
fn channels_are_mapped() {
    let map = |inputs, outputs| Converter::new(inputs, 1, outputs, 2).write_frame();
    let channel = ChannelSource::Channel;
    assert_eq!(map(2, 2), vec![channel(0), channel(1)]);
    // A mono source feeds all channels.
    assert_eq!(map(1, 2), vec![channel(0), channel(0)]);
    assert_eq!(map(2, 1), vec![ChannelSource::Mean]);
    // The last channel fills what is left.
    assert_eq!(map(2, 4), vec![channel(0), channel(1), channel(1), channel(1)]);
    assert_eq!(map(6, 2), vec![channel(0), channel(1)]);
}

#[test]
fn frames_outside_the_buffer_are_replaced() {
    let converter = Converter::new(2, 1, 2, 2);
    assert_eq!(converter.sample_at(3, -1, true), SampleSource::Previous);
    assert_eq!(converter.sample_at(3, -1, false), SampleSource::Frame(0));
    assert_eq!(converter.sample_at(3, 1, true), SampleSource::Frame(1));
    assert_eq!(converter.sample_at(3, 3, true), SampleSource::Frame(2));
    assert_eq!(converter.frames(7), 3);
}

#[test]
fn a_muted_sink_refuses_every_push() {
    let mut sink = AudioSink::new(2);
    sink.mute();
    assert_eq!(sink.push(&bits(&[1.0]), 0), PushProgress::Muted);
    assert_eq!(sink.push(&[], 0), PushProgress::Muted);
    assert_eq!(sink.push(&bits(&[1.0, 0.5]), 2), PushProgress::Muted);
}
