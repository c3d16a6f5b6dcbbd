//! The ring, the output feed and the input of the resampler.

use oscilloscope_me::output::OutputFeed;
use oscilloscope_me::resample::StereoResampler;
use oscilloscope_me::ring::{SampleRing, MAX_RING_SAMPLES};
use rubato::{
    Resampler, SincFixedIn, SincInterpolationParameters, SincInterpolationType, WindowFunction,
};
use std::time::Instant;

fn sinc(input_rate: u32, output_rate: u32) -> SincFixedIn<f32> {
    let params = SincInterpolationParameters {
        sinc_len: 256,
        f_cutoff: 0.95,
        interpolation: SincInterpolationType::Linear,
        oversampling_factor: 256,
        window: WindowFunction::BlackmanHarris2,
    };
    SincFixedIn::<f32>::new(output_rate as f64 / input_rate as f64, 2.0, params, 256, 2)
        .expect("resampler init")
}

#[test]
fn resample_large_buffer_completes_quickly() {
    let input_rate = 44_100;
    let output_rate = 48_000;
    let frames = 500_000usize;
    let left: Vec<f32> = (0..frames).map(|i| (i as f32 * 0.001).sin()).collect();
    let right: Vec<f32> = (0..frames).map(|i| (i as f32 * 0.002).cos()).collect();

    let mut resampler = StereoResampler::new(input_rate, output_rate);
    let mut engine = sinc(input_rate, output_rate);
    let (mut out_l, mut out_r) = (Vec::new(), Vec::new());
    let (mut tail_l, mut tail_r) = (Vec::new(), Vec::new());
    let start = Instant::now();
    assert!(resampler.process(&left, &right).is_none());
    while let Some((l, r)) = resampler.next_chunk(engine.input_frames_next()) {
        let out = engine.process(&[l, r], None).expect("resample");
        out_l.extend_from_slice(&out[0]);
        out_r.extend_from_slice(&out[1]);
    }
    while let Some((l, r)) = resampler.flush(engine.input_frames_next(), 0.0) {
        let out = engine.process(&[l, r], None).expect("resample");
        tail_l.extend_from_slice(&out[0]);
        tail_r.extend_from_slice(&out[1]);
    }
    let elapsed = start.elapsed();

    assert!(!out_l.is_empty());
    assert_eq!(out_l.len(), out_r.len());
    assert_eq!(tail_l.len(), tail_r.len());
    let total_out = out_l.len() + tail_l.len();
    let expected = (frames as f64 * output_rate as f64 / input_rate as f64).round() as usize;
    assert!(
        total_out.abs_diff(expected) < 2048,
        "expected ~{expected} output frames, got {total_out}"
    );
    assert!(
        elapsed.as_secs() < 5,
        "resampling 500k frames took {:?} (regression: O(n²) hang)",
        elapsed
    );
}

#[test]
fn equal_rates_pass_samples_through() {
    let mut r = StereoResampler::new(48_000, 48_000);
    assert_eq!(r.process(&[1, 2, 3], &[4, 5]), Some((vec![1, 2, 3], vec![4, 5])));
    assert_eq!(r.next_chunk(1), None);
    assert_eq!(r.flush(1, 0), None);
}

#[test]
fn chunks_lose_nothing() {
    let mut r = StereoResampler::new(44_100, 48_000);
    assert_eq!(r.process(&[1, 2, 3], &[11, 12, 13]), None);
    assert_eq!(r.process(&[4, 5, 6], &[14, 15]), None);
    assert_eq!(r.next_chunk(2), Some((vec![1, 2], vec![11, 12])));
    assert_eq!(r.next_chunk(4), None);
    assert_eq!(r.next_chunk(3), Some((vec![3, 4, 5], vec![13, 14, 15])));
    assert_eq!(r.next_chunk(1), None);
}

#[test]
fn long_input_is_compacted_without_loss() {
    let frames = 20_000usize;
    let left: Vec<usize> = (0..frames).collect();
    let right: Vec<usize> = (0..frames).map(|i| i + frames).collect();
    let mut r = StereoResampler::new(44_100, 48_000);
    r.process(&left, &right);
    let (mut l, mut rr) = (Vec::new(), Vec::new());
    while let Some((a, b)) = r.next_chunk(256) {
        l.extend(a);
        rr.extend(b);
    }
    assert_eq!(l.len(), frames / 256 * 256);
    assert_eq!(l[..], left[..l.len()]);
    assert_eq!(rr[..], right[..rr.len()]);
}

#[test]
fn flush_fills_the_last_chunk_up() {
    let mut r = StereoResampler::new(44_100, 48_000);
    r.process(&[1, 2, 3], &[4, 5, 6]);
    assert_eq!(r.flush(2, 0), Some((vec![1, 2], vec![4, 5])));
    assert_eq!(r.flush(2, 0), Some((vec![3, 0], vec![6, 0])));
    assert_eq!(r.flush(2, 0), None);
}

#[test]
fn reset_forgets_what_waits() {
    let mut r = StereoResampler::new(44_100, 48_000);
    r.process(&[1, 2], &[3, 4]);
    r.reset(44_100, 48_000);
    assert_eq!(r.next_chunk(1), None);
    r.reset(48_000, 48_000);
    assert_eq!(r.process(&[9], &[8]), Some((vec![9], vec![8])));
}

#[test]
fn ring_reads_back_what_was_pushed() {
    let mut ring = SampleRing::new();
    ring.push_frame(&[1, 2, 3], &[4, 5, 6]);
    let mut out = vec![0; 5];
    assert_eq!(ring.read_interleaved(&mut out), 2);
    assert_eq!(out, vec![1, 4, 2, 5, 0]);
    ring.push_frame(&[7], &[8]);
    let mut out = vec![0; 8];
    assert_eq!(ring.read_interleaved(&mut out), 2);
    assert_eq!(out, vec![3, 6, 7, 8, 0, 0, 0, 0]);
    assert_eq!(ring.read_interleaved(&mut out), 0);
}

#[test]
fn ring_keeps_the_newest() {
    let n = MAX_RING_SAMPLES + 3;
    let left: Vec<usize> = (0..n).collect();
    let right: Vec<usize> = (0..n).map(|i| i + 1_000_000).collect();
    let mut ring = SampleRing::new();
    ring.push_frame(&left, &right);
    let mut out = vec![0; 2 * n];
    assert_eq!(ring.read_interleaved(&mut out), MAX_RING_SAMPLES);
    assert_eq!(out[0], 3);
    assert_eq!(out[1], 1_000_003);
    assert_eq!(out[2 * MAX_RING_SAMPLES - 1], 1_000_000 + n - 1);
}

#[test]
fn ring_drops_what_has_been_read_first() {
    let mut ring = SampleRing::new();
    let block: Vec<usize> = (0..MAX_RING_SAMPLES).collect();
    ring.push_frame(&block, &block);
    let mut out = vec![0; 200];
    assert_eq!(ring.read_interleaved(&mut out), 100);
    let more: Vec<usize> = (0..100).map(|i| i + MAX_RING_SAMPLES).collect();
    ring.push_frame(&more, &more);
    let mut out = vec![0; 2 * MAX_RING_SAMPLES];
    assert_eq!(ring.read_interleaved(&mut out), MAX_RING_SAMPLES);
    assert_eq!(out[0], 100);
    assert_eq!(out[2 * MAX_RING_SAMPLES - 1], MAX_RING_SAMPLES + 99);
}

#[test]
fn cleared_ring_is_empty() {
    let mut ring = SampleRing::new();
    ring.push_frame(&[1], &[2]);
    ring.clear();
    let mut out = vec![0; 2];
    assert_eq!(ring.read_interleaved(&mut out), 0);
}

#[test]
fn output_fills_all_channels() {
    let mut feed = OutputFeed::new(0);
    let out = feed.fill(&[1, 2, 3, 4], 2, 3, 6, 0);
    assert_eq!(out, vec![1, 2, 0, 3, 4, 0]);
}

#[test]
fn output_holds_the_last_frame() {
    let mut feed = OutputFeed::new(0);
    assert_eq!(feed.fill(&[], 0, 2, 4, 0), vec![0, 0, 0, 0]);
    assert_eq!(feed.fill(&[5, 6, 0, 0], 1, 2, 4, 0), vec![5, 6, 5, 6]);
    assert_eq!(feed.fill(&[9, 9, 9, 9], 0, 2, 5, 0), vec![5, 6, 5, 6, 5]);
    assert_eq!(feed.fill(&[7, 8], 1, 1, 2, 0), vec![7, 7]);
}
