//! Settings, the receiver and the decimators.

use oscilloscope_me::demod::angle::fast_atan2;
use oscilloscope_me::demod::complex::{cross, Iq};
use oscilloscope_me::demod::decimate::are_rates_valid;
use oscilloscope_me::demod::receiver::{bytes_to_complex, is_workable, rotate_90};
use oscilloscope_me::demod::stereo::{CarrierChoice, CARRIER_SETTLE_SAMPLES};
use oscilloscope_me::demod::{
    centered_iq_settings, centered_iq_settings_with_rates, optimal_settings, DemodConfig,
    RadioConfig, RtlFmReceiver, StereoAudioDecimator,
};

fn config(downsample: u32, rate_out: u32, rate_resample: u32, rtl_rotate: bool) -> DemodConfig {
    DemodConfig {
        downsample,
        rate_out,
        rate_resample,
        rtl_rotate,
    }
}

fn measure(im: i32, re: i32) -> i32 {
    let angle = (im as f64).atan2(re as f64);
    (angle / std::f64::consts::PI * 16384.0) as i32
}

fn bytes(n: usize, factor: usize, offset: usize) -> Vec<u8> {
    (0..n).map(|i| ((i * factor + offset) % 256) as u8).collect()
}

fn averages(samples: &[f32], ends: &[usize], ratio: i32) -> Vec<f32> {
    let mut start = 0;
    let mut out = Vec::new();
    for &end in ends {
        let sum: f64 = samples[start..end].iter().map(|&s| s as f64).sum();
        out.push((sum / ratio as f64) as f32);
        start = end;
    }
    out
}

#[test]
fn optimal_settings_matches_simple_fm() {
    let (radio, demod) = optimal_settings(94_900_000, 170_000);
    assert_eq!(demod.downsample, 6);
    assert_eq!(radio.capture_rate, 1_020_000);
    assert_eq!(radio.capture_freq, 94_900_000 + 1_020_000 / 4);
    assert!(demod.rtl_rotate);
}

#[test]
fn centered_iq_settings_tune_station_directly() {
    let (radio, demod) = centered_iq_settings(94_900_000, 170_000);
    assert_eq!(radio.capture_freq, 94_900_000);
    assert_eq!(radio.capture_rate, 1_020_000);
    assert!(!demod.rtl_rotate);
}

#[test]
fn optimal_settings_192k() {
    let (radio, demod) = optimal_settings(94_900_000, 192_000);
    assert_eq!(demod.downsample, 6);
    assert_eq!(radio.capture_rate, 1_152_000);
}

#[test]
fn stereo_decimator_reduces_rate() {
    let config = DemodConfig {
        downsample: 6,
        rate_out: 170_000,
        rate_resample: 48_000,
        rtl_rotate: true,
    };
    let mut dec = StereoAudioDecimator::new(&config);
    let n = 17_000usize;
    let left: Vec<f32> = (0..n).map(|i| (i as f32 * 0.001).sin()).collect();
    let right = left.clone();
    let ends = dec.process(&left, &right);
    let out_l = averages(&left, &ends, dec.ratio());
    let out_r = averages(&right, &ends, dec.ratio());
    let expected = n * 48_000 / 170_000;
    assert!(out_l.len() >= expected.saturating_sub(2));
    assert!(out_l.len() <= expected + 2);
    assert_eq!(out_l.len(), out_r.len());
}

#[test]
fn capture_rate_is_the_first_multiple_above_a_megahertz() {
    let (radio, demod) = optimal_settings(100_000_000, 1_000_000);
    assert_eq!(demod.downsample, 2);
    assert_eq!(radio.capture_rate, 2_000_000);
    let (radio, demod) = optimal_settings(100_000_000, 2_000_000);
    assert_eq!(demod.downsample, 1);
    assert_eq!(radio.capture_rate, 2_000_000);
    assert_eq!(radio.capture_freq, 100_500_000);
    assert_eq!(demod.rate_out, 2_000_000);
    assert_eq!(demod.rate_resample, 48_000);
}

#[test]
fn closest_rate_and_divisor_win() {
    let (radio, demod) = centered_iq_settings_with_rates(1, 170_000, &[3_000_000, 6_000_000]);
    assert_eq!(radio, RadioConfig { capture_freq: 1, capture_rate: 3_000_000 });
    assert_eq!(demod, config(18, 166_666, 48_000, false));
    let hf = [192_000, 256_000, 384_000, 768_000];
    let (radio, demod) = centered_iq_settings_with_rates(7, 170_000, &hf);
    assert_eq!(radio.capture_rate, 768_000);
    assert_eq!(demod, config(5, 153_600, 48_000, false));
}

#[test]
fn first_of_equally_close_rates_wins() {
    let (radio, demod) = centered_iq_settings_with_rates(7, 170_000, &[340_000, 170_000]);
    assert_eq!(radio.capture_rate, 340_000);
    assert_eq!(demod.downsample, 2);
    assert_eq!(demod.rate_out, 170_000);
}

#[test]
fn no_rates_fall_back_to_the_centred_settings() {
    assert_eq!(
        centered_iq_settings_with_rates(94_900_000, 170_000, &[]),
        centered_iq_settings(94_900_000, 170_000)
    );
}

#[test]
fn rates_that_work() {
    assert!(is_workable(&config(6, 170_000, 48_000, true)));
    assert!(is_workable(&config(255, 48_000, 48_000, true)));
    assert!(!is_workable(&config(256, 48_000, 48_000, true)));
    assert!(!is_workable(&config(6, 47_999, 48_000, true)));
    assert!(!are_rates_valid(&config(6, 48_000, 0, true)));
    // The sum of a block of turns would not fit.
    assert!(is_workable(&config(6, 131_071, 1, true)));
    assert!(!is_workable(&config(6, 131_072, 1, true)));
    assert!(are_rates_valid(&config(6, 131_072, 1, true)));
    assert!(are_rates_valid(&config(6, 1 << 30, 1 << 30, true)));
    assert!(!are_rates_valid(&config(6, (1 << 30) + 1, 1 << 30, true)));
}

#[test]
fn fast_angles() {
    assert_eq!(fast_atan2(0, 0), 0);
    assert_eq!(fast_atan2(0, 1), 0);
    assert_eq!(fast_atan2(1, 0), 8192);
    assert_eq!(fast_atan2(0, -1), 16384);
    assert_eq!(fast_atan2(-1, 0), -8192);
    assert_eq!(fast_atan2(1, 1), 4096);
    assert_eq!(fast_atan2(1, -1), 12288);
    assert_eq!(fast_atan2(-3, 4), -3511);
    assert_eq!(fast_atan2(5, 12), 2410);
}

#[test]
fn fast_angles_keep_the_low_word_of_the_scaled_difference() {
    assert_eq!(fast_atan2(1_000_000, 3), 3898);
    assert_eq!(fast_atan2(-1_000_000, -7), -12486);
}

#[test]
fn cross_multiplies_by_the_conjugate() {
    let a = Iq { re: 3, im: -7 };
    let b = Iq { re: 11, im: 5 };
    assert_eq!(cross(a, b), Iq { re: -2, im: -92 });
    assert_eq!(cross(b, a), Iq { re: -2, im: 92 });
}

#[test]
fn rotation_turns_whole_groups_only() {
    let mut b: Vec<u8> = (0..10).collect();
    rotate_90(&mut b);
    assert_eq!(b, vec![0, 1, 252, 2, 251, 250, 7, 249, 8, 9]);
}

#[test]
fn four_rotations_change_nothing() {
    let start = bytes(32, 37, 11);
    let mut b = start.clone();
    for _ in 0..4 {
        rotate_90(&mut b);
    }
    assert_eq!(b, start);
}

#[test]
fn odd_byte_is_dropped() {
    let s = bytes_to_complex(&[1, -2, 3]);
    assert_eq!(s, vec![Iq { re: 1, im: -2 }]);
}

#[test]
fn downsampling_adds_up() {
    let mut r = RtlFmReceiver::new(config(2, 170_000, 48_000, false));
    let low = r.downsample_complex(&bytes(10, 37, 11));
    assert_eq!(low, vec![Iq { re: -158, im: -84 }, Iq { re: 138, im: -44 }]);
    // The fifth sample waits for the next block.
    let low = r.downsample_complex(&[127, 128]);
    assert_eq!(low, vec![Iq { re: -76, im: -38 }]);
}

#[test]
fn mpx_of_two_blocks() {
    let mut r = RtlFmReceiver::new(config(2, 170_000, 48_000, false));
    let mpx = r.process_mpx(&bytes(32, 37, 11), measure);
    assert_eq!(mpx, vec![0, 12240, -14144, -4195, -4314, -14356, 12328, 12779]);
    let mpx = r.process_mpx(&bytes(20, 91, 200), measure);
    assert_eq!(mpx, vec![14043, -4534, 13034, 13851, -10831]);
}

#[test]
fn mpx_of_rotated_blocks() {
    let mut r = RtlFmReceiver::new(config(3, 170_000, 48_000, true));
    let mpx = r.process_mpx(&bytes(32, 37, 11), measure);
    assert_eq!(mpx, vec![0, -2192, -3336, -3996, -3996]);
    let mpx = r.process_mpx(&bytes(20, 91, 200), measure);
    assert_eq!(mpx, vec![15492, 9590, -10722]);
}

#[test]
fn mono_audio_of_two_blocks() {
    let mut r = RtlFmReceiver::new(config(1, 5, 2, false));
    let audio = r.process_mono_audio(&bytes(32, 37, 11), measure);
    assert_eq!(audio, vec![-7060, -10282, -132, -7103, -15909, 5524]);
    let audio = r.process_mono_audio(&bytes(20, 91, 200), measure);
    assert_eq!(audio, vec![10764, 10603, 9964, 12007]);
}

#[test]
fn mono_audio_at_the_usual_rates() {
    let mut r = RtlFmReceiver::new(config(2, 170_000, 48_000, true));
    assert_eq!(r.process_mono_audio(&bytes(32, 37, 11), measure), vec![-1655, -4335]);
    assert_eq!(r.process_mono_audio(&bytes(20, 91, 200), measure), vec![-8957]);
}

#[test]
fn empty_block_gives_nothing() {
    let mut r = RtlFmReceiver::new(config(6, 170_000, 48_000, true));
    assert!(r.process_mpx(&[], measure).is_empty());
    assert!(r.process_mono_audio(&[], measure).is_empty());
    assert!(r.fm_demod(Vec::new(), 5).is_empty());
}

#[test]
fn front_end_does_not_see_where_blocks_end() {
    let all = bytes(240, 53, 7);
    let mut whole = RtlFmReceiver::new(config(6, 170_000, 48_000, true));
    let mut parts = RtlFmReceiver::new(config(6, 170_000, 48_000, true));
    let expected = whole.downsample_complex(&all);
    let mut got = parts.downsample_complex(&all[..56]);
    got.extend(parts.downsample_complex(&all[56..]));
    assert_eq!(got, expected);
    assert_eq!(got.len(), 20);
}

#[test]
fn audio_decimation_does_not_see_where_blocks_end() {
    let turns: Vec<i32> = (0..50).map(|i| (i * 977) % 16000 - 8000).collect();
    let mut whole = RtlFmReceiver::new(config(6, 170_000, 48_000, true));
    let mut parts = RtlFmReceiver::new(config(6, 170_000, 48_000, true));
    let expected = whole.decimate_audio(turns.clone());
    let mut got = parts.decimate_audio(turns[..13].to_vec());
    got.extend(parts.decimate_audio(turns[13..].to_vec()));
    assert_eq!(got, expected);
    assert_eq!(got.len(), 50 * 48_000 / 170_000);
}

#[test]
fn demodulation_goes_on_from_the_last_sample() {
    let low: Vec<Iq> = (0..6).map(|i| Iq { re: 50 - 17 * i, im: 3 * i * i - 20 }).collect();
    let mut whole = RtlFmReceiver::new(config(6, 170_000, 48_000, true));
    let mut parts = RtlFmReceiver::new(config(6, 170_000, 48_000, true));
    let expected = whole.fm_demod(low.clone(), 9);
    let mut got = parts.fm_demod(low[..4].to_vec(), 9);
    let rest = low[4..].to_vec();
    let c = parts.first_turn(&rest);
    got.extend(parts.fm_demod(rest, fast_atan2(c.im, c.re)));
    assert_eq!(got, expected);
}

#[test]
fn decimator_keeps_its_phase() {
    let mut dec = StereoAudioDecimator::new(&config(6, 5, 2, true));
    assert_eq!(dec.ratio(), 2);
    assert_eq!(dec.process(&[0; 7], &[0; 9]), vec![3, 5]);
    // Two of the three frames of the next block have been taken.
    assert_eq!(dec.process(&[0; 6], &[0; 6]), vec![1, 3, 6]);
}

#[test]
fn decimator_at_the_highest_rates() {
    let mut dec = StereoAudioDecimator::new(&config(6, 1 << 30, 1 << 30, true));
    assert_eq!(dec.ratio(), 1);
    assert_eq!(dec.process(&[0; 3], &[0; 3]), vec![1, 2, 3]);
    assert_eq!(dec.process(&[0; 2], &[0; 2]), vec![1, 2]);
    let mut dec = StereoAudioDecimator::new(&config(6, 1 << 30, (1 << 30) - 1, true));
    assert_eq!(dec.process(&[0; 4], &[0; 4]), vec![2, 3, 4]);
}

#[test]
fn longest_block_of_full_turns_fits() {
    let mut r = RtlFmReceiver::new(config(6, 131_071, 1, false));
    assert_eq!(r.decimate_audio(vec![16_384; 131_071]), vec![16_384]);
}

#[test]
fn carrier_is_chosen_once() {
    let mut choice = CarrierChoice::new();
    for _ in 0..CARRIER_SETTLE_SAMPLES - 1 {
        assert!(!choice.observe(true));
    }
    assert!(choice.observe(true));
    assert!(choice.observe(false));

    let mut choice = CarrierChoice::new();
    for _ in 0..CARRIER_SETTLE_SAMPLES - 1 {
        choice.observe(true);
    }
    assert!(!choice.observe(false));
    assert!(!choice.observe(true));
}
