//! Keys, prompts and the state that they change.

use oscilloscope_me::app::{
    gain_position, AppEvent, AppState, EventEffect, InputSource, PromptKind, ShutdownFlag,
};
use oscilloscope_me::controls::{
    is_volume_down, is_volume_up, poll_millis, Key, RepeatFilter, FRAME_NANOS,
};
use oscilloscope_me::keys::{names_auto, parse_gain, Attached, GainError, KeyAction};

const MS: u64 = 1_000_000;

#[test]
fn blocks_immediate_repeat() {
    let t0 = 1_000 * MS;
    let mut f = RepeatFilter::new(t0);
    assert!(f.allow(Key::Down, t0));
    assert!(!f.allow(Key::Down, t0));
}

fn advance(f: &mut RepeatFilter, t0: u64, ms: u64) -> u64 {
    let now = t0 + ms * MS;
    f.tick(now);
    now
}

#[test]
fn allows_same_key_after_idle() {
    let t0 = 1_000 * MS;
    let mut f = RepeatFilter::new(t0);
    assert!(f.allow(Key::Down, t0));
    assert!(!f.allow(Key::Down, t0 + 50 * MS));
    let t1 = advance(&mut f, t0, 220);
    assert!(f.allow(Key::Down, t1));
}

#[test]
fn release_clears_held_key() {
    let t0 = 1_000 * MS;
    let mut f = RepeatFilter::new(t0);
    assert!(f.allow(Key::Up, t0));
    assert!(!f.allow(Key::Up, t0));
    f.release(Key::Up);
    assert!(f.allow(Key::Up, t0));
}

#[test]
fn held_key_survives_repeats_until_idle() {
    let t0 = 1_000 * MS;
    let mut f = RepeatFilter::new(t0);
    assert!(f.allow(Key::Down, t0));
    for ms in [40, 80, 120, 160] {
        let now = t0 + ms * MS;
        assert!(!f.allow(Key::Down, now));
        f.tick(now);
    }
    let late = t0 + 200 * MS;
    f.tick(late);
    assert!(!f.allow(Key::Down, late));
    let idle = t0 + 400 * MS;
    f.tick(idle);
    assert!(f.allow(Key::Down, idle));
}

#[test]
fn gap_itself_does_not_release() {
    let mut f = RepeatFilter::new(0);
    assert!(f.allow(Key::Char('+'), 0));
    f.tick(150 * MS);
    assert!(!f.allow(Key::Char('+'), 0));
    f.tick(150 * MS + 1);
    assert!(f.allow(Key::Char('+'), 0));
}

#[test]
fn observed_repeats_keep_a_key_held() {
    let mut f = RepeatFilter::new(0);
    assert!(f.allow(Key::Left, 0));
    f.observe(Key::Left, 100 * MS);
    f.observe(Key::Char('x'), 300 * MS);
    f.tick(240 * MS);
    assert!(!f.allow(Key::Left, 240 * MS));
}

#[test]
fn another_key_rearms() {
    let mut f = RepeatFilter::new(0);
    assert!(f.allow(Key::Char('<'), 0));
    assert!(f.allow(Key::Char('>'), 0));
    assert!(f.allow(Key::Char('<'), 0));
    assert!(f.allow(Key::Char('q'), 0));
    assert!(f.allow(Key::Char('q'), 0));
    assert!(f.allow(Key::Char('<'), 0));
    f.release(Key::Char('>'));
    assert!(!f.allow(Key::Char('<'), 0));
}

#[test]
fn volume_keys() {
    assert!(is_volume_up('+') && is_volume_up('='));
    assert!(is_volume_down('-') && is_volume_down('_'));
    assert!(!is_volume_up('-') && !is_volume_down('+') && !is_volume_up('u'));
}

#[test]
fn main_loop_waits_up_to_the_next_frame() {
    assert_eq!(poll_millis(0), 16);
    assert_eq!(poll_millis(3 * MS + 1), 12);
    assert_eq!(poll_millis(14 * MS), 2);
    assert_eq!(poll_millis(14 * MS + 1), 1);
    assert_eq!(poll_millis(FRAME_NANOS), 1);
    assert_eq!(poll_millis(u64::MAX), 1);
}

fn state() -> AppState<f32> {
    AppState::new(94_100_000, 0, -120.0, 1.0)
}

#[test]
fn initial_state() {
    let s = state();
    assert_eq!(s.input_source, InputSource::Sdr);
    assert_eq!(s.freq_hz, 94_100_000);
    assert_eq!(s.deemphasis_us, 75);
    assert_eq!(s.gain_index, 0);
    assert_eq!(s.gain_tenths, -1);
    assert_eq!(s.audio_device, "-");
    assert_eq!((s.peak_l, s.peak_r, s.volume), (-120.0, -120.0, 1.0));
    assert!(s.file_loop && !s.file_paused && !s.muted && !s.show_help && !s.mono_only);
    assert_eq!(s.prompt, None);
    assert_eq!(s.status_message, "");
}

#[test]
fn gain_labels() {
    let mut s = state();
    let mut labels = Vec::new();
    for _ in 0..5 {
        labels.push(s.gain_label());
        s.cycle_gain();
    }
    assert_eq!(labels, vec!["auto", "0.0 dB", "20.0 dB", "40.0 dB", "auto"]);
    assert_eq!(gain_position(200), Some(2));
    assert_eq!(gain_position(7), None);
}

#[test]
fn deemphasis_cycles() {
    let mut s = state();
    let mut labels = Vec::new();
    for _ in 0..4 {
        labels.push(s.deemphasis_label());
        s.cycle_deemphasis();
    }
    assert_eq!(labels, vec!["75", "50", "off", "75"]);
}

#[test]
fn initial_gain_is_a_step_or_automatic() {
    let mut s = state();
    s.set_initial_gain(400);
    assert_eq!((s.gain_index, s.gain_tenths), (3, 400));
    s.set_initial_gain(130);
    assert_eq!((s.gain_index, s.gain_tenths), (0, -1));
}

#[test]
fn gain_of_the_command_line() {
    assert_eq!(parse_gain("auto"), Ok(-1));
    assert_eq!(parse_gain("AuTo"), Ok(-1));
    assert_eq!(parse_gain("20"), Ok(200));
    assert_eq!(parse_gain("-3"), Ok(-30));
    assert_eq!(parse_gain("+4"), Ok(40));
    for bad in ["", "+", "2.5", " 20", "a"] {
        assert_eq!(parse_gain(bad), Err(GainError::NotANumber));
    }
    assert!(names_auto("auto") && names_auto("a") && !names_auto("automatic"));
}

#[test]
fn events_change_the_state() {
    let mut s = state();
    s.status_message = "waiting".to_string();
    let e = s.apply_event(AppEvent::SdrConnected { freq_hz: 5, gain_tenths: 200 });
    assert!(matches!(e, EventEffect::Nothing));
    assert!(s.sdr_connected);
    assert_eq!((s.freq_hz, s.gain_tenths, s.status_message.as_str()), (5, 200, ""));
    s.apply_event(AppEvent::SdrDisconnected("gone".to_string()));
    assert!(!s.sdr_connected);
    assert_eq!(s.status_message, "gone");
    let e = s.apply_event(AppEvent::FilePlaying {
        path: "a.mp3".to_string(),
        sample_rate: 48_000,
        loop_playback: false,
    });
    assert!(matches!(e, EventEffect::Announce(48_000)));
    assert_eq!((s.file_path.as_str(), s.file_loop), ("a.mp3", false));
    s.apply_event(AppEvent::FileFinished);
    assert_eq!(s.status_message, "Playback finished");
    let e = s.apply_event(AppEvent::StereoData {
        scope_left: vec![0.5],
        scope_right: vec![0.25],
        peak_l: -6.0,
        peak_r: -12.0,
    });
    assert_eq!((s.peak_l, s.peak_r), (-6.0, -12.0));
    match e {
        EventEffect::Trace { left, right } => assert_eq!((left, right), (vec![0.5], vec![0.25])),
        _ => panic!("expected a trace"),
    }
}

#[test]
fn plus_and_minus_tune_the_receiver() {
    let mut s = state();
    let a = s.press(Key::Char('+'), Attached::Receiver, "94.1");
    assert!(matches!(a, KeyAction::Tune(94_200_000)));
    let a = s.press(Key::Char('-'), Attached::Receiver, "94.2");
    assert!(matches!(a, KeyAction::Tune(94_100_000)));
    assert_eq!(s.freq_hz, 94_100_000);
    assert!(matches!(s.press(Key::Right, Attached::Receiver, ""), KeyAction::Tune(95_100_000)));
    assert!(matches!(s.press(Key::Char('<'), Attached::Receiver, ""), KeyAction::Tune(94_100_000)));
    s.show_frequency("94.1");
    assert_eq!(s.status_message, "94.1 MHz");
}

#[test]
fn tuning_stops_at_zero() {
    let mut s: AppState<f32> = AppState::new(50_000, 0, 0.0, 1.0);
    assert!(matches!(s.press(Key::Down, Attached::Receiver, ""), KeyAction::Tune(0)));
}

#[test]
fn plus_and_minus_are_volume_without_a_receiver() {
    let mut s = state();
    for attached in [Attached::File, Attached::Neither] {
        let a = s.press(Key::Char('='), attached, "");
        assert!(matches!(a, KeyAction::Volume { up: true }));
        let a = s.press(Key::Char('_'), attached, "");
        assert!(matches!(a, KeyAction::Volume { up: false }));
    }
    assert!(matches!(s.press(Key::Up, Attached::Neither, ""), KeyAction::Nothing));
}

#[test]
fn gain_key_cycles() {
    let mut s = state();
    let mut gains = Vec::new();
    for _ in 0..4 {
        match s.press(Key::Char('g'), Attached::Receiver, "") {
            KeyAction::SetGain(g) => gains.push(g),
            _ => panic!("expected a gain"),
        }
    }
    assert_eq!(gains, vec![0, 200, 400, -1]);
    assert_eq!(s.status_message, "gain auto");
}

#[test]
fn quit_keys() {
    let mut s = state();
    assert!(matches!(s.press(Key::Char('q'), Attached::Neither, ""), KeyAction::Quit));
    assert!(matches!(s.press(Key::Esc, Attached::File, ""), KeyAction::Quit));
}

#[test]
fn receiver_keys() {
    let mut s = state();
    assert!(matches!(s.press(Key::Char(' '), Attached::Receiver, ""), KeyAction::Mute(true)));
    assert_eq!(s.status_message, "muted");
    assert!(matches!(s.press(Key::Char(' '), Attached::Receiver, ""), KeyAction::Mute(false)));
    assert_eq!(s.status_message, "unmuted");
    assert!(matches!(s.press(Key::Char('m'), Attached::Receiver, ""), KeyAction::SetMono(true)));
    assert_eq!(s.status_message, "mono");
    assert!(matches!(s.press(Key::Char('m'), Attached::Receiver, ""), KeyAction::SetMono(false)));
    assert_eq!(s.status_message, "stereo");
    let a = s.press(Key::Char('d'), Attached::Receiver, "");
    assert!(matches!(a, KeyAction::SetDeemphasis(50)));
    assert_eq!(s.status_message, "de-emph 50");
    assert!(matches!(s.press(Key::Char('l'), Attached::Receiver, ""), KeyAction::Nothing));
}

#[test]
fn file_keys() {
    let mut s = state();
    assert!(matches!(s.press(Key::Char(' '), Attached::File, ""), KeyAction::Pause(true)));
    assert_eq!(s.status_message, "paused");
    let a = s.press(Key::Left, Attached::File, "");
    assert!(matches!(a, KeyAction::Seek { forward: false }));
    assert_eq!((s.file_paused, s.status_message.as_str()), (false, "seek -10s"));
    let a = s.press(Key::Char('>'), Attached::File, "");
    assert!(matches!(a, KeyAction::Seek { forward: true }));
    assert_eq!(s.status_message, "seek +10s");
    assert!(matches!(s.press(Key::Char('l'), Attached::File, ""), KeyAction::SetLoop(false)));
    assert_eq!(s.status_message, "loop off");
    assert!(matches!(s.press(Key::Char('r'), Attached::File, ""), KeyAction::Restart));
    assert_eq!(s.status_message, "restarted");
    s.press(Key::Char('f'), Attached::File, "");
    assert_eq!(
        s.status_message,
        "use --file to switch sources; restart without --file for SDR"
    );
    s.press(Key::Char('o'), Attached::File, "");
    assert_eq!(
        s.status_message,
        "use --file <path> or restart without --file to switch source"
    );
}

#[test]
fn help_toggles() {
    let mut s = state();
    s.press(Key::Char('h'), Attached::Receiver, "");
    assert!(s.show_help);
    s.press(Key::Char('?'), Attached::Receiver, "");
    assert!(!s.show_help);
}

fn type_in(s: &mut AppState<f32>, answer: &str) {
    for c in answer.chars() {
        s.press(Key::Char(c), Attached::Receiver, "94.1");
    }
}

#[test]
fn ppm_prompt() {
    let mut s = state();
    s.press(Key::Char('p'), Attached::Receiver, "94.1");
    assert_eq!(s.prompt, Some(PromptKind::Ppm));
    assert_eq!(s.status_message, "ppm correction [0]: ");
    type_in(&mut s, " -17x");
    assert_eq!(s.status_message, "ppm correction [0]:  -17x");
    s.press(Key::Backspace, Attached::Receiver, "94.1");
    assert_eq!(s.status_message, "ppm correction [0]:  -17");
    let a = s.press(Key::Enter, Attached::Receiver, "94.1");
    assert!(matches!(a, KeyAction::SetPpm(-17)));
    assert_eq!((s.ppm, s.status_message.as_str()), (-17, "ppm -17"));
    assert_eq!((s.prompt, s.prompt_buf.as_str()), (None, ""));
}

#[test]
fn bad_ppm_is_refused() {
    let mut s = state();
    s.press(Key::Char('p'), Attached::Receiver, "94.1");
    type_in(&mut s, "99999999999");
    assert!(matches!(s.press(Key::Enter, Attached::Receiver, ""), KeyAction::Nothing));
    assert_eq!((s.ppm, s.status_message.as_str()), (0, "bad ppm"));
}

#[test]
fn blank_answer_cancels() {
    let mut s = state();
    s.press(Key::Char('p'), Attached::Receiver, "94.1");
    type_in(&mut s, " \u{2003}\t");
    assert!(matches!(s.press(Key::Enter, Attached::Receiver, ""), KeyAction::Nothing));
    assert_eq!((s.prompt, s.status_message.as_str()), (None, "cancelled"));
}

#[test]
fn escape_cancels_a_prompt() {
    let mut s = state();
    s.press(Key::Char('f'), Attached::Receiver, "94.1");
    type_in(&mut s, "q");
    assert_eq!(s.status_message, "Frequency MHz [94.1]: q");
    assert!(matches!(s.press(Key::Esc, Attached::Receiver, ""), KeyAction::Nothing));
    assert_eq!((s.prompt, s.status_message.as_str()), (None, "cancelled"));
}

#[test]
fn freq_prompt() {
    let mut s = state();
    s.press(Key::Char('f'), Attached::Receiver, "94.1");
    assert_eq!(s.status_message, "Frequency MHz [94.1]: ");
    type_in(&mut s, "101.3");
    match s.press(Key::Enter, Attached::Receiver, "94.1") {
        KeyAction::ReadFreq(input) => assert_eq!(input, "101.3"),
        _ => panic!("expected a frequency"),
    }
    assert!(matches!(s.finish_freq(Some(101_300_000), "101.3"), KeyAction::Tune(101_300_000)));
    assert_eq!((s.freq_hz, s.status_message.as_str()), (101_300_000, "101.3 MHz"));
    assert!(matches!(s.finish_freq(None, ""), KeyAction::Nothing));
    assert_eq!(s.status_message, "bad frequency");
}

#[test]
fn gain_prompt() {
    let mut s = state();
    s.set_initial_gain(400);
    s.start_prompt(PromptKind::Gain, "Gain dB or 'auto'");
    assert_eq!(s.status_message, "Gain dB or 'auto': ");
    type_in(&mut s, "AUTO");
    assert_eq!(s.status_message, "Gain dB or 'auto' [40.0 dB]: AUTO");
    let a = s.press(Key::Enter, Attached::Receiver, "94.1");
    assert!(matches!(a, KeyAction::SetGain(-1)));
    assert_eq!((s.gain_index, s.status_message.as_str()), (0, "gain auto"));
    match s.answer(PromptKind::Gain, "12.5") {
        KeyAction::ReadGain(input) => assert_eq!(input, "12.5"),
        _ => panic!("expected a gain"),
    }
    assert!(matches!(s.finish_gain(Some(125)), KeyAction::SetGain(125)));
    assert_eq!((s.gain_index, s.status_message.as_str()), (1, "gain 0.0 dB"));
    assert!(matches!(s.finish_gain(Some(200)), KeyAction::SetGain(200)));
    assert_eq!((s.gain_index, s.status_message.as_str()), (2, "gain 20.0 dB"));
    assert!(matches!(s.finish_gain(None), KeyAction::Nothing));
    assert_eq!(s.status_message, "bad gain");
}

#[test]
fn keys_are_answers_while_a_question_is_asked() {
    let mut s = state();
    s.press(Key::Char('p'), Attached::Receiver, "94.1");
    assert!(matches!(s.press(Key::Char('q'), Attached::Receiver, ""), KeyAction::Nothing));
    assert_eq!(s.prompt_buf, "q");
    assert!(matches!(s.press(Key::Up, Attached::Receiver, ""), KeyAction::Nothing));
    assert_eq!(s.prompt_buf, "q");
    s.press(Key::Backspace, Attached::Receiver, "");
    s.press(Key::Backspace, Attached::Receiver, "");
    assert_eq!(s.prompt_buf, "");
}

#[test]
fn shutdown_is_seen_through_the_handle() {
    let flag = ShutdownFlag::new();
    let handle = flag.handle();
    assert!(!flag.is_set());
    flag.set();
    assert!(flag.is_set());
    assert!(handle.load(std::sync::atomic::Ordering::Relaxed));
    let other = ShutdownFlag::new();
    other.handle().store(true, std::sync::atomic::Ordering::Relaxed);
    assert!(other.is_set());
}
