//! Tuners and audio outputs.

use nusb::MaybeFuture;
use oscilloscope_me::airspyhf::{
    attenuation, format_hf_error, hf_settings_for_mpx, list_devices, missing_lib_message,
    usb_count, UsbId, PID, VID,
};
use oscilloscope_me::app::AppEvent;
use oscilloscope_me::audio::{
    buffer_frames, describe_demod_rate, first_match, format_rank, pick_output_config,
    pick_output_device, pick_sample_rate, rate_warning, OutputConfig, OutputDevice, SampleFormat,
};
use oscilloscope_me::demod::{DemodConfig, RadioConfig};
use oscilloscope_me::sdr::{
    airspy_gain_preset, airspy_samples, can_tune, detect_kind, device_count, device_summary,
    format_airspy_error, format_sdr_error, goes_on, is_busy, next_search, reconfigures,
    settings_for, tuner_gain, wait_step, CaptureAction, CaptureState, CommandEffect, DeviceEvent, SdrCommand, SdrKind,
    SearchStep, WaitStep,
};

const STATION: u32 = 94_100_000;

const RTL_DEMOD: DemodConfig = DemodConfig {
    downsample: 6,
    rate_out: 170_000,
    rate_resample: 48_000,
    rtl_rotate: true,
};

fn capture() -> CaptureState {
    CaptureState::new(STATION, 3, -1, false, 75)
}

#[test]
fn hf_usb_enumeration() {
    let ids = nusb::list_devices()
        .wait()
        .map(|devices| {
            devices
                .map(|d| UsbId {
                    vendor: d.vendor_id(),
                    product: d.product_id(),
                })
                .collect()
        })
        .unwrap_or_default();
    let n = usb_count(&ids);
    println!("Airspy HF+ usb_count = {n}");
}

#[test]
fn hf_devices_are_counted_by_their_ids() {
    let hf = UsbId { vendor: VID, product: PID };
    let mouse = UsbId { vendor: VID, product: 1 };
    let r2 = UsbId { vendor: 0x1d50, product: 0x60a1 };
    assert_eq!(usb_count(&vec![hf, mouse, hf, r2]), 2);
    assert_eq!(usb_count(&vec![]), 0);
}

#[test]
fn driver_count_goes_before_the_bus() {
    assert_eq!(list_devices(3, 1), 3);
    assert_eq!(list_devices(0, 1), 1);
    assert_eq!(list_devices(-1, 2), 2);
}

#[test]
fn hf_settings() {
    let (radio, demod) = hf_settings_for_mpx(STATION, &[912_000, 768_000, 456_000]);
    assert_eq!(radio, RadioConfig { capture_freq: STATION, capture_rate: 912_000 });
    assert_eq!((demod.downsample, demod.rate_out), (5, 182_400));
}

#[test]
fn hf_attenuation() {
    assert_eq!(attenuation(-1), None);
    assert_eq!(attenuation(0), Some(0));
    assert_eq!(attenuation(200), Some(33));
    assert_eq!(attenuation(287), Some(47));
    assert_eq!(attenuation(400), Some(48));
}

#[test]
fn hf_errors() {
    assert_eq!(format_hf_error(0), "success");
    assert_eq!(format_hf_error(-1), "Airspy HF+ I/O error (device busy or unplugged?)");
    assert_eq!(format_hf_error(-42), "Airspy HF+ error (-42)");
    assert_eq!(
        missing_lib_message(),
        "Airspy HF+ detected but libairspyhf is not available.\n\
         macOS: brew install airspyhf\n\
         Linux: sudo apt install libairspyhf-dev"
    );
}

#[test]
fn tuner_priority() {
    assert_eq!(detect_kind(1, 1, 1), Some(SdrKind::Rtl));
    assert_eq!(detect_kind(0, 2, 1), Some(SdrKind::Airspy));
    assert_eq!(detect_kind(0, 0, 1), Some(SdrKind::AirspyHf));
    assert_eq!(detect_kind(0, 0, 0), None);
    assert_eq!(device_count(1, 2, 3), 6);
}

#[test]
fn tuner_summary() {
    assert_eq!(device_summary(0, 0, 0), "no devices");
    assert_eq!(device_summary(2, 0, 0), "2 RTL-SDR");
    assert_eq!(device_summary(0, 1, 10), "1 Airspy R2/Mini, 10 Airspy HF+");
    assert_eq!(device_summary(1, 2, 3), "1 RTL-SDR, 2 Airspy R2/Mini, 3 Airspy HF+");
}

#[test]
fn waiting_for_a_tuner() {
    match wait_step(1, 0, 0, 7) {
        WaitStep::Found(line) => assert_eq!(line, "\rSDR detected (1 RTL-SDR)          "),
        WaitStep::Waiting(_) => panic!("there is one"),
    }
    let mut marks = String::new();
    for turn in 0..5 {
        match wait_step(0, 0, 0, turn) {
            WaitStep::Found(_) => panic!("there is none"),
            WaitStep::Waiting(line) => {
                let head = "\rWaiting for SDR (RTL-SDR, Airspy, or Airspy HF+)... ";
                assert!(line.starts_with(head) && line.ends_with("  "));
                marks.push_str(line[head.len()..].trim_end());
            }
        }
    }
    assert_eq!(marks, "|/-\\|");
}

#[test]
fn linearity_presets() {
    assert_eq!(airspy_gain_preset(-1), 8);
    assert_eq!(airspy_gain_preset(0), 10);
    assert_eq!(airspy_gain_preset(200), 20);
    assert_eq!(airspy_gain_preset(400), 21);
    assert_eq!(airspy_gain_preset(i32::MAX), 21);
    assert_eq!(tuner_gain(-1), None);
    assert_eq!(tuner_gain(200), Some(200));
}

#[test]
fn busy_dongle_brings_a_hint() {
    assert_eq!(format_sdr_error("No device".to_string()), "No device");
    let hinted = "Usb(Busy)\n\n\
        Another process may still have the dongle open (e.g. a previous run):\n\
        pkill -f oscilloscope-me\n\
        Unplug/replug the dongle, then try again.\n\n\
        Linux: kernel DVB driver may also be claiming it:\n\
        sudo rmmod rtl2832_sdr dvb_usb_rtl28xxu rtl2832 rtl8xxxu\n\
        Or add a udev rule (see README).";
    assert_eq!(format_sdr_error("Usb(Busy)".to_string()), hinted);
    // Another spelling brings the longer pause, but no hint.
    assert_eq!(format_sdr_error("BUSY".to_string()), "BUSY");
    assert!(is_busy("BUSY") && is_busy("Usb(Busy)") && !is_busy("bus y"));
}

#[test]
fn busy_airspy_brings_a_hint() {
    assert_eq!(format_airspy_error("timeout".to_string()), "timeout");
    let hinted = "device BUSY\n\n\
        Another process may still have the Airspy open (e.g. a previous run):\n\
        pkill -f oscilloscope-me\n\
        Unplug/replug the device, then try again.";
    assert_eq!(format_airspy_error("device BUSY".to_string()), hinted);
}

#[test]
fn airspy_bytes_are_little_endian() {
    let raw = [1, 0, 0, 1, 255, 255, 0x34, 0x12, 9];
    assert_eq!(airspy_samples(&raw), vec![1, 256, 65_535, 0x1234]);
    assert_eq!(airspy_samples(&raw[..7]), Vec::<u16>::new());
}

#[test]
fn airspy_bytes_can_be_cut_between_samples() {
    let raw: Vec<u8> = (0..40).collect();
    let mut parts = airspy_samples(&raw[..16]);
    parts.extend(airspy_samples(&raw[16..]));
    assert_eq!(parts, airspy_samples(&raw));
}

#[test]
fn settings_by_tuner() {
    let (radio, demod) = settings_for(SdrKind::Rtl, STATION, &[1]);
    assert_eq!(radio, RadioConfig { capture_freq: STATION + 255_000, capture_rate: 1_020_000 });
    assert_eq!(demod, RTL_DEMOD);
    let (radio, demod) = settings_for(SdrKind::Airspy, STATION, &[3_000_000, 6_000_000]);
    assert_eq!(radio, RadioConfig { capture_freq: STATION, capture_rate: 3_000_000 });
    assert_eq!((demod.downsample, demod.rtl_rotate), (18, false));
}

#[test]
fn stations_that_can_be_tuned() {
    let top = u32::MAX - 255_000;
    assert!(can_tune(SdrKind::Rtl, top, &[1]) && !can_tune(SdrKind::Rtl, top + 1, &[1]));
    assert!(can_tune(SdrKind::Airspy, top, &[]) && !can_tune(SdrKind::Airspy, top + 1, &[]));
    assert!(can_tune(SdrKind::AirspyHf, u32::MAX, &[768_000]));
}

#[test]
fn capture_starts_with_the_settings_of_a_dongle() {
    let st = capture();
    assert_eq!((st.freq_hz, st.ppm, st.gain_db, st.deemphasis_us), (STATION, 3, -1, 75));
    assert_eq!(st.demod_config, RTL_DEMOD);
}

#[test]
fn tuning_commands() {
    let mut st = capture();
    let e = st.handle_command(SdrKind::Rtl, &[], SdrCommand::SetFreq(100_000_000));
    assert_eq!(e, CommandEffect::Tune(100_255_000));
    assert_eq!((st.freq_hz, st.demod_config), (100_000_000, RTL_DEMOD));
    let rates = [3_000_000];
    let e = st.handle_command(SdrKind::Airspy, &rates, SdrCommand::SetFreq(90_000_000));
    assert_eq!(e, CommandEffect::Tune(90_000_000));
    assert_eq!(st.demod_config.downsample, 18);
    let e = st.handle_command(SdrKind::AirspyHf, &[768_000], SdrCommand::SetFreq(91_000_000));
    assert_eq!(e, CommandEffect::Tune(91_000_000));
    assert_eq!(st.demod_config.rate_out, 153_600);
}

#[test]
fn last_station_wins() {
    let mut twice = capture();
    let mut once = capture();
    twice.handle_command(SdrKind::Rtl, &[], SdrCommand::SetFreq(1_000_000));
    twice.handle_command(SdrKind::Rtl, &[], SdrCommand::SetFreq(2_000_000));
    once.handle_command(SdrKind::Rtl, &[], SdrCommand::SetFreq(2_000_000));
    assert_eq!(twice, once);
}

#[test]
fn gain_commands() {
    let mut st = capture();
    let e = st.handle_command(SdrKind::Rtl, &[], SdrCommand::SetGain(200));
    let radio = RadioConfig { capture_freq: STATION + 255_000, capture_rate: 1_020_000 };
    assert_eq!(e, CommandEffect::Setup { radio, gain_db: 200 });
    let e = st.handle_command(SdrKind::Airspy, &[3_000_000], SdrCommand::SetGain(400));
    assert_eq!(e, CommandEffect::Preset(21));
    let e = st.handle_command(SdrKind::AirspyHf, &[768_000], SdrCommand::SetGain(7));
    assert_eq!(e, CommandEffect::Gain(7));
    assert_eq!((st.gain_db, st.freq_hz), (7, STATION));
}

#[test]
fn other_commands() {
    let mut st = capture();
    let e = st.handle_command(SdrKind::Rtl, &[], SdrCommand::SetMono(true));
    assert_eq!((e, st.mono_only), (CommandEffect::Restart, true));
    let e = st.handle_command(SdrKind::Airspy, &[], SdrCommand::SetDeemphasis(50));
    assert_eq!((e, st.deemphasis_us), (CommandEffect::Deemphasis(50), 50));
    let e = st.handle_command(SdrKind::Rtl, &[], SdrCommand::SetPpm(9));
    assert_eq!((e, st.ppm), (CommandEffect::Correct(9), 9));
    let e = st.handle_command(SdrKind::Airspy, &[], SdrCommand::SetPpm(10));
    assert_eq!((e, st.ppm), (CommandEffect::Nothing, 10));
    let e = st.handle_command(SdrKind::AirspyHf, &[], SdrCommand::SetPpm(11));
    assert_eq!((e, st.ppm), (CommandEffect::Nothing, 10));
    assert_eq!(st.demod_config, RTL_DEMOD);
    let event: AppEvent<f32> = st.connected();
    assert!(matches!(
        event,
        AppEvent::SdrConnected { freq_hz: STATION, gain_tenths: -1 }
    ));
}

#[test]
fn listening_commands_need_no_settings() {
    let mut st = capture();
    st.freq_hz = u32::MAX;
    let e = st.handle_command(SdrKind::Rtl, &[], SdrCommand::SetMono(true));
    assert_eq!(e, CommandEffect::Restart);
    let e = st.handle_command(SdrKind::Rtl, &[], SdrCommand::SetPpm(1));
    assert_eq!(e, CommandEffect::Correct(1));
}

#[test]
fn accepted_settings_reconfigure() {
    let radio = RadioConfig { capture_freq: 1, capture_rate: 2 };
    let settings = [
        CommandEffect::Tune(1),
        CommandEffect::Setup { radio, gain_db: 3 },
        CommandEffect::Preset(8),
        CommandEffect::Gain(-1),
    ];
    for effect in settings {
        assert!(reconfigures(effect, true));
        assert!(!reconfigures(effect, false));
    }
    let others = [
        CommandEffect::Nothing,
        CommandEffect::Correct(1),
        CommandEffect::Restart,
        CommandEffect::Deemphasis(50),
    ];
    for effect in others {
        assert!(!reconfigures(effect, true));
    }
}

#[test]
fn running_capture_goes_on_until_stopped() {
    for action in [CaptureAction::Run, CaptureAction::Demodulate, CaptureAction::Wait] {
        assert!(goes_on(&action, false));
        assert!(!goes_on(&action, true));
    }
    let close = CaptureAction::Close { message: "gone".to_string() };
    assert!(!goes_on(&close, false));
    let retry = CaptureAction::Retry { message: "gone".to_string(), pause_ms: 1 };
    assert!(!goes_on(&retry, false));
    let radio = RadioConfig { capture_freq: 1, capture_rate: 2 };
    let setup = CaptureAction::Setup { correction: None, radio, gain_db: 3 };
    assert!(!goes_on(&setup, false));
}

#[test]
fn scope_takes_audio_in_mono() {
    let mut st = capture();
    let long: Vec<i32> = (0..384).collect();
    let (l, r) = st.scope_frame(&[1, 2], &[3, 4], &long, &long);
    assert_eq!((l.len(), l[1], r[191]), (192, 2, 382));
    st.mono_only = true;
    assert_eq!(st.scope_frame(&[1, 2], &[3, 4], &long, &long), (vec![1, 2], vec![3, 4]));
}

#[test]
fn opened_device_is_set_up() {
    let mut st = capture();
    match st.answer(SdrKind::Rtl, DeviceEvent::Opened(vec![])) {
        CaptureAction::Setup { correction, radio, gain_db } => {
            assert_eq!(correction, Some(3));
            assert_eq!(radio.capture_freq, STATION + 255_000);
            assert_eq!(gain_db, -1);
        }
        _ => panic!("expected a setup"),
    }
    match st.answer(SdrKind::Airspy, DeviceEvent::Opened(vec![3_000_000])) {
        CaptureAction::Setup { correction, radio, .. } => {
            assert_eq!(correction, None);
            assert_eq!(radio.capture_rate, 3_000_000);
        }
        _ => panic!("expected a setup"),
    }
    assert_eq!(st.demod_config.downsample, 18);
    st.ppm = 0;
    match st.answer(SdrKind::Rtl, DeviceEvent::Opened(vec![])) {
        CaptureAction::Setup { correction, .. } => assert_eq!(correction, None),
        _ => panic!("expected a setup"),
    }
    assert!(matches!(st.answer(SdrKind::Rtl, DeviceEvent::Started), CaptureAction::Run));
}

fn retried(kind: SdrKind, event: DeviceEvent) -> (String, u64) {
    match capture().answer(kind, event) {
        CaptureAction::Retry { message, pause_ms } => (message, pause_ms),
        _ => panic!("expected another try"),
    }
}

fn closed(kind: SdrKind, event: DeviceEvent) -> String {
    match capture().answer(kind, event) {
        CaptureAction::Close { message } => message,
        _ => panic!("expected the end"),
    }
}

#[test]
fn failed_devices_are_tried_again() {
    let gone = || "gone".to_string();
    assert_eq!(retried(SdrKind::Rtl, DeviceEvent::OpenFailed(gone())), (gone(), 1000));
    let (message, pause) = retried(SdrKind::Rtl, DeviceEvent::OpenFailed("Busy".to_string()));
    assert!(message.starts_with("Busy\n\nAnother process"));
    assert_eq!(pause, 2000);
    let busy = "busy".to_string();
    assert_eq!(
        retried(SdrKind::AirspyHf, DeviceEvent::OpenFailed(busy.clone())),
        (busy.clone(), 1000)
    );
    let (message, pause) = retried(SdrKind::Airspy, DeviceEvent::SetupFailed(busy));
    assert!(message.contains("the Airspy open"));
    assert_eq!(pause, 1000);
    assert_eq!(
        retried(SdrKind::AirspyHf, DeviceEvent::DriverMissing),
        (missing_lib_message().to_string(), 2000)
    );
}

#[test]
fn short_reads_end_a_capture() {
    let block = 262_144;
    let mut st = capture();
    let whole = DeviceEvent::Read { got: block, block };
    assert!(matches!(st.answer(SdrKind::Rtl, whole), CaptureAction::Demodulate));
    let short = DeviceEvent::Read { got: block - 1, block };
    assert_eq!(
        closed(SdrKind::Rtl, short),
        "Short read from SDR — device may have been unplugged."
    );
    let enough = DeviceEvent::Read { got: 4096, block };
    assert!(matches!(st.answer(SdrKind::Airspy, enough), CaptureAction::Demodulate));
    assert_eq!(
        closed(SdrKind::Airspy, DeviceEvent::Read { got: 4095, block }),
        "Short read from Airspy — device may have been unplugged."
    );
    let nothing = DeviceEvent::Read { got: 0, block };
    assert!(matches!(st.answer(SdrKind::AirspyHf, nothing), CaptureAction::Wait));
    let some = DeviceEvent::Read { got: 1, block };
    assert!(matches!(st.answer(SdrKind::AirspyHf, some), CaptureAction::Demodulate));
    assert!(matches!(st.answer(SdrKind::AirspyHf, DeviceEvent::Idle), CaptureAction::Wait));
    assert_eq!(
        closed(SdrKind::AirspyHf, DeviceEvent::Ended),
        "Airspy HF+ stream ended — device may have been unplugged."
    );
    assert_eq!(closed(SdrKind::Rtl, DeviceEvent::ReadFailed("pipe".to_string())), "pipe");
    assert_eq!(st, capture());
}

#[test]
fn search_for_tuners() {
    assert!(matches!(next_search(true, Some(SdrKind::Rtl)), SearchStep::Stop));
    assert!(matches!(
        next_search(false, Some(SdrKind::Airspy)),
        SearchStep::Capture(SdrKind::Airspy)
    ));
    match next_search(false, None) {
        SearchStep::Again { message, pause_ms } => {
            assert_eq!(message, "No SDR detected — waiting to reconnect…");
            assert_eq!(pause_ms, 1000);
        }
        _ => panic!("expected another search"),
    }
}

fn names() -> Vec<Option<String>> {
    vec![
        None,
        Some("Built-in Output".to_string()),
        Some("USB DAC ÄÖ".to_string()),
        Some("usb dac 2".to_string()),
    ]
}

#[test]
fn output_device_by_name() {
    let r = pick_output_device(Some("Dac"), &names(), true);
    assert_eq!(r, Ok(OutputDevice::Listed(2)));
    let r = pick_output_device(Some("äÖ"), &names(), false);
    assert_eq!(r, Ok(OutputDevice::Listed(2)));
    let r = pick_output_device(Some("HDMI"), &names(), true);
    assert_eq!(r, Err("No audio output device matching 'HDMI'".to_string()));
    assert_eq!(first_match(&names(), "usb"), Some(3));
    assert_eq!(first_match(&names(), "Usb"), None);
}

#[test]
fn default_output_device() {
    assert_eq!(pick_output_device(None, &names(), true), Ok(OutputDevice::Default));
    assert_eq!(
        pick_output_device(None, &names(), false),
        Err("No default audio output device".to_string())
    );
}

fn range(min_rate: u32, max_rate: u32, format: SampleFormat) -> OutputConfig {
    OutputConfig {
        min_rate,
        max_rate,
        format,
    }
}

#[test]
fn sample_rates_by_preference() {
    let wide = vec![range(44_100, 192_000, SampleFormat::I16)];
    assert_eq!(pick_sample_rate(&wide, 192_000), Some(192_000));
    assert_eq!(pick_sample_rate(&wide, 384_000), Some(192_000));
    assert_eq!(pick_sample_rate(&wide, 88_200), Some(88_200));
    let cd = vec![range(44_100, 44_100, SampleFormat::I16)];
    assert_eq!(pick_sample_rate(&cd, 192_000), Some(44_100));
    let odd = vec![range(8_000, 8_000, SampleFormat::I16)];
    assert_eq!(pick_sample_rate(&odd, 192_000), None);
    assert_eq!(
        pick_sample_rate(&vec![range(96_000, 192_000, SampleFormat::I16)], 1),
        Some(192_000)
    );
    let middle = vec![
        range(48_000, 48_000, SampleFormat::I16),
        range(44_100, 44_100, SampleFormat::I16),
        range(96_000, 96_000, SampleFormat::I16),
    ];
    assert_eq!(pick_sample_rate(&middle, 192_000), Some(96_000));
    assert_eq!(pick_sample_rate(&middle[..2].to_vec(), 192_000), Some(48_000));
}

#[test]
fn output_config_by_rank() {
    let configs = vec![
        range(48_000, 48_000, SampleFormat::Other),
        range(48_000, 48_000, SampleFormat::I32),
        range(44_100, 48_000, SampleFormat::U16),
        range(48_000, 96_000, SampleFormat::U16),
        range(44_100, 44_100, SampleFormat::Float32),
    ];
    assert_eq!(pick_output_config(&configs, 48_000), Ok(2));
    assert_eq!(pick_output_config(&configs, 44_100), Ok(4));
    let none = Err("No supported config for chosen sample rate".to_string());
    assert_eq!(pick_output_config(&configs, 8_000), none);
    assert_eq!(pick_output_config(&configs[..1].to_vec(), 48_000), none);
}

#[test]
fn format_ranks() {
    let order = [
        SampleFormat::Float32,
        SampleFormat::I16,
        SampleFormat::U16,
        SampleFormat::I32,
        SampleFormat::Float64,
        SampleFormat::I8,
        SampleFormat::U8,
    ];
    for (rank, format) in order.into_iter().enumerate() {
        assert_eq!(format_rank(format), Some(rank as u8));
    }
    assert_eq!(format_rank(SampleFormat::Other), None);
}

#[test]
fn buffer_sizes() {
    assert_eq!(buffer_frames(16, 4096), 1024);
    assert_eq!(buffer_frames(2048, 4096), 2048);
    assert_eq!(buffer_frames(16, 512), 512);
}

#[test]
fn rates_are_described() {
    assert_eq!(rate_warning(192_000, 192_000), None);
    assert_eq!(
        rate_warning(48_000, 192_000),
        Some(
            "Warning: device supports max 48000 Hz (requested 192000 Hz). \
             Playback will be resampled."
                .to_string()
        )
    );
    assert_eq!(
        describe_demod_rate(48_000, 192_000),
        "Demod output: 48000 Hz -> resampled to 192000 Hz for playback"
    );
    assert_eq!(
        describe_demod_rate(48_000, 48_000),
        "Demod output: 48000 Hz (no resampling needed)"
    );
}
