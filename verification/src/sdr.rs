//! Tuners: which one is used, how it is set, and what the capture does with what
//! it answers.

use crate::airspyhf;
use crate::airspyhf::missing_lib_message;
use crate::app::AppEvent;
use crate::demod::fm;
use crate::demod::fm::{
    centered_iq_settings_with_rates, optimal_settings, DemodConfig, RadioConfig, MPX_SAMPLE_RATE,
};
use crate::display;
use crate::display::{decimate_scope_pair, SCOPE_POINTS};
use crate::text;
use vstd::prelude::*;
use vstd::string::*;

verus! {

/// The tuners that can be driven.
#[derive(Clone, Copy, Debug, PartialEq, Eq, Structural)]
pub enum SdrKind {
    Rtl,
    Airspy,
    AirspyHf,
}

/// What the application asks of the capture.
#[derive(Clone, Copy, Debug, PartialEq, Eq, Structural)]
pub enum SdrCommand {
    SetFreq(u32),
    SetGain(i32),
    SetMono(bool),
    SetPpm(i32),
    SetDeemphasis(u8),
}

/// The number of tuners.
pub fn device_count(rtl: usize, airspy: usize, hf: usize) -> (n: usize)
    requires
        rtl + airspy + hf <= usize::MAX,
    ensures
        n == rtl + airspy + hf,
{
    rtl + airspy + hf
}

/// The tuner that is used: an RTL dongle before an Airspy before an HF+.
pub open spec fn detected(rtl: int, airspy: int, hf: int) -> Option<SdrKind> {
    if rtl > 0 {
        Some(SdrKind::Rtl)
    } else if airspy > 0 {
        Some(SdrKind::Airspy)
    } else if hf > 0 {
        Some(SdrKind::AirspyHf)
    } else {
        None
    }
}

/// Picks the tuner, from the number of each kind.
pub fn detect_kind(rtl: usize, airspy: usize, hf: usize) -> (r: Option<SdrKind>)
    ensures
        r == detected(rtl as int, airspy as int, hf as int),
{
    if rtl > 0 {
        Some(SdrKind::Rtl)
    } else if airspy > 0 {
        Some(SdrKind::Airspy)
    } else if hf > 0 {
        Some(SdrKind::AirspyHf)
    } else {
        None
    }
}

/// The text with one more entry, if there are any of it.
pub open spec fn with_part(list: Seq<char>, n: nat, label: Seq<char>) -> Seq<char> {
    if n == 0 {
        list
    } else if list.len() == 0 {
        text::decimal(n) + label
    } else {
        list + ", "@ + text::decimal(n) + label
    }
}

/// The tuners by kind and number.
pub open spec fn summary(rtl: nat, airspy: nat, hf: nat) -> Seq<char> {
    let list = with_part(
        with_part(with_part(Seq::empty(), rtl, " RTL-SDR"@), airspy, " Airspy R2/Mini"@),
        hf,
        " Airspy HF+"@,
    );
    if list.len() == 0 {
        "no devices"@
    } else {
        list
    }
}

/// Appends an entry. `first` says that the list is still empty.
fn push_part(list: &mut String, first: bool, n: usize, label: &str)
    requires
        first == (old(list)@.len() == 0),
    ensures
        final(list)@ == with_part(old(list)@, n as nat, label@),
{
    if n > 0 {
        if !first {
            list.append(", ");
        }
        text::push_decimal(list, n as u64);
        list.append(label);
        assert(list@ =~= with_part(old(list)@, n as nat, label@));
    }
}

/// Lists the tuners.
pub fn device_summary(rtl: usize, airspy: usize, hf: usize) -> (r: String)
    ensures
        r@ == summary(rtl as nat, airspy as nat, hf as nat),
{
    proof {
        lemma_decimal_nonempty(rtl as nat);
        lemma_decimal_nonempty(airspy as nat);
        lemma_decimal_nonempty(hf as nat);
    }
    let mut list: String = String::new();
    assert(list@ =~= Seq::empty());
    push_part(&mut list, true, rtl, " RTL-SDR");
    push_part(&mut list, rtl == 0, airspy, " Airspy R2/Mini");
    push_part(&mut list, rtl == 0 && airspy == 0, hf, " Airspy HF+");
    if rtl == 0 && airspy == 0 && hf == 0 {
        "no devices".to_owned()
    } else {
        list
    }
}

proof fn lemma_decimal_nonempty(n: nat)
    ensures
        text::decimal(n).len() > 0,
{
}

/// A tuner is used exactly where there is one, and it is one that is there.
pub proof fn lemma_detected(rtl: nat, airspy: nat, hf: nat)
    ensures
        detected(rtl as int, airspy as int, hf as int) is None <==> rtl + airspy + hf == 0,
        detected(rtl as int, airspy as int, hf as int) == Some(SdrKind::Rtl) <==> rtl > 0,
        detected(rtl as int, airspy as int, hf as int) == Some(SdrKind::Airspy) <==> rtl == 0
            && airspy > 0,
        detected(rtl as int, airspy as int, hf as int) == Some(SdrKind::AirspyHf) <==> rtl == 0
            && airspy == 0 && hf > 0,
{
}

/// What is shown while the program waits for a tuner.
pub enum WaitStep {
    /// There is one: show the text and go on.
    Found(String),
    /// There is none: show the text and look again.
    Waiting(String),
}

/// The marks that take turns while the program waits.
pub open spec fn spinner(turn: int) -> char {
    if turn % 4 == 0 {
        '|'
    } else if turn % 4 == 1 {
        '/'
    } else if turn % 4 == 2 {
        '-'
    } else {
        '\\'
    }
}

/// Looks at the tuners for the `turn`th time.
pub fn wait_step(rtl: usize, airspy: usize, hf: usize, turn: usize) -> (r: WaitStep)
    requires
        rtl + airspy + hf <= usize::MAX,
    ensures
        r is Found <==> rtl + airspy + hf > 0,
        r matches WaitStep::Found(line) ==> line@ == "\rSDR detected ("@ + summary(
            rtl as nat,
            airspy as nat,
            hf as nat,
        ) + ")          "@,
        r matches WaitStep::Waiting(line) ==> line@
            == ("\rWaiting for SDR (RTL-SDR, Airspy, or Airspy HF+)... "@.push(
            spinner(turn as int),
        ) + "  "@),
{
    if device_count(rtl, airspy, hf) > 0 {
        let mut line: String = "\rSDR detected (".to_owned();
        let list: String = device_summary(rtl, airspy, hf);
        line.append(list.as_str());
        line.append(")          ");
        WaitStep::Found(line)
    } else {
        let mut line: String =
            "\rWaiting for SDR (RTL-SDR, Airspy, or Airspy HF+)... ".to_owned();
        let mark: char = match turn % 4 {
            0 => '|',
            1 => '/',
            2 => '-',
            _ => '\\',
        };
        line.push(mark);
        line.append("  ");
        WaitStep::Waiting(line)
    }
}

/// The linearity preset of an Airspy for a gain.
pub open spec fn linearity_preset(gain_db: int) -> int {
    if gain_db < 0 {
        8
    } else if 10 + gain_db / 20 > 21 {
        21
    } else {
        10 + gain_db / 20
    }
}

/// Picks the linearity preset. A negative gain takes a moderate one, as the
/// presets for sensitivity overload on strong local stations.
pub fn airspy_gain_preset(gain_db: i32) -> (r: u8)
    ensures
        r == linearity_preset(gain_db as int),
{
    if gain_db < 0 {
        8
    } else {
        let preset: i32 = 10 + gain_db / 20;
        if preset > 21 {
            21
        } else {
            preset as u8
        }
    }
}

/// The presets stay in the range of the device and grow with the gain.
pub proof fn lemma_preset(low: int, high: int)
    requires
        low <= high,
    ensures
        8 <= linearity_preset(low) <= linearity_preset(high) <= 21,
{
}

/// The gain of an RTL dongle: `None` leaves it to the tuner.
pub fn tuner_gain(gain_db: i32) -> (r: Option<i32>)
    ensures
        r == (if gain_db < 0 {
            None
        } else {
            Some(gain_db)
        }),
{
    if gain_db < 0 {
        None
    } else {
        Some(gain_db)
    }
}

/// What is added to the message of an RTL dongle that is in use.
pub open spec fn rtl_hint() -> Seq<char> {
    "\n\nAnother process may still have the dongle open (e.g. a previous run):\npkill -f oscilloscope-me\nUnplug/replug the dongle, then try again.\n\nLinux: kernel DVB driver may also be claiming it:\nsudo rmmod rtl2832_sdr dvb_usb_rtl28xxu rtl2832 rtl8xxxu\nOr add a udev rule (see README)."@
}

/// What is added to the message of an Airspy that is in use.
pub open spec fn airspy_hint() -> Seq<char> {
    "\n\nAnother process may still have the Airspy open (e.g. a previous run):\npkill -f oscilloscope-me\nUnplug/replug the device, then try again."@
}

/// The message of an RTL dongle says that it is in use.
pub open spec fn rtl_busy(msg: Seq<char>) -> bool {
    text::has_part(msg, "Busy"@) || text::has_part(msg, "busy"@)
}

/// The message says in letters of either case that the tuner is in use.
pub open spec fn busy(msg: Seq<char>) -> bool {
    text::has_part(text::ascii_lowercase(msg), "busy"@)
}

/// What is shown for the message of a tuner.
pub open spec fn shown(kind: SdrKind, msg: Seq<char>) -> Seq<char> {
    match kind {
        SdrKind::Rtl => if rtl_busy(msg) {
            msg + rtl_hint()
        } else {
            msg
        },
        SdrKind::Airspy => if busy(msg) {
            msg + airspy_hint()
        } else {
            msg
        },
        SdrKind::AirspyHf => msg,
    }
}

/// The message says in letters of either case that the tuner is in use.
pub fn is_busy(msg: &str) -> (r: bool)
    ensures
        r == busy(msg@),
{
    let lower: Vec<char> = text::to_ascii_lower(&text::chars_of(msg));
    text::contains(&lower, &text::chars_of("busy"))
}

/// What is shown for the message of an RTL dongle.
pub fn format_sdr_error(msg: String) -> (r: String)
    ensures
        r@ == shown(SdrKind::Rtl, msg@),
{
    let chars: Vec<char> = text::chars_of(msg.as_str());
    let mut out: String = msg;
    if text::contains(&chars, &text::chars_of("Busy")) || text::contains(
        &chars,
        &text::chars_of("busy"),
    ) {
        out.append(
            "\n\nAnother process may still have the dongle open (e.g. a previous run):\npkill -f oscilloscope-me\nUnplug/replug the dongle, then try again.\n\nLinux: kernel DVB driver may also be claiming it:\nsudo rmmod rtl2832_sdr dvb_usb_rtl28xxu rtl2832 rtl8xxxu\nOr add a udev rule (see README).",
        );
    }
    out
}

/// What is shown for the message of an Airspy.
pub fn format_airspy_error(msg: String) -> (r: String)
    ensures
        r@ == shown(SdrKind::Airspy, msg@),
{
    let in_use: bool = is_busy(msg.as_str());
    let mut out: String = msg;
    if in_use {
        out.append(
            "\n\nAnother process may still have the Airspy open (e.g. a previous run):\npkill -f oscilloscope-me\nUnplug/replug the device, then try again.",
        );
    }
    out
}

/// What is shown for the message of a tuner.
pub fn format_error(kind: SdrKind, msg: String) -> (r: String)
    ensures
        r@ == shown(kind, msg@),
{
    match kind {
        SdrKind::Rtl => format_sdr_error(msg),
        SdrKind::Airspy => format_airspy_error(msg),
        SdrKind::AirspyHf => msg,
    }
}

/// A dongle whose message brings the hint is also given the longer pause.
pub proof fn lemma_hint_means_busy(msg: Seq<char>)
    requires
        rtl_busy(msg),
    ensures
        busy(msg),
{
    reveal_strlit("Busy");
    reveal_strlit("busy");
    let lower = text::ascii_lowercase(msg);
    let part = if text::has_part(msg, "Busy"@) {
        "Busy"@
    } else {
        "busy"@
    };
    let i = choose|i: int| #[trigger] text::stands_at(msg, part, i);
    assert forall|k: int| 0 <= k < 4 implies #[trigger] lower.subrange(i, i + 4)[k] == "busy"@[k] by {
        assert(msg.subrange(i, i + 4)[k] == part[k]);
    }
    assert(lower.subrange(i, i + 4) =~= "busy"@);
    assert(text::stands_at(lower, "busy"@, i));
}

/// The message of a tuner is shown whole, with a hint behind it at most.
pub proof fn lemma_message_shown(kind: SdrKind, msg: Seq<char>)
    ensures
        msg.is_prefix_of(shown(kind, msg)),
{
    assert(msg =~= shown(kind, msg).take(msg.len() as int));
}

// ---------------------------------------------------------------------------
// Samples of an Airspy
// ---------------------------------------------------------------------------

/// Reads shorter than this end the capture of an Airspy.
pub const AIRSPY_MIN_READ: usize = 4096;

/// Fewer samples than this are not worth converting.
pub const MIN_RAW_SAMPLES: usize = 4;

/// The samples in the bytes of an Airspy: 16 bits each, the low byte first. A
/// byte left over at the end is dropped.
pub open spec fn raw_samples(raw: Seq<u8>) -> Seq<u16> {
    Seq::new(raw.len() / 2, |k: int| (raw[2 * k] + 256 * raw[2 * k + 1]) as u16)
}

/// Reads the samples, or none at all where there are too few.
pub fn airspy_samples(raw: &[u8]) -> (r: Vec<u16>)
    ensures
        r@ == (if raw_samples(raw@).len() < MIN_RAW_SAMPLES {
            Seq::empty()
        } else {
            raw_samples(raw@)
        }),
{
    let stored: usize = raw.len();
    let n: usize = stored / 2;
    let mut out: Vec<u16> = Vec::new();
    if n < MIN_RAW_SAMPLES {
        assert(out@ =~= Seq::empty());
        return out;
    }
    let mut k: usize = 0;
    while k < n
        invariant
            stored == raw@.len(),
            n == stored / 2,
            k <= n,
            out@ == raw_samples(raw@).take(k as int),
        decreases n - k,
    {
        let low: u16 = raw[2 * k] as u16;
        let high: u16 = raw[2 * k + 1] as u16;
        out.push(low + 256 * high);
        assert(out@ =~= raw_samples(raw@).take(k + 1));
        k = k + 1;
    }
    assert(raw_samples(raw@).take(n as int) =~= raw_samples(raw@));
    out
}

/// Two stretches of bytes are read as the whole they make up, if the first holds
/// whole samples.
pub proof fn lemma_raw_in_parts(a: Seq<u8>, b: Seq<u8>)
    requires
        a.len() % 2 == 0,
    ensures
        raw_samples(a + b) == raw_samples(a) + raw_samples(b),
{
    assert((a + b).len() / 2 == a.len() / 2 + b.len() / 2);
    assert forall|k: int| 0 <= k < raw_samples(a + b).len() implies raw_samples(a + b)[k] == (
    raw_samples(a) + raw_samples(b))[k] by {
        if k < a.len() / 2 {
        } else {
            let j = k - a.len() / 2;
            assert((a + b)[2 * k] == b[2 * j]);
            assert((a + b)[2 * k + 1] == b[2 * j + 1]);
        }
    }
    assert(raw_samples(a + b) =~= raw_samples(a) + raw_samples(b));
}

// ---------------------------------------------------------------------------
// Settings
// ---------------------------------------------------------------------------

/// The settings of a tuner for a station. `supported` are the sample rates that
/// an Airspy or an HF+ offers.
pub open spec fn settings_of(
    kind: SdrKind,
    freq_hz: u32,
    supported: Seq<u32>,
    r: (RadioConfig, DemodConfig),
) -> bool {
    match kind {
        SdrKind::Rtl => fm::is_offset(freq_hz, MPX_SAMPLE_RATE, r),
        _ => fm::is_closest(freq_hz, MPX_SAMPLE_RATE, supported, r),
    }
}

/// The one pair of settings that fits.
pub open spec fn settings(kind: SdrKind, freq_hz: u32, supported: Seq<u32>) -> (
    RadioConfig,
    DemodConfig,
) {
    choose|r: (RadioConfig, DemodConfig)| settings_of(kind, freq_hz, supported, r)
}

/// The settings for a station can be held in 32 bits.
pub open spec fn tunable(kind: SdrKind, freq_hz: u32, supported: Seq<u32>) -> bool {
    kind is Rtl || supported.len() == 0 ==> fm::settings_fit(freq_hz as int, MPX_SAMPLE_RATE as int)
}

/// How far above the station an RTL dongle is tuned: a quarter of its capture
/// rate.
pub const RTL_OFFSET_HZ: u32 = 255_000;

/// Whether a tuner can be set to a station.
pub fn can_tune(kind: SdrKind, freq_hz: u32, supported: &[u32]) -> (r: bool)
    ensures
        r == tunable(kind, freq_hz, supported@),
{
    proof {
        assert(fm::capture_rate_for(MPX_SAMPLE_RATE as int) == 4 * RTL_OFFSET_HZ);
    }
    match kind {
        SdrKind::Rtl => freq_hz <= u32::MAX - RTL_OFFSET_HZ,
        _ => supported.len() > 0 || freq_hz <= u32::MAX - RTL_OFFSET_HZ,
    }
}

/// The settings of a tuner are unique.
pub proof fn lemma_settings(
    kind: SdrKind,
    freq_hz: u32,
    supported: Seq<u32>,
    r: (RadioConfig, DemodConfig),
)
    requires
        settings_of(kind, freq_hz, supported, r),
    ensures
        r == settings(kind, freq_hz, supported),
{
    let s = settings(kind, freq_hz, supported);
    assert(settings_of(kind, freq_hz, supported, s));
    match kind {
        SdrKind::Rtl => {},
        _ => {
            fm::lemma_closest_unique(freq_hz, MPX_SAMPLE_RATE, supported, r, s);
        },
    }
}

/// Computes the settings of a tuner for a station.
pub fn settings_for(kind: SdrKind, freq_hz: u32, supported: &[u32]) -> (r: (
    RadioConfig,
    DemodConfig,
))
    requires
        tunable(kind, freq_hz, supported@),
    ensures
        settings_of(kind, freq_hz, supported@, r),
        r == settings(kind, freq_hz, supported@),
{
    let r = match kind {
        SdrKind::Rtl => optimal_settings(freq_hz, MPX_SAMPLE_RATE),
        SdrKind::Airspy => centered_iq_settings_with_rates(freq_hz, MPX_SAMPLE_RATE, supported),
        SdrKind::AirspyHf => airspyhf::hf_settings_for_mpx(freq_hz, supported),
    };
    proof {
        lemma_settings(kind, freq_hz, supported@, r);
    }
    r
}

// ---------------------------------------------------------------------------
// Commands
// ---------------------------------------------------------------------------

/// What the capture is set to.
#[derive(Clone, Copy, Debug, PartialEq, Eq, Structural)]
pub struct CaptureState {
    pub freq_hz: u32,
    pub gain_db: i32,
    pub ppm: i32,
    pub mono_only: bool,
    pub deemphasis_us: u8,
    pub demod_config: DemodConfig,
}

/// What a command asks for besides the new state.
#[derive(Clone, Copy, Debug, PartialEq, Eq, Structural)]
pub enum CommandEffect {
    /// Nothing.
    Nothing,
    /// Tune the device. Where it accepts, its buffer and converter start afresh
    /// and the capture is reconfigured.
    Tune(u32),
    /// Set the device up again. Where it accepts, the capture is reconfigured.
    Setup { radio: RadioConfig, gain_db: i32 },
    /// Set a linearity preset. Where the device accepts, the capture is
    /// reconfigured.
    Preset(u8),
    /// Set the gain. Where the device accepts, the capture is reconfigured.
    Gain(i32),
    /// Correct the frequency of the device, whatever it answers.
    Correct(i32),
    /// Start the demodulator and the resampler afresh and drop what waits to be
    /// played.
    Restart,
    /// Change the deemphasis and drop what waits to be played.
    Deemphasis(u8),
}

/// The state after a command.
pub open spec fn after_command(
    st: CaptureState,
    kind: SdrKind,
    supported: Seq<u32>,
    cmd: SdrCommand,
) -> CaptureState {
    match cmd {
        SdrCommand::SetFreq(freq_hz) => CaptureState {
            freq_hz,
            demod_config: settings(kind, freq_hz, supported).1,
            ..st
        },
        SdrCommand::SetGain(gain_db) => CaptureState {
            gain_db,
            demod_config: settings(kind, st.freq_hz, supported).1,
            ..st
        },
        SdrCommand::SetMono(mono_only) => CaptureState { mono_only, ..st },
        SdrCommand::SetPpm(ppm) => if kind is AirspyHf {
            st
        } else {
            CaptureState { ppm, ..st }
        },
        SdrCommand::SetDeemphasis(deemphasis_us) => CaptureState { deemphasis_us, ..st },
    }
}

/// What is asked for in state `st`.
pub open spec fn command_effect(
    st: CaptureState,
    kind: SdrKind,
    supported: Seq<u32>,
    cmd: SdrCommand,
) -> CommandEffect {
    match cmd {
        SdrCommand::SetFreq(freq_hz) => CommandEffect::Tune(
            settings(kind, freq_hz, supported).0.capture_freq,
        ),
        SdrCommand::SetGain(gain_db) => match kind {
            SdrKind::Rtl => CommandEffect::Setup {
                radio: settings(kind, st.freq_hz, supported).0,
                gain_db,
            },
            SdrKind::Airspy => CommandEffect::Preset(linearity_preset(gain_db as int) as u8),
            SdrKind::AirspyHf => CommandEffect::Gain(gain_db),
        },
        SdrCommand::SetMono(_) => CommandEffect::Restart,
        SdrCommand::SetPpm(ppm) => if kind is Rtl {
            CommandEffect::Correct(ppm)
        } else {
            CommandEffect::Nothing
        },
        SdrCommand::SetDeemphasis(us) => CommandEffect::Deemphasis(us),
    }
}

/// The station that the settings after a command are for.
pub open spec fn station_after(st: CaptureState, cmd: SdrCommand) -> u32 {
    match cmd {
        SdrCommand::SetFreq(freq_hz) => freq_hz,
        _ => st.freq_hz,
    }
}

impl CaptureState {
    /// The state before a tuner has been found.
    pub fn new(freq_hz: u32, ppm: i32, gain_db: i32, mono_only: bool, deemphasis_us: u8) -> (r:
        Self)
        requires
            fm::settings_fit(freq_hz as int, MPX_SAMPLE_RATE as int),
        ensures
            r == (CaptureState {
                freq_hz,
                gain_db,
                ppm,
                mono_only,
                deemphasis_us,
                demod_config: settings(SdrKind::Rtl, freq_hz, Seq::empty()).1,
            }),
    {
        let r = optimal_settings(freq_hz, MPX_SAMPLE_RATE);
        proof {
            lemma_settings(SdrKind::Rtl, freq_hz, Seq::empty(), r);
        }
        CaptureState { freq_hz, gain_db, ppm, mono_only, deemphasis_us, demod_config: r.1 }
    }

    /// Takes a command and says what it asks of the device.
    pub fn handle_command(&mut self, kind: SdrKind, supported: &[u32], cmd: SdrCommand) -> (effect:
        CommandEffect)
        requires
            cmd is SetFreq || cmd is SetGain ==> tunable(
                kind,
                station_after(*old(self), cmd),
                supported@,
            ),
        ensures
            *final(self) == after_command(*old(self), kind, supported@, cmd),
            effect == command_effect(*old(self), kind, supported@, cmd),
    {
        match cmd {
            SdrCommand::SetFreq(freq_hz) => {
                self.freq_hz = freq_hz;
                let (radio, fresh) = settings_for(kind, self.freq_hz, supported);
                self.demod_config = fresh;
                CommandEffect::Tune(radio.capture_freq)
            },
            SdrCommand::SetGain(gain_db) => {
                self.gain_db = gain_db;
                let (radio, fresh) = settings_for(kind, self.freq_hz, supported);
                self.demod_config = fresh;
                match kind {
                    SdrKind::Rtl => CommandEffect::Setup { radio, gain_db },
                    SdrKind::Airspy => CommandEffect::Preset(airspy_gain_preset(gain_db)),
                    SdrKind::AirspyHf => CommandEffect::Gain(gain_db),
                }
            },
            SdrCommand::SetMono(mono) => {
                self.mono_only = mono;
                CommandEffect::Restart
            },
            SdrCommand::SetPpm(ppm) => match kind {
                SdrKind::Rtl => {
                    self.ppm = ppm;
                    CommandEffect::Correct(ppm)
                },
                SdrKind::Airspy => {
                    self.ppm = ppm;
                    CommandEffect::Nothing
                },
                SdrKind::AirspyHf => CommandEffect::Nothing,
            },
            SdrCommand::SetDeemphasis(us) => {
                self.deemphasis_us = us;
                CommandEffect::Deemphasis(us)
            },
        }
    }

    /// What the scope takes of a frame: in mono the audio, otherwise the channels
    /// at the multiplex rate.
    pub fn scope_frame<L: Copy>(
        &self,
        audio_left: &[L],
        audio_right: &[L],
        scope_left: &[L],
        scope_right: &[L],
    ) -> (r: (Vec<L>, Vec<L>))
        requires
            audio_left@.len() == audio_right@.len(),
            scope_left@.len() == scope_right@.len(),
        ensures
            r.0@ == display::thinned(
                if self.mono_only {
                    audio_left@
                } else {
                    scope_left@
                },
                SCOPE_POINTS as int,
            ),
            r.1@ == display::thinned(
                if self.mono_only {
                    audio_right@
                } else {
                    scope_right@
                },
                SCOPE_POINTS as int,
            ),
    {
        if self.mono_only {
            decimate_scope_pair(audio_left, audio_right, SCOPE_POINTS)
        } else {
            decimate_scope_pair(scope_left, scope_right, SCOPE_POINTS)
        }
    }

    /// What the application is told when the capture has started or has been
    /// reconfigured.
    pub fn connected<L>(&self) -> (r: AppEvent<L>)
        ensures
            r == (AppEvent::<L>::SdrConnected { freq_hz: self.freq_hz, gain_tenths: self.gain_db }),
    {
        AppEvent::SdrConnected { freq_hz: self.freq_hz, gain_tenths: self.gain_db }
    }
}

/// The effect asks the device for another frequency or gain.
pub open spec fn asks_settings(effect: CommandEffect) -> bool {
    effect is Tune || effect is Setup || effect is Preset || effect is Gain
}

/// Whether the capture is reconfigured after a command: the demodulator starts
/// afresh, what waits to be played is dropped, and the application is told
/// (`CaptureState::connected`). `accepted` says that the device has accepted what
/// the command asks of it.
pub fn reconfigures(effect: CommandEffect, accepted: bool) -> (r: bool)
    ensures
        r == (accepted && asks_settings(effect)),
{
    match effect {
        CommandEffect::Tune(_) | CommandEffect::Setup { .. } | CommandEffect::Preset(_)
        | CommandEffect::Gain(_) => accepted,
        _ => false,
    }
}

/// A new frequency and a new gain, and no other command, ask the device for
/// something on which the capture is reconfigured.
pub proof fn lemma_commands_that_reconfigure(
    st: CaptureState,
    kind: SdrKind,
    supported: Seq<u32>,
    cmd: SdrCommand,
)
    ensures
        asks_settings(command_effect(st, kind, supported, cmd)) <==> cmd is SetFreq
            || cmd is SetGain,
{
}

/// The station last tuned to is the one received, with its settings: an earlier
/// one leaves no trace.
pub proof fn lemma_last_station_wins(
    st: CaptureState,
    kind: SdrKind,
    supported: Seq<u32>,
    first: u32,
    last: u32,
)
    ensures
        after_command(
            after_command(st, kind, supported, SdrCommand::SetFreq(first)),
            kind,
            supported,
            SdrCommand::SetFreq(last),
        ) == after_command(st, kind, supported, SdrCommand::SetFreq(last)),
{
}

/// A new gain leaves the station and its settings alone.
pub proof fn lemma_gain_keeps_station(
    st: CaptureState,
    kind: SdrKind,
    supported: Seq<u32>,
    freq_hz: u32,
    gain_db: i32,
)
    ensures
        after_command(
            after_command(st, kind, supported, SdrCommand::SetFreq(freq_hz)),
            kind,
            supported,
            SdrCommand::SetGain(gain_db),
        ) == (CaptureState {
            gain_db,
            ..after_command(st, kind, supported, SdrCommand::SetFreq(freq_hz))
        }),
{
}

/// Mono, deemphasis and the correction touch neither the tuner's settings nor the
/// demodulator's.
pub proof fn lemma_listening_keeps_tuning(
    st: CaptureState,
    kind: SdrKind,
    supported: Seq<u32>,
    cmd: SdrCommand,
)
    requires
        cmd is SetMono || cmd is SetDeemphasis || cmd is SetPpm,
    ensures
        after_command(st, kind, supported, cmd).freq_hz == st.freq_hz,
        after_command(st, kind, supported, cmd).gain_db == st.gain_db,
        after_command(st, kind, supported, cmd).demod_config == st.demod_config,
{
}

/// An RTL dongle is tuned a quarter of the capture rate above the station, the
/// others to the station itself.
pub proof fn lemma_tuned_to(
    st: CaptureState,
    kind: SdrKind,
    supported: Seq<u32>,
    freq_hz: u32,
    r: (RadioConfig, DemodConfig),
)
    requires
        settings_of(kind, freq_hz, supported, r),
    ensures
        command_effect(st, kind, supported, SdrCommand::SetFreq(freq_hz)) matches CommandEffect::Tune(
            hz,
        ) && hz == (if kind is Rtl {
            freq_hz + RTL_OFFSET_HZ
        } else {
            freq_hz as int
        }),
{
    lemma_settings(kind, freq_hz, supported, r);
    assert(1_000_000int / 170_000 + 1 == 6);
}

// ---------------------------------------------------------------------------
// The course of a capture
// ---------------------------------------------------------------------------

/// What the device answers in the course of a capture.
pub enum DeviceEvent {
    /// It has been opened and offers these sample rates.
    Opened(Vec<u32>),
    /// It could not be opened.
    OpenFailed(String),
    /// There is no driver for it.
    DriverMissing,
    /// It has been set up and started.
    Started,
    /// It could not be set up or started.
    SetupFailed(String),
    /// It has delivered `got` bytes; a whole block is `block` bytes.
    Read { got: usize, block: usize },
    /// Nothing has come in time.
    Idle,
    /// It could not be read.
    ReadFailed(String),
    /// Nothing more will come.
    Ended,
}

/// What happens next.
pub enum CaptureAction {
    /// Set the device up. The correction is tried first and may fail.
    Setup { correction: Option<i32>, radio: RadioConfig, gain_db: i32 },
    /// Tell the application that the capture runs, and start the demodulator
    /// afresh.
    Run,
    /// Demodulate what has been read.
    Demodulate,
    /// Read again.
    Wait,
    /// Show the message, pause, and look for a tuner again.
    Retry { message: String, pause_ms: u64 },
    /// Show the message, close the device, and look for a tuner again.
    Close { message: String },
}

/// `CaptureAction` with its texts as sequences.
pub enum ActionModel {
    Setup { correction: Option<i32>, radio: RadioConfig, gain_db: i32 },
    Run,
    Demodulate,
    Wait,
    Retry { message: Seq<char>, pause_ms: u64 },
    Close { message: Seq<char> },
}

impl View for CaptureAction {
    type V = ActionModel;

    open spec fn view(&self) -> ActionModel {
        match *self {
            CaptureAction::Setup { correction, radio, gain_db } => ActionModel::Setup {
                correction,
                radio,
                gain_db,
            },
            CaptureAction::Run => ActionModel::Run,
            CaptureAction::Demodulate => ActionModel::Demodulate,
            CaptureAction::Wait => ActionModel::Wait,
            CaptureAction::Retry { message, pause_ms } => ActionModel::Retry {
                message: message@,
                pause_ms,
            },
            CaptureAction::Close { message } => ActionModel::Close { message: message@ },
        }
    }
}

/// The pause after a tuner could not be opened.
pub open spec fn open_pause(kind: SdrKind, msg: Seq<char>) -> u64 {
    if kind is AirspyHf || !busy(msg) {
        1000
    } else {
        2000
    }
}

/// The device has delivered enough.
pub open spec fn enough(kind: SdrKind, got: usize, block: usize) -> bool {
    match kind {
        SdrKind::Rtl => got >= block,
        SdrKind::Airspy => got >= AIRSPY_MIN_READ,
        SdrKind::AirspyHf => got > 0,
    }
}

/// What follows an answer of the device.
pub open spec fn reaction(st: CaptureState, kind: SdrKind, event: DeviceEvent) -> ActionModel {
    match event {
        DeviceEvent::Opened(supported) => ActionModel::Setup {
            correction: if kind is Rtl && st.ppm != 0 {
                Some(st.ppm)
            } else {
                None
            },
            radio: settings(kind, st.freq_hz, supported@).0,
            gain_db: st.gain_db,
        },
        DeviceEvent::OpenFailed(msg) => ActionModel::Retry {
            message: shown(kind, msg@),
            pause_ms: open_pause(kind, msg@),
        },
        DeviceEvent::DriverMissing => ActionModel::Retry {
            message: airspyhf::missing_lib_text(),
            pause_ms: 2000,
        },
        DeviceEvent::Started => ActionModel::Run,
        DeviceEvent::SetupFailed(msg) => ActionModel::Retry {
            message: shown(kind, msg@),
            pause_ms: 1000,
        },
        DeviceEvent::Read { got, block } => if enough(kind, got, block) {
            ActionModel::Demodulate
        } else {
            match kind {
                SdrKind::Rtl => ActionModel::Close {
                    message: "Short read from SDR — device may have been unplugged."@,
                },
                SdrKind::Airspy => ActionModel::Close {
                    message: "Short read from Airspy — device may have been unplugged."@,
                },
                SdrKind::AirspyHf => ActionModel::Wait,
            }
        },
        DeviceEvent::Idle => ActionModel::Wait,
        DeviceEvent::ReadFailed(msg) => ActionModel::Close { message: shown(kind, msg@) },
        DeviceEvent::Ended => ActionModel::Close {
            message: "Airspy HF+ stream ended — device may have been unplugged."@,
        },
    }
}

/// The state after an answer of the device: opening it brings its settings.
pub open spec fn after_answer(st: CaptureState, kind: SdrKind, event: DeviceEvent) -> CaptureState {
    match event {
        DeviceEvent::Opened(supported) => CaptureState {
            demod_config: settings(kind, st.freq_hz, supported@).1,
            ..st
        },
        _ => st,
    }
}

impl CaptureState {
    /// Takes an answer of the device and says what happens next.
    pub fn answer(&mut self, kind: SdrKind, event: DeviceEvent) -> (action: CaptureAction)
        requires
            event matches DeviceEvent::Opened(supported) ==> tunable(
                kind,
                old(self).freq_hz,
                supported@,
            ),
        ensures
            *final(self) == after_answer(*old(self), kind, event),
            action@ == reaction(*old(self), kind, event),
    {
        match event {
            DeviceEvent::Opened(supported) => {
                let (radio, demod_config) = settings_for(kind, self.freq_hz, supported.as_slice());
                self.demod_config = demod_config;
                let correction: Option<i32> = match kind {
                    SdrKind::Rtl => if self.ppm != 0 {
                        Some(self.ppm)
                    } else {
                        None
                    },
                    _ => None,
                };
                CaptureAction::Setup { correction, radio, gain_db: self.gain_db }
            },
            DeviceEvent::OpenFailed(msg) => {
                let in_use: bool = is_busy(msg.as_str());
                let pause_ms: u64 = match kind {
                    SdrKind::AirspyHf => 1000,
                    _ => if in_use {
                        2000
                    } else {
                        1000
                    },
                };
                CaptureAction::Retry { message: format_error(kind, msg), pause_ms }
            },
            DeviceEvent::DriverMissing => CaptureAction::Retry {
                message: missing_lib_message().to_owned(),
                pause_ms: 2000,
            },
            DeviceEvent::Started => CaptureAction::Run,
            DeviceEvent::SetupFailed(msg) => CaptureAction::Retry {
                message: format_error(kind, msg),
                pause_ms: 1000,
            },
            DeviceEvent::Read { got, block } => match kind {
                SdrKind::Rtl => if got >= block {
                    CaptureAction::Demodulate
                } else {
                    CaptureAction::Close {
                        message: "Short read from SDR — device may have been unplugged.".to_owned(),
                    }
                },
                SdrKind::Airspy => if got >= AIRSPY_MIN_READ {
                    CaptureAction::Demodulate
                } else {
                    CaptureAction::Close {
                        message:
                            "Short read from Airspy — device may have been unplugged.".to_owned(),
                    }
                },
                SdrKind::AirspyHf => if got > 0 {
                    CaptureAction::Demodulate
                } else {
                    CaptureAction::Wait
                },
            },
            DeviceEvent::Idle => CaptureAction::Wait,
            DeviceEvent::ReadFailed(msg) => CaptureAction::Close {
                message: format_error(kind, msg),
            },
            DeviceEvent::Ended => CaptureAction::Close {
                message: "Airspy HF+ stream ended — device may have been unplugged.".to_owned(),
            },
        }
    }
}

/// Whether a running capture takes commands and reads again after an action.
/// `stop` says that the capture or the application is to end.
pub fn goes_on(action: &CaptureAction, stop: bool) -> (r: bool)
    ensures
        r == ((*action is Run || *action is Demodulate || *action is Wait) && !stop),
{
    match action {
        CaptureAction::Run | CaptureAction::Demodulate | CaptureAction::Wait => !stop,
        _ => false,
    }
}

/// What the capture does between two devices.
pub enum SearchStep {
    /// The application ends.
    Stop,
    /// Show the message and look again after a pause.
    Again { message: String, pause_ms: u64 },
    /// Capture from a tuner.
    Capture(SdrKind),
}

/// The pause between the end of a capture and the next search.
pub const SEARCH_PAUSE_MS: u64 = 300;

/// Decides what comes next when no device is open. `stop` says that the capture
/// or the application is to end.
pub fn next_search(stop: bool, found: Option<SdrKind>) -> (r: SearchStep)
    ensures
        r is Stop <==> stop,
        r matches SearchStep::Again { message, pause_ms } ==> message@
            == "No SDR detected — waiting to reconnect…"@ && pause_ms == 1000,
        r is Again <==> !stop && found is None,
        r matches SearchStep::Capture(kind) ==> found == Some(kind),
{
    if stop {
        return SearchStep::Stop;
    }
    match found {
        Some(kind) => SearchStep::Capture(kind),
        None => SearchStep::Again {
            message: "No SDR detected — waiting to reconnect…".to_owned(),
            pause_ms: 1000,
        },
    }
}

/// A device that is opened is set up for the station that was last asked for,
/// whatever was received before.
pub proof fn lemma_reopened_for_station(
    st: CaptureState,
    kind: SdrKind,
    supported: Vec<u32>,
    freq_hz: u32,
)
    ensures
        after_answer(
            after_command(st, kind, supported@, SdrCommand::SetFreq(freq_hz)),
            kind,
            DeviceEvent::Opened(supported),
        ) == after_command(st, kind, supported@, SdrCommand::SetFreq(freq_hz)),
{
}

/// No answer of the device changes what the listener has set.
pub proof fn lemma_answers_keep_wishes(st: CaptureState, kind: SdrKind, event: DeviceEvent)
    ensures
        after_answer(st, kind, event).freq_hz == st.freq_hz,
        after_answer(st, kind, event).gain_db == st.gain_db,
        after_answer(st, kind, event).ppm == st.ppm,
        after_answer(st, kind, event).mono_only == st.mono_only,
        after_answer(st, kind, event).deemphasis_us == st.deemphasis_us,
{
}

// ---------------------------------------------------------------------------
// What commands and answers do
// ---------------------------------------------------------------------------

/// Each command gives its field the value that is asked for, whatever that is and
/// whatever tuner is used: frequency, gain, mono and de-emphasis. The correction
/// is taken too, but not for an HF+. No command changes the field of another.
pub proof fn lemma_command_sets(
    st: CaptureState,
    kind: SdrKind,
    supported: Seq<u32>,
    freq_hz: u32,
    gain_db: i32,
    mono: bool,
    ppm: i32,
    us: u8,
)
    ensures
        ({
            let f = after_command(st, kind, supported, SdrCommand::SetFreq(freq_hz));
            let g = after_command(st, kind, supported, SdrCommand::SetGain(gain_db));
            let m = after_command(st, kind, supported, SdrCommand::SetMono(mono));
            let p = after_command(st, kind, supported, SdrCommand::SetPpm(ppm));
            let d = after_command(st, kind, supported, SdrCommand::SetDeemphasis(us));
            &&& f.freq_hz == freq_hz && g.gain_db == gain_db && m.mono_only == mono
                && d.deemphasis_us == us
            &&& kind == SdrKind::AirspyHf ==> p == st
            &&& kind != SdrKind::AirspyHf ==> p == (CaptureState { ppm, ..st })
            &&& m == (CaptureState { mono_only: mono, ..st })
            &&& d == (CaptureState { deemphasis_us: us, ..st })
            &&& f.gain_db == st.gain_db && f.ppm == st.ppm && f.mono_only == st.mono_only
                && f.deemphasis_us == st.deemphasis_us
            &&& g.freq_hz == st.freq_hz && g.ppm == st.ppm && g.mono_only == st.mono_only
                && g.deemphasis_us == st.deemphasis_us
        }),
{
}

/// A new frequency or gain sets the demodulator up for the station that is then
/// received: with the settings `r` that suit the tuner and that station.
pub proof fn lemma_command_configures(
    st: CaptureState,
    kind: SdrKind,
    supported: Seq<u32>,
    freq_hz: u32,
    gain_db: i32,
    r: (RadioConfig, DemodConfig),
)
    ensures
        settings_of(kind, freq_hz, supported, r) ==> after_command(
            st,
            kind,
            supported,
            SdrCommand::SetFreq(freq_hz),
        ).demod_config == r.1,
        settings_of(kind, st.freq_hz, supported, r) ==> after_command(
            st,
            kind,
            supported,
            SdrCommand::SetGain(gain_db),
        ).demod_config == r.1,
{
    if settings_of(kind, freq_hz, supported, r) {
        lemma_settings(kind, freq_hz, supported, r);
    }
    if settings_of(kind, st.freq_hz, supported, r) {
        lemma_settings(kind, st.freq_hz, supported, r);
    }
}

/// What a command asks of the device. A gain is handed to a dongle together with
/// the settings of the station, to an Airspy as a preset (8 for automatic gain, 10
/// and one more for each 20 tenths otherwise, up to 21), to an HF+ as it is. Mono
/// restarts the sound, de-emphasis is handed on, and only a dongle is corrected.
pub proof fn lemma_command_asks(
    st: CaptureState,
    supported: Seq<u32>,
    kind: SdrKind,
    gain_db: i32,
    mono: bool,
    ppm: i32,
    us: u8,
    r: (RadioConfig, DemodConfig),
)
    requires
        settings_of(SdrKind::Rtl, st.freq_hz, supported, r),
    ensures
        command_effect(st, SdrKind::Rtl, supported, SdrCommand::SetGain(gain_db)) == (
        CommandEffect::Setup { radio: r.0, gain_db }),
        command_effect(st, SdrKind::Airspy, supported, SdrCommand::SetGain(gain_db)) matches
            CommandEffect::Preset(p) && {
            &&& gain_db < 0 ==> p == 8
            &&& 0 <= gain_db < 240 ==> 20 * (p - 10) <= gain_db < 20 * (p - 10) + 20
            &&& gain_db >= 220 ==> p == 21
        },
        command_effect(st, SdrKind::AirspyHf, supported, SdrCommand::SetGain(gain_db))
            == CommandEffect::Gain(gain_db),
        command_effect(st, kind, supported, SdrCommand::SetMono(mono)) == CommandEffect::Restart,
        command_effect(st, kind, supported, SdrCommand::SetDeemphasis(us))
            == CommandEffect::Deemphasis(us),
        kind == SdrKind::Rtl ==> command_effect(st, kind, supported, SdrCommand::SetPpm(ppm))
            == CommandEffect::Correct(ppm),
        kind != SdrKind::Rtl ==> command_effect(st, kind, supported, SdrCommand::SetPpm(ppm))
            == CommandEffect::Nothing,
{
    lemma_settings(SdrKind::Rtl, st.freq_hz, supported, r);
}

/// The presets by gain: 8 for automatic gain; otherwise the first is 10 and each
/// further 20 tenths of a dB bring the next, up to 21.
pub proof fn lemma_preset_steps(gain_db: int)
    ensures
        gain_db < 0 ==> linearity_preset(gain_db) == 8,
        0 <= gain_db < 240 ==> 20 * (linearity_preset(gain_db) - 10) <= gain_db < 20 * (
        linearity_preset(gain_db) - 10) + 20,
        gain_db >= 220 ==> linearity_preset(gain_db) == 21,
{
}

/// The settings of a dongle are those of 1.02 MHz: tuned 255 kHz above the station,
/// divided by 6 to 170 kHz, with rotation. The others take a rate of their list,
/// are tuned to the station and not rotated, and no rate and divisor come closer
/// to 170 kHz.
pub proof fn lemma_settings_by_tuner(
    kind: SdrKind,
    freq_hz: u32,
    supported: Seq<u32>,
    r: (RadioConfig, DemodConfig),
    j: int,
    d: int,
)
    requires
        settings_of(kind, freq_hz, supported, r),
    ensures
        r.1.rate_resample == 48_000,
        kind == SdrKind::Rtl ==> {
            &&& r.0 == (RadioConfig {
                capture_freq: (freq_hz + 255_000) as u32,
                capture_rate: 1_020_000,
            })
            &&& r.0.capture_freq == freq_hz + 255_000
            &&& r.1.downsample == 6 && r.1.rate_out == 170_000 && r.1.rtl_rotate
        },
        kind != SdrKind::Rtl ==> r.0.capture_freq == freq_hz && !r.1.rtl_rotate,
        kind != SdrKind::Rtl && supported.len() == 0 ==> r.0.capture_rate == 1_020_000
            && r.1.downsample == 6 && r.1.rate_out == 170_000,
        kind != SdrKind::Rtl && 0 <= j < supported.len() && 1 <= d <= 32 ==> {
            &&& supported.contains(r.0.capture_rate)
            &&& 1 <= r.1.downsample <= 32
            &&& r.1.rate_out == r.0.capture_rate as int / r.1.downsample as int
            &&& fm::distance(r.1.rate_out as int, 170_000) <= fm::distance(
                supported[j] as int / d,
                170_000,
            )
        },
{
    match kind {
        SdrKind::Rtl => {
            fm::lemma_offset_settings(freq_hz, MPX_SAMPLE_RATE, r);
        },
        _ => {
            if supported.len() == 0 {
                fm::lemma_centered_settings(freq_hz, MPX_SAMPLE_RATE, r);
            } else {
                fm::lemma_closest_settings(freq_hz, MPX_SAMPLE_RATE, supported, r, 0, 1);
                if 0 <= j < supported.len() && 1 <= d <= 32 {
                    fm::lemma_closest_settings(freq_hz, MPX_SAMPLE_RATE, supported, r, j, d);
                }
            }
        },
    }
}

/// A dongle, and a tuner without a list of rates, can be tuned as long as the
/// frequency of the device fits in 32 bits; others always.
pub proof fn lemma_tunable(kind: SdrKind, freq_hz: u32, supported: Seq<u32>)
    ensures
        tunable(kind, freq_hz, supported) <==> ((kind != SdrKind::Rtl && supported.len() > 0)
            || freq_hz + 255_000 <= u32::MAX),
{
    assert(fm::capture_rate_for(MPX_SAMPLE_RATE as int) == 4 * RTL_OFFSET_HZ);
}

/// Each sample is made of two bytes, the low one first. Only a byte without
/// partner is left over.
pub proof fn lemma_raw_bytes(raw: Seq<u8>, k: int)
    ensures
        2 * raw_samples(raw).len() <= raw.len() < 2 * raw_samples(raw).len() + 2,
        0 <= k < raw_samples(raw).len() ==> {
            &&& raw_samples(raw)[k] % 256 == raw[2 * k]
            &&& raw_samples(raw)[k] / 256 == raw[2 * k + 1]
        },
{
}

/// The hint for a dongle follows exactly the messages that hold `Busy` or `busy`,
/// the one for an Airspy those that hold the word in letters of any case. An HF+
/// has none.
pub proof fn lemma_hint_shown(msg: Seq<char>)
    ensures
        shown(SdrKind::Rtl, msg) != msg <==> text::has_part(msg, "Busy"@) || text::has_part(
            msg,
            "busy"@,
        ),
        shown(SdrKind::Airspy, msg) != msg <==> text::has_part(
            text::ascii_lowercase(msg),
            "busy"@,
        ),
        shown(SdrKind::AirspyHf, msg) == msg,
        text::has_part(msg, "Busy"@) || text::has_part(msg, "busy"@) ==> shown(SdrKind::Rtl, msg)
            == msg + rtl_hint() && shown(SdrKind::Airspy, msg) == msg + airspy_hint(),
        text::has_part(text::ascii_lowercase(msg), "busy"@) ==> shown(SdrKind::Airspy, msg) == msg
            + airspy_hint(),
{
    reveal_strlit(
        "\n\nAnother process may still have the dongle open (e.g. a previous run):\npkill -f oscilloscope-me\nUnplug/replug the dongle, then try again.\n\nLinux: kernel DVB driver may also be claiming it:\nsudo rmmod rtl2832_sdr dvb_usb_rtl28xxu rtl2832 rtl8xxxu\nOr add a udev rule (see README).",
    );
    reveal_strlit(
        "\n\nAnother process may still have the Airspy open (e.g. a previous run):\npkill -f oscilloscope-me\nUnplug/replug the device, then try again.",
    );
    assert((msg + rtl_hint()).len() > msg.len());
    assert((msg + airspy_hint()).len() > msg.len());
    if text::has_part(msg, "Busy"@) || text::has_part(msg, "busy"@) {
        lemma_hint_means_busy(msg);
    }
}

/// A tuner that cannot be opened is tried again: after two seconds where it says
/// that it is in use, unless it is an HF+, and after one second otherwise. One that
/// cannot be set up is tried again after one second, one without driver after two.
pub proof fn lemma_retries(st: CaptureState, kind: SdrKind, msg: String)
    ensures
        reaction(st, kind, DeviceEvent::OpenFailed(msg)) == (ActionModel::Retry {
            message: shown(kind, msg@),
            pause_ms: if kind != SdrKind::AirspyHf && text::has_part(
                text::ascii_lowercase(msg@),
                "busy"@,
            ) {
                2000
            } else {
                1000
            },
        }),
        reaction(st, kind, DeviceEvent::SetupFailed(msg)) == (ActionModel::Retry {
            message: shown(kind, msg@),
            pause_ms: 1000,
        }),
        reaction(st, kind, DeviceEvent::DriverMissing) == (ActionModel::Retry {
            message: airspyhf::missing_lib_text(),
            pause_ms: 2000,
        }),
        reaction(st, kind, DeviceEvent::ReadFailed(msg)) == (ActionModel::Close {
            message: shown(kind, msg@),
        }),
{
}

/// Bytes are demodulated exactly where enough of them came: a whole block from a
/// dongle, 4096 from an Airspy, any from an HF+. Too few end the capture, but for
/// an HF+, which is read again.
pub proof fn lemma_reads(st: CaptureState, kind: SdrKind, got: usize, block: usize)
    ensures
        ({
            let action = reaction(st, kind, DeviceEvent::Read { got, block });
            let whole = match kind {
                SdrKind::Rtl => got >= block,
                SdrKind::Airspy => got >= 4096,
                SdrKind::AirspyHf => got >= 1,
            };
            &&& whole ==> action is Demodulate
            &&& !whole && kind == SdrKind::Rtl ==> action == (ActionModel::Close {
                message: "Short read from SDR — device may have been unplugged."@,
            })
            &&& !whole && kind == SdrKind::Airspy ==> action == (ActionModel::Close {
                message: "Short read from Airspy — device may have been unplugged."@,
            })
            &&& !whole && kind == SdrKind::AirspyHf ==> action is Wait
        }),
        reaction(st, kind, DeviceEvent::Idle) is Wait,
        reaction(st, kind, DeviceEvent::Ended) == (ActionModel::Close {
            message: "Airspy HF+ stream ended — device may have been unplugged."@,
        }),
        reaction(st, kind, DeviceEvent::Started) is Run,
{
}

/// An open device is set up with the settings `r` that suit it and the station,
/// and with the gain; a dongle is corrected first where there is a correction. The
/// demodulator takes the settings too, and nothing else of the state changes.
pub proof fn lemma_opened(
    st: CaptureState,
    kind: SdrKind,
    supported: Vec<u32>,
    r: (RadioConfig, DemodConfig),
)
    requires
        settings_of(kind, st.freq_hz, supported@, r),
    ensures
        reaction(st, kind, DeviceEvent::Opened(supported)) == (ActionModel::Setup {
            correction: if kind == SdrKind::Rtl && st.ppm != 0 {
                Some(st.ppm)
            } else {
                None
            },
            radio: r.0,
            gain_db: st.gain_db,
        }),
        after_answer(st, kind, DeviceEvent::Opened(supported)) == (CaptureState {
            demod_config: r.1,
            ..st
        }),
{
    lemma_settings(kind, st.freq_hz, supported@, r);
}

/// No other answer changes the state.
pub proof fn lemma_answers_change_nothing(st: CaptureState, kind: SdrKind, event: DeviceEvent)
    requires
        !(event is Opened),
    ensures
        after_answer(st, kind, event) == st,
{
}

/// The summary lists dongles, then Airspys, then HF+, each with its number, and
/// says so where there is nothing to list.
pub proof fn lemma_summary(rtl: nat, airspy: nat, hf: nat)
    ensures
        summary(0, 0, 0) == "no devices"@,
        hf > 0 ==> summary(0, 0, hf) == text::decimal(hf) + " Airspy HF+"@,
        airspy > 0 ==> summary(0, airspy, 0) == text::decimal(airspy) + " Airspy R2/Mini"@,
        airspy > 0 && hf > 0 ==> summary(0, airspy, hf) == summary(0, airspy, 0) + ", "@ + summary(
            0,
            0,
            hf,
        ),
        rtl > 0 ==> summary(rtl, 0, 0) == text::decimal(rtl) + " RTL-SDR"@,
        rtl > 0 && airspy + hf > 0 ==> summary(rtl, airspy, hf) == summary(rtl, 0, 0) + ", "@
            + summary(0, airspy, hf),
{
    lemma_decimal_nonempty(rtl);
    lemma_decimal_nonempty(airspy);
    lemma_decimal_nonempty(hf);
    let (r, a, h) = (
        text::decimal(rtl) + " RTL-SDR"@,
        text::decimal(airspy) + " Airspy R2/Mini"@,
        text::decimal(hf) + " Airspy HF+"@,
    );
    assert(r.len() > 0 && a.len() > 0 && h.len() > 0);
    if airspy > 0 {
        lemma_entry(r, airspy, " Airspy R2/Mini"@);
    }
    if hf > 0 {
        lemma_entry(r, hf, " Airspy HF+"@);
        lemma_entry(a, hf, " Airspy HF+"@);
    }
    if airspy > 0 && hf > 0 {
        assert(summary(0, airspy, hf) == a + ", "@ + h);
    }
    if rtl > 0 && airspy > 0 {
        let ra = r + ", "@ + a;
        assert(summary(rtl, airspy, 0) == ra);
        if hf > 0 {
            lemma_entry(ra, hf, " Airspy HF+"@);
            assert(summary(rtl, airspy, hf) == ra + ", "@ + h);
            assert(ra + ", "@ + h =~= r + ", "@ + (a + ", "@ + h));
        }
    }
    if rtl > 0 && airspy == 0 && hf > 0 {
        assert(summary(rtl, 0, hf) == r + ", "@ + h);
    }
}

/// An entry behind others comes after a comma.
proof fn lemma_entry(list: Seq<char>, n: nat, label: Seq<char>)
    requires
        list.len() > 0,
        n > 0,
    ensures
        with_part(list, n, label) == list + ", "@ + (text::decimal(n) + label),
        with_part(list, n, label).len() > 0,
{
    assert(list + ", "@ + text::decimal(n) + label =~= list + ", "@ + (text::decimal(n) + label));
}

/// Four marks take turns.
pub proof fn lemma_spinner(turn: int)
    ensures
        spinner(turn + 4) == spinner(turn),
        spinner(0) == '|',
        spinner(1) == '/',
        spinner(2) == '-',
        spinner(3) == '\\',
{
}

/// Another frequency or gain asks the device for settings; mono, the time constant
/// and the correction do not.
pub proof fn lemma_asks_settings(
    st: CaptureState,
    kind: SdrKind,
    supported: Seq<u32>,
    cmd: SdrCommand,
)
    ensures
        asks_settings(command_effect(st, kind, supported, cmd)) <==> cmd is SetFreq || cmd
            is SetGain,
{
}

/// The station changes with a new frequency and with nothing else.
pub proof fn lemma_station(st: CaptureState, cmd: SdrCommand)
    ensures
        match cmd {
            SdrCommand::SetFreq(freq_hz) => station_after(st, cmd) == freq_hz,
            SdrCommand::SetGain(_) => station_after(st, cmd) == st.freq_hz,
            SdrCommand::SetMono(_) => station_after(st, cmd) == st.freq_hz,
            SdrCommand::SetPpm(_) => station_after(st, cmd) == st.freq_hz,
            SdrCommand::SetDeemphasis(_) => station_after(st, cmd) == st.freq_hz,
        },
{
}

/// Limits of the capture: the shortest read and the fewest samples of an Airspy,
/// the offset of a dongle, and the pause before the next search.
pub proof fn lemma_limits()
    ensures
        AIRSPY_MIN_READ == 4096,
        MIN_RAW_SAMPLES == 4,
        RTL_OFFSET_HZ == 255_000,
        SEARCH_PAUSE_MS == 300,
{
}

/// The search ends exactly where it is to stop; otherwise a tuner that was found is
/// used, and without one the search goes on after a second.
pub proof fn lemma_searched(stop: bool, found: Option<SdrKind>, r: SearchStep)
    requires
        call_ensures(next_search, (stop, found), r),
    ensures
        stop <==> r is Stop,
        !stop ==> match found {
            Some(kind) => r == SearchStep::Capture(kind),
            None => r matches SearchStep::Again { message, pause_ms } && pause_ms == 1000,
        },
{
}

/// A gain is handed to a dongle as it is, and left to the tuner where it is negative.
pub proof fn lemma_tuner_gain(gain_db: i32, r: Option<i32>)
    requires
        call_ensures(tuner_gain, (gain_db,), r),
    ensures
        r is None <==> gain_db < 0,
        r matches Some(g) ==> g == gain_db,
{
}

/// Waiting ends as soon as there is one tuner of any kind.
pub proof fn lemma_waited(rtl: usize, airspy: usize, hf: usize, turn: usize, r: WaitStep)
    requires
        call_ensures(wait_step, (rtl, airspy, hf, turn), r),
    ensures
        r is Waiting <==> rtl == 0 && airspy == 0 && hf == 0,
{
}

/// A command reconfigures the capture where the device accepts another frequency
/// or gain, and nowhere else.
pub proof fn lemma_reconfigured(
    st: CaptureState,
    kind: SdrKind,
    supported: Seq<u32>,
    cmd: SdrCommand,
    accepted: bool,
    r: bool,
)
    requires
        call_ensures(reconfigures, (command_effect(st, kind, supported, cmd), accepted), r),
    ensures
        r <==> accepted && (cmd is SetFreq || cmd is SetGain),
{
}

/// The bytes of an Airspy are converted from eight of them on.
pub proof fn lemma_converted(raw: &[u8], r: Vec<u16>)
    requires
        call_ensures(airspy_samples, (raw,), r),
    ensures
        raw@.len() < 8 ==> r@.len() == 0,
        raw@.len() >= 8 ==> r@ == raw_samples(raw@),
{
}

/// A command for mono or stereo leaves the capture as it asks, from either state; a
/// new frequency, gain or time constant is taken as it is given.
pub proof fn lemma_commanded(kind: SdrKind, supported: &[u32], cmd: SdrCommand, e: CommandEffect)
    ensures
        forall|st: &mut CaptureState| #[trigger]
            call_ensures(CaptureState::handle_command, (st, kind, supported, cmd), e) ==> {
                let after = *final(st);
                &&& after.mono_only == (match cmd {
                    SdrCommand::SetMono(mono) => mono,
                    _ => (*st).mono_only,
                })
                &&& after.freq_hz == (match cmd {
                    SdrCommand::SetFreq(freq_hz) => freq_hz,
                    _ => (*st).freq_hz,
                })
                &&& after.gain_db == (match cmd {
                    SdrCommand::SetGain(gain_db) => gain_db,
                    _ => (*st).gain_db,
                })
                &&& after.deemphasis_us == (match cmd {
                    SdrCommand::SetDeemphasis(us) => us,
                    _ => (*st).deemphasis_us,
                })
                &&& kind != SdrKind::AirspyHf ==> after.ppm == (match cmd {
                    SdrCommand::SetPpm(ppm) => ppm,
                    _ => (*st).ppm,
                })
                &&& cmd is SetMono ==> e is Restart
            },
{
}

/// The capture starts with what is asked for.
pub proof fn lemma_capture_starts(
    freq_hz: u32,
    ppm: i32,
    gain_db: i32,
    mono_only: bool,
    us: u8,
    r: CaptureState,
)
    requires
        call_ensures(CaptureState::new, (freq_hz, ppm, gain_db, mono_only, us), r),
    ensures
        r.freq_hz == freq_hz && r.ppm == ppm && r.gain_db == gain_db,
        r.mono_only == mono_only && r.deemphasis_us == us,
{
}

/// Each scope chunk has one point in as many samples as make at most 192 of them,
/// from the audio in mono and from the multiplex rate otherwise, left and right at the
/// same places.
pub proof fn lemma_scoped<L: Copy>(
    st: CaptureState,
    al: &[L],
    ar: &[L],
    sl: &[L],
    sr: &[L],
    r: (Vec<L>, Vec<L>),
    i: int,
)
    requires
        call_ensures(CaptureState::scope_frame::<L>, (&st, al, ar, sl, sr), r),
        al@.len() == ar@.len(),
        sl@.len() == sr@.len(),
        0 <= i < 192,
    ensures
        ({
            let left = if st.mono_only {
                al@
            } else {
                sl@
            };
            let right = if st.mono_only {
                ar@
            } else {
                sr@
            };
            let n = left.len() as int;
            &&& n < 192 ==> r.0@ == left && r.1@ == right
            &&& n >= 192 ==> {
                &&& r.0@.len() == 192 && r.1@.len() == 192
                &&& r.0@[i] == left[i * (n / 192)]
                &&& r.1@[i] == right[i * (n / 192)]
            }
        }),
{
    let left = if st.mono_only {
        al@
    } else {
        sl@
    };
    let right = if st.mono_only {
        ar@
    } else {
        sr@
    };
    if left.len() < 192 {
        display::lemma_few_are_all_drawn(left, 192);
        display::lemma_few_are_all_drawn(right, 192);
    } else {
        display::lemma_thinned_spans(left, 192, i);
        display::lemma_thinned_spans(right, 192, i);
    }
}

} // verus!
