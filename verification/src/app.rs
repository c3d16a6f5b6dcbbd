//! Application state and events.
//!
//! Levels and samples are carried through as values of a type `L`; only the
//! program around this library computes with them.

use crate::text;
use std::sync::atomic::{AtomicBool, Ordering};
use std::sync::Arc;
use vstd::prelude::*;
use vstd::string::*;

verus! {

/// A point of the vectorscope.
#[derive(Clone, Copy, Debug)]
pub struct StereoSample<L> {
    pub x: L,
    pub y: L,
}

/// What the capture and the playback report.
pub enum AppEvent<L> {
    SdrConnected { freq_hz: u32, gain_tenths: i32 },
    SdrDisconnected(String),
    FilePlaying { path: String, sample_rate: u32, loop_playback: bool },
    FileFinished,
    StereoData { scope_left: Vec<L>, scope_right: Vec<L>, peak_l: L, peak_r: L },
}

/// Where the samples come from.
#[derive(Clone, Copy, Debug, PartialEq, Eq, Structural)]
pub enum InputSource {
    Sdr,
    File,
}

/// What the user is asked for.
#[derive(Clone, Copy, Debug, PartialEq, Eq, Structural)]
pub enum PromptKind {
    Freq,
    Gain,
    Ppm,
}

/// The number of gain steps.
pub const GAIN_STEP_COUNT: usize = 4;

/// Tuner gain targets in tenths of a dB (-1 = hardware AGC).
pub const GAIN_STEPS: [i32; 4] = [-1, 0, 200, 400];

/// The gain of a step.
pub open spec fn gain_step(index: int) -> int {
    if index == 0 {
        -1
    } else {
        200 * (index - 1)
    }
}

/// What the user interface shows and the keys change.
pub struct AppState<L> {
    pub input_source: InputSource,
    pub file_path: String,
    pub file_loop: bool,
    pub file_paused: bool,
    pub freq_hz: u32,
    pub ppm: i32,
    pub deemphasis_us: u8,
    pub sdr_connected: bool,
    pub peak_l: L,
    pub peak_r: L,
    pub audio_device: String,
    pub audio_rate: u32,
    pub requested_rate: u32,
    pub status_message: String,
    pub gain_index: usize,
    pub gain_tenths: i32,
    pub mono_only: bool,
    pub volume: L,
    pub muted: bool,
    pub show_help: bool,
    pub prompt: Option<PromptKind>,
    pub prompt_buf: String,
}

/// The state with its texts as sequences.
#[verifier::ext_equal]
pub struct AppModel<L> {
    pub input_source: InputSource,
    pub file_path: Seq<char>,
    pub file_loop: bool,
    pub file_paused: bool,
    pub freq_hz: u32,
    pub ppm: i32,
    pub deemphasis_us: u8,
    pub sdr_connected: bool,
    pub peak_l: L,
    pub peak_r: L,
    pub audio_device: Seq<char>,
    pub audio_rate: u32,
    pub requested_rate: u32,
    pub status: Seq<char>,
    pub gain_index: int,
    pub gain_tenths: i32,
    pub mono_only: bool,
    pub volume: L,
    pub muted: bool,
    pub show_help: bool,
    pub prompt: Option<PromptKind>,
    pub prompt_buf: Seq<char>,
}

impl<L> View for AppState<L> {
    type V = AppModel<L>;

    open spec fn view(&self) -> AppModel<L> {
        AppModel {
            input_source: self.input_source,
            file_path: self.file_path@,
            file_loop: self.file_loop,
            file_paused: self.file_paused,
            freq_hz: self.freq_hz,
            ppm: self.ppm,
            deemphasis_us: self.deemphasis_us,
            sdr_connected: self.sdr_connected,
            peak_l: self.peak_l,
            peak_r: self.peak_r,
            audio_device: self.audio_device@,
            audio_rate: self.audio_rate,
            requested_rate: self.requested_rate,
            status: self.status_message@,
            gain_index: self.gain_index as int,
            gain_tenths: self.gain_tenths,
            mono_only: self.mono_only,
            volume: self.volume,
            muted: self.muted,
            show_help: self.show_help,
            prompt: self.prompt,
            prompt_buf: self.prompt_buf@,
        }
    }
}

/// The state at the start of the program.
pub open spec fn initial<L>(freq_hz: u32, ppm: i32, silence: L, unity: L) -> AppModel<L> {
    AppModel {
        input_source: InputSource::Sdr,
        file_path: Seq::empty(),
        file_loop: true,
        file_paused: false,
        freq_hz,
        ppm,
        deemphasis_us: 75,
        sdr_connected: false,
        peak_l: silence,
        peak_r: silence,
        audio_device: "-"@,
        audio_rate: 0,
        requested_rate: 0,
        status: Seq::empty(),
        gain_index: 0,
        gain_tenths: -1i32,
        mono_only: false,
        volume: unity,
        muted: false,
        show_help: false,
        prompt: None,
        prompt_buf: Seq::empty(),
    }
}

/// A gain as it is shown: in dB with one decimal, or `auto`.
pub open spec fn gain_text(tenths: int) -> Seq<char> {
    if tenths < 0 {
        "auto"@
    } else {
        text::decimal((tenths / 10) as nat) + "."@ + text::decimal((tenths % 10) as nat) + " dB"@
    }
}

/// A de-emphasis time constant as it is shown.
pub open spec fn deemphasis_text(us: u8) -> Seq<char> {
    if us == 50 {
        "50"@
    } else if us == 0 {
        "off"@
    } else {
        "75"@
    }
}

/// The time constant that follows: 75, 50, none, and again.
pub open spec fn next_deemphasis(us: u8) -> u8 {
    if us == 75 {
        50
    } else if us == 50 {
        0
    } else {
        75
    }
}

/// The gain step that follows: automatic, 0 dB, 20 dB, 40 dB, and again.
pub open spec fn next_gain_index(index: int) -> int {
    (index + 1) % GAIN_STEP_COUNT as int
}

/// The place of a gain among the steps.
pub open spec fn is_step_of(tenths: i32, index: int) -> bool {
    0 <= index < GAIN_STEP_COUNT && gain_step(index) == tenths
}

/// The step with a gain.
pub fn gain_position(tenths: i32) -> (r: Option<usize>)
    ensures
        r matches Some(i) ==> is_step_of(tenths, i as int),
        r is None ==> forall|i: int| !is_step_of(tenths, i),
{
    let mut i: usize = 0;
    while i < GAIN_STEP_COUNT
        invariant
            i <= GAIN_STEP_COUNT,
            forall|j: int| 0 <= j < i ==> !#[trigger] is_step_of(tenths, j),
        decreases GAIN_STEP_COUNT - i,
    {
        if GAIN_STEPS[i] == tenths {
            assert(is_step_of(tenths, i as int));
            return Some(i);
        }
        i = i + 1;
    }
    None
}

/// The step that a gain of the start leads to.
pub open spec fn initial_step(tenths: i32) -> int {
    if tenths == 0 {
        1
    } else if tenths == 200 {
        2
    } else if tenths == 400 {
        3
    } else {
        0
    }
}

/// A gain of the start leads to its own step, or to automatic gain where it has
/// none.
pub proof fn lemma_initial_step(tenths: i32)
    ensures
        0 <= initial_step(tenths) < GAIN_STEP_COUNT,
        forall|i: int| is_step_of(tenths, i) ==> i == initial_step(tenths),
        (forall|i: int| !is_step_of(tenths, i)) ==> initial_step(tenths) == 0,
{
    if initial_step(tenths) != 0 {
        assert(is_step_of(tenths, initial_step(tenths)));
    }
}

/// What is left to do after an event was noted.
pub enum EventEffect<L> {
    Nothing,
    /// Tell the user the rate of the playback.
    Announce(u32),
    /// Draw these samples.
    Trace { left: Vec<L>, right: Vec<L> },
}

/// The state after an event.
pub open spec fn after_event<L>(m: AppModel<L>, e: AppEvent<L>) -> AppModel<L> {
    match e {
        AppEvent::SdrConnected { freq_hz, gain_tenths } => AppModel {
            sdr_connected: true,
            freq_hz,
            gain_tenths,
            status: Seq::empty(),
            ..m
        },
        AppEvent::SdrDisconnected(message) => AppModel {
            sdr_connected: false,
            status: message@,
            ..m
        },
        AppEvent::FilePlaying { path, sample_rate, loop_playback } => AppModel {
            file_path: path@,
            file_loop: loop_playback,
            status: Seq::empty(),
            ..m
        },
        AppEvent::FileFinished => AppModel { status: "Playback finished"@, ..m },
        AppEvent::StereoData { scope_left, scope_right, peak_l, peak_r } => AppModel {
            peak_l,
            peak_r,
            ..m
        },
    }
}

/// What an event leaves to do.
pub open spec fn effect_of<L>(e: AppEvent<L>) -> EventEffect<L> {
    match e {
        AppEvent::FilePlaying { path, sample_rate, loop_playback } => EventEffect::Announce(
            sample_rate,
        ),
        AppEvent::StereoData { scope_left, scope_right, peak_l, peak_r } => EventEffect::Trace {
            left: scope_left,
            right: scope_right,
        },
        _ => EventEffect::Nothing,
    }
}

impl<L: Copy> AppState<L> {
    /// The gain index names a step.
    pub open spec fn wf(&self) -> bool {
        self.gain_index < GAIN_STEP_COUNT
    }

    /// The state at the start; `silence` is the level of silence, `unity` the
    /// volume that changes nothing.
    pub fn new(freq_hz: u32, ppm: i32, silence: L, unity: L) -> (r: Self)
        ensures
            r.wf(),
            r@ == initial(freq_hz, ppm, silence, unity),
    {
        let r = AppState {
            input_source: InputSource::Sdr,
            file_path: String::new(),
            file_loop: true,
            file_paused: false,
            freq_hz,
            ppm,
            deemphasis_us: 75,
            sdr_connected: false,
            peak_l: silence,
            peak_r: silence,
            audio_device: "-".to_owned(),
            audio_rate: 0,
            requested_rate: 0,
            status_message: String::new(),
            gain_index: 0,
            gain_tenths: -1,
            mono_only: false,
            volume: unity,
            muted: false,
            show_help: false,
            prompt: None,
            prompt_buf: String::new(),
        };
        assert(r@ =~= initial(freq_hz, ppm, silence, unity));
        r
    }

    pub fn gain_label(&self) -> (r: String)
        requires
            self.wf(),
        ensures
            r@ == gain_text(gain_step(self.gain_index as int)),
    {
        let target: i32 = GAIN_STEPS[self.gain_index];
        if target < 0 {
            return "auto".to_owned();
        }
        let mut label: String = String::new();
        text::push_decimal(&mut label, (target / 10) as u64);
        label.append(".");
        text::push_decimal(&mut label, (target % 10) as u64);
        label.append(" dB");
        assert(label@ =~= gain_text(target as int));
        label
    }

    pub fn deemphasis_label(&self) -> (r: String)
        ensures
            r@ == deemphasis_text(self.deemphasis_us),
    {
        if self.deemphasis_us == 50 {
            "50".to_owned()
        } else if self.deemphasis_us == 0 {
            "off".to_owned()
        } else {
            "75".to_owned()
        }
    }

    pub fn cycle_deemphasis(&mut self)
        ensures
            final(self)@ == (AppModel {
                deemphasis_us: next_deemphasis(old(self).deemphasis_us),
                ..old(self)@
            }),
    {
        self.deemphasis_us = if self.deemphasis_us == 75 {
            50
        } else if self.deemphasis_us == 50 {
            0
        } else {
            75
        };
    }

    /// Goes to the next gain step.
    pub fn cycle_gain(&mut self)
        requires
            old(self).wf(),
        ensures
            final(self).wf(),
            final(self)@ == (AppModel {
                gain_index: next_gain_index(old(self)@.gain_index),
                gain_tenths: gain_step(next_gain_index(old(self)@.gain_index)) as i32,
                ..old(self)@
            }),
    {
        self.gain_index = (self.gain_index + 1) % GAIN_STEP_COUNT;
        self.gain_tenths = GAIN_STEPS[self.gain_index];
    }

    /// Takes the gain of the start: a step where it is one, automatic where it
    /// is not.
    pub fn set_initial_gain(&mut self, tenths: i32)
        ensures
            final(self).wf(),
            final(self)@ == (AppModel {
                gain_index: initial_step(tenths),
                gain_tenths: gain_step(initial_step(tenths)) as i32,
                ..old(self)@
            }),
    {
        self.gain_index = match gain_position(tenths) {
            Some(i) => i,
            None => 0,
        };
        self.gain_tenths = GAIN_STEPS[self.gain_index];
        proof {
            lemma_initial_step(tenths);
        }
    }

    /// Notes an event.
    pub fn apply_event(&mut self, event: AppEvent<L>) -> (effect: EventEffect<L>)
        ensures
            final(self)@ == after_event(old(self)@, event),
            effect == effect_of(event),
            final(self).gain_index == old(self).gain_index,
    {
        match event {
            AppEvent::SdrConnected { freq_hz, gain_tenths } => {
                self.sdr_connected = true;
                self.freq_hz = freq_hz;
                self.gain_tenths = gain_tenths;
                self.status_message = String::new();
                EventEffect::Nothing
            },
            AppEvent::SdrDisconnected(message) => {
                self.sdr_connected = false;
                self.status_message = message;
                EventEffect::Nothing
            },
            AppEvent::FilePlaying { path, sample_rate, loop_playback } => {
                self.file_path = path;
                self.file_loop = loop_playback;
                self.status_message = String::new();
                EventEffect::Announce(sample_rate)
            },
            AppEvent::FileFinished => {
                self.status_message = "Playback finished".to_owned();
                EventEffect::Nothing
            },
            AppEvent::StereoData { scope_left, scope_right, peak_l, peak_r } => {
                self.peak_l = peak_l;
                self.peak_r = peak_r;
                EventEffect::Trace { left: scope_left, right: scope_right }
            },
        }
    }
}

/// The de-emphasis cycle has three stations.
pub proof fn lemma_deemphasis_cycle(us: u8)
    requires
        us == 75 || us == 50 || us == 0,
    ensures
        next_deemphasis(next_deemphasis(next_deemphasis(us))) == us,
        next_deemphasis(us) != us,
        next_deemphasis(next_deemphasis(us)) != us,
{
}

/// The gain cycle goes through all steps: automatic, 0 dB, 20 dB, 40 dB, and
/// back to automatic.
pub proof fn lemma_gain_cycle(index: int)
    requires
        0 <= index < GAIN_STEP_COUNT,
    ensures
        next_gain_index(next_gain_index(next_gain_index(next_gain_index(index)))) == index,
        gain_step(0) == -1,
        gain_step(next_gain_index(0)) == 0,
        gain_step(next_gain_index(next_gain_index(0))) == 200,
        gain_step(next_gain_index(next_gain_index(next_gain_index(0)))) == 400,
{
}

/// The wish to end the program, shared between threads.
pub struct ShutdownFlag(Arc<AtomicBool>);

impl ShutdownFlag {
    /// The shared cell.
    pub closed spec fn cell(&self) -> Arc<AtomicBool> {
        self.0
    }

    /// A flag that is not set: its cell is one that `AtomicBool::new` makes for
    /// `false`. What it holds later depends on the threads that share it.
    pub fn new() -> (r: Self)
        ensures
            call_ensures(AtomicBool::new, (false,), *r.cell()),
    {
        ShutdownFlag(Arc::new(AtomicBool::new(false)))
    }

    /// The cell of this flag, for another thread.
    pub fn handle(&self) -> (r: Arc<AtomicBool>)
        ensures
            r == self.cell(),
    {
        self.0.clone()
    }

    /// Sets the flag: `AtomicBool::store` puts `true` into its cell.
    pub fn set(&self)
        ensures
            call_ensures(AtomicBool::store, (&*self.cell(), true, Ordering::Relaxed), ()),
    {
        self.0.store(true, Ordering::Relaxed);
    }

    /// Whether the flag is set: what `AtomicBool::load` reads from its cell. That
    /// depends on the threads that share it.
    pub fn is_set(&self) -> (r: bool)
        ensures
            call_ensures(AtomicBool::load, (&*self.cell(), Ordering::Relaxed), r),
    {
        self.0.load(Ordering::Relaxed)
    }
}

// ---------------------------------------------------------------------------
// What events and steps do
// ---------------------------------------------------------------------------

/// What each event changes: a receiver that answers, its frequency and gain, and the
/// message goes; one that is lost, the message; a file, its path and loop, and
/// the message goes; its end, the message; samples, the two levels. The rest
/// stays.
pub proof fn lemma_event_sets<L>(m: AppModel<L>, e: AppEvent<L>)
    ensures
        ({
            let after = after_event(m, e);
            match e {
                AppEvent::SdrConnected { freq_hz, gain_tenths } => after == (AppModel {
                    sdr_connected: true,
                    freq_hz: freq_hz,
                    gain_tenths: gain_tenths,
                    status: Seq::empty(),
                    ..m
                }),
                AppEvent::SdrDisconnected(message) => after == (AppModel {
                    sdr_connected: false,
                    status: message@,
                    ..m
                }),
                AppEvent::FilePlaying { path, sample_rate, loop_playback } => after == (AppModel {
                    file_path: path@,
                    file_loop: loop_playback,
                    status: Seq::empty(),
                    ..m
                }),
                AppEvent::FileFinished => after == (AppModel { status: "Playback finished"@, ..m }),
                AppEvent::StereoData { scope_left, scope_right, peak_l, peak_r } => after == (
                AppModel { peak_l: peak_l, peak_r: peak_r, ..m }),
            }
        }),
{
}

/// An event that comes twice has no further effect the second time, and one that
/// comes between the samples does not touch their levels.
pub proof fn lemma_events_settle<L>(m: AppModel<L>, e: AppEvent<L>, f: AppEvent<L>)
    ensures
        after_event(after_event(m, e), e) == after_event(m, e),
        e is StereoData && !(f is StereoData) ==> after_event(after_event(m, e), f) == after_event(
            after_event(m, f),
            e,
        ),
{
}

/// A new file is announced with its rate, samples are drawn left and right as they
/// came, and no other event leaves anything to do.
pub proof fn lemma_event_leaves<L>(e: AppEvent<L>)
    ensures
        match effect_of(e) {
            EventEffect::Announce(rate) => e is FilePlaying && rate == e->sample_rate,
            EventEffect::Trace { left, right } => e is StereoData && left == e->scope_left && right
                == e->scope_right,
            EventEffect::Nothing => !(e is FilePlaying) && !(e is StereoData),
        },
{
}

/// The program starts without a receiver, a file, a question or a message; with
/// automatic gain, a time constant of 75 microseconds, stereo, sound and the loop on;
/// at the frequency and the correction that were asked for.
pub proof fn lemma_starts<L>(freq_hz: u32, ppm: i32, silence: L, unity: L)
    ensures
        ({
            let m = initial(freq_hz, ppm, silence, unity);
            &&& m.freq_hz == freq_hz && m.ppm == ppm
            &&& m.input_source == InputSource::Sdr
            &&& !m.sdr_connected && m.file_path.len() == 0 && m.audio_device == "-"@
            &&& m.audio_rate == 0 && m.requested_rate == 0
            &&& m.status.len() == 0 && m.prompt is None && m.prompt_buf.len() == 0
            &&& m.gain_index == 0 && m.gain_tenths == -1
            &&& m.deemphasis_us == 75
            &&& !m.mono_only && !m.muted && !m.show_help && !m.file_paused && m.file_loop
            &&& m.peak_l == silence && m.peak_r == silence && m.volume == unity
        }),
{
}

/// The gain steps are automatic gain, 0, 20 and 40 dB; they are the entries of the
/// table, and four steps lead round.
pub proof fn lemma_gain_steps(index: int)
    requires
        0 <= index < 4,
    ensures
        gain_step(0) == -1 && gain_step(1) == 0 && gain_step(2) == 200 && gain_step(3) == 400,
        GAIN_STEPS@[index] == gain_step(index),
        index < 3 ==> next_gain_index(index) == index + 1,
        next_gain_index(3) == 0,
{
}

/// A gain below zero is shown as a word. Another one is shown with its last digit
/// behind a point: so many whole dB, and the rest.
pub proof fn lemma_gain_shown(tenths: int, whole: nat, rest: nat)
    requires
        rest < 10,
    ensures
        tenths < 0 ==> gain_text(tenths) == "auto"@,
        gain_text((10 * whole + rest) as int) == text::decimal(whole) + "."@ + text::decimal(rest)
            + " dB"@,
{
    let t = 10 * whole + rest;
    assert(t / 10 == whole && t % 10 == rest) by (nonlinear_arith)
        requires
            t == 10 * whole + rest,
            rest < 10,
    ;
}

/// The time constants follow each other 75, 50, none and again 75, which any other
/// value leads to as well; each is shown by its own text.
pub proof fn lemma_deemphasis(us: u8)
    ensures
        us == 75 ==> next_deemphasis(us) == 50 && deemphasis_text(us) == "75"@,
        us == 50 ==> next_deemphasis(us) == 0 && deemphasis_text(us) == "50"@,
        us == 0 ==> next_deemphasis(us) == 75 && deemphasis_text(us) == "off"@,
        us != 75 && us != 50 && us != 0 ==> next_deemphasis(us) == 75 && deemphasis_text(us)
            == "75"@,
{
}

/// A gain of the start is found among the steps -1, 0, 200 and 400, in this order;
/// one that is not there starts with automatic gain.
pub proof fn lemma_first_step(tenths: i32)
    ensures
        tenths == 0 <==> initial_step(tenths) == 1,
        tenths == 200 <==> initial_step(tenths) == 2,
        tenths == 400 <==> initial_step(tenths) == 3,
        tenths != 0 && tenths != 200 && tenths != 400 ==> initial_step(tenths) == 0,
{
}

} // verus!
