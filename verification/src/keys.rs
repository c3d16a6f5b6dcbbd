//! What the keys do.

use crate::app;
use crate::app::{gain_position, AppModel, AppState, PromptKind, GAIN_STEPS};
use crate::controls::{is_volume_down, is_volume_up, Key};
use crate::text;
use vstd::prelude::*;
use vstd::string::*;

verus! {

/// A small step of the frequency.
pub const TUNE_STEP_HZ: i64 = 100_000;

/// A large step of the frequency.
pub const TUNE_COARSE_HZ: i64 = 1_000_000;

/// What a key asks of the program around this library.
pub enum KeyAction {
    Nothing,
    Quit,
    /// Change the volume by a step.
    Volume { up: bool },
    Mute(bool),
    Pause(bool),
    /// Tune the receiver and clear the display.
    Tune(u32),
    /// Move within the file by the usual number of seconds.
    Seek { forward: bool },
    SetGain(i32),
    SetPpm(i32),
    /// Change the decoder and clear the display.
    SetMono(bool),
    SetDeemphasis(u8),
    SetLoop(bool),
    Restart,
    /// Read a frequency in MHz from the text, and call `finish_freq`.
    ReadFreq(String),
    /// Read a gain in dB from the text, and call `finish_gain`.
    ReadGain(String),
}

/// An action with its texts as sequences.
pub enum ActionModel {
    Nothing,
    Quit,
    Volume { up: bool },
    Mute(bool),
    Pause(bool),
    Tune(u32),
    Seek { forward: bool },
    SetGain(i32),
    SetPpm(i32),
    SetMono(bool),
    SetDeemphasis(u8),
    SetLoop(bool),
    Restart,
    ReadFreq(Seq<char>),
    ReadGain(Seq<char>),
}

impl View for KeyAction {
    type V = ActionModel;

    open spec fn view(&self) -> ActionModel {
        match *self {
            KeyAction::Nothing => ActionModel::Nothing,
            KeyAction::Quit => ActionModel::Quit,
            KeyAction::Volume { up } => ActionModel::Volume { up },
            KeyAction::Mute(v) => ActionModel::Mute(v),
            KeyAction::Pause(v) => ActionModel::Pause(v),
            KeyAction::Tune(v) => ActionModel::Tune(v),
            KeyAction::Seek { forward } => ActionModel::Seek { forward },
            KeyAction::SetGain(v) => ActionModel::SetGain(v),
            KeyAction::SetPpm(v) => ActionModel::SetPpm(v),
            KeyAction::SetMono(v) => ActionModel::SetMono(v),
            KeyAction::SetDeemphasis(v) => ActionModel::SetDeemphasis(v),
            KeyAction::SetLoop(v) => ActionModel::SetLoop(v),
            KeyAction::Restart => ActionModel::Restart,
            KeyAction::ReadFreq(s) => ActionModel::ReadFreq(s@),
            KeyAction::ReadGain(s) => ActionModel::ReadGain(s@),
        }
    }
}

/// What is attached: a receiver, a file, or nothing.
#[derive(Clone, Copy, Debug, PartialEq, Eq, Structural)]
pub enum Attached {
    Receiver,
    File,
    Neither,
}

// ---------------------------------------------------------------------------
// Tuning and gain
// ---------------------------------------------------------------------------

/// The frequency after a step: not below zero, and kept to 32 bits.
pub open spec fn tuned(freq_hz: int, delta_hz: int) -> int {
    if freq_hz + delta_hz < 0 {
        0
    } else {
        (freq_hz + delta_hz) % 0x1_0000_0000
    }
}

/// A step up and a step down lead back, unless the lower end comes in between.
pub proof fn lemma_tune_back(freq_hz: int, delta_hz: int)
    requires
        0 <= freq_hz,
        0 <= freq_hz + delta_hz,
        freq_hz < 0x1_0000_0000,
        freq_hz + delta_hz < 0x1_0000_0000,
    ensures
        tuned(tuned(freq_hz, delta_hz), -delta_hz) == freq_hz,
{
}

/// What an initial gain cannot be read from.
#[derive(Clone, Copy, Debug, PartialEq, Eq, Structural)]
pub enum GainError {
    NotANumber,
}

/// The text stands for automatic gain.
pub open spec fn is_auto(gain: Seq<char>) -> bool {
    text::ascii_lowercase(gain) == "auto"@
}

/// Reads the gain of the command line: `auto` in any case, or whole dB. The
/// result is in tenths of a dB.
pub fn parse_gain(gain: &str) -> (r: Result<i32, GainError>)
    requires
        !is_auto(gain@) && text::is_i32(gain@) ==> i32::MIN <= text::number_value(gain@) * 10
            <= i32::MAX,
    ensures
        is_auto(gain@) ==> r == Ok::<i32, GainError>(-1i32),
        !is_auto(gain@) && text::is_i32(gain@) ==> r == Ok::<i32, GainError>(
            (text::number_value(gain@) * 10) as i32,
        ),
        !is_auto(gain@) && !text::is_i32(gain@) ==> r == Err::<i32, GainError>(
            GainError::NotANumber,
        ),
{
    let lower: Vec<char> = text::to_ascii_lower(&text::chars_of(gain));
    let auto: Vec<char> = text::chars_of("auto");
    if text::same(&lower, &auto) {
        return Ok(-1);
    }
    match text::parse_i32(gain) {
        Some(db) => Ok(db * 10),
        None => Err(GainError::NotANumber),
    }
}

/// The words for automatic gain at the prompt.
pub open spec fn is_auto_word(lower: Seq<char>) -> bool {
    lower == "auto"@ || lower == "a"@
}

/// Whether a text in lower case is one of the words for automatic gain.
pub fn names_auto(lower: &str) -> (r: bool)
    ensures
        r == is_auto_word(lower@),
{
    let chars: Vec<char> = text::chars_of(lower);
    text::same(&chars, &text::chars_of("auto")) || text::same(&chars, &text::chars_of("a"))
}

/// The state with automatic gain.
pub open spec fn with_auto_gain<L>(m: AppModel<L>) -> AppModel<L> {
    AppModel { gain_index: 0, gain_tenths: -1i32, ..m }
}

/// `index` is the step that is shown for a gain: its own, or the second one
/// where it is no step.
pub open spec fn shown_step(tenths: i32, index: int) -> bool {
    app::is_step_of(tenths, index) || (index == 1 && forall|j: int| !app::is_step_of(tenths, j))
}

/// The step that is shown for a gain.
pub open spec fn step_for(tenths: i32) -> int {
    if tenths == -1 {
        0
    } else if tenths == 200 {
        2
    } else if tenths == 400 {
        3
    } else {
        1
    }
}

/// There is one step to show for each gain.
pub proof fn lemma_step_for(tenths: i32)
    ensures
        shown_step(tenths, step_for(tenths)),
        0 <= step_for(tenths) < app::GAIN_STEP_COUNT,
        forall|i: int| shown_step(tenths, i) ==> i == step_for(tenths),
{
    assert(tenths == 0 ==> app::is_step_of(tenths, 1));
    assert(tenths == -1 ==> app::is_step_of(tenths, 0));
    assert(tenths == 200 ==> app::is_step_of(tenths, 2));
    assert(tenths == 400 ==> app::is_step_of(tenths, 3));
}

// ---------------------------------------------------------------------------
// The prompt
// ---------------------------------------------------------------------------

/// The question, with the present value. `freq` is the frequency as it is
/// shown.
pub open spec fn question<L>(m: AppModel<L>, kind: PromptKind, freq: Seq<char>) -> Seq<char> {
    match kind {
        PromptKind::Freq => "Frequency MHz ["@ + freq + "]"@,
        PromptKind::Gain => "Gain dB or 'auto' ["@ + app::gain_text(app::gain_step(m.gain_index))
            + "]"@,
        PromptKind::Ppm => "ppm correction ["@ + text::signed_decimal(m.ppm as int) + "]"@,
    }
}

/// The state with a question asked.
pub open spec fn asked<L>(m: AppModel<L>, kind: PromptKind, label: Seq<char>) -> AppModel<L> {
    AppModel { prompt: Some(kind), prompt_buf: Seq::empty(), status: label + ": "@, ..m }
}

/// The state with the answer so far shown behind the question.
pub open spec fn echoed<L>(m: AppModel<L>, freq: Seq<char>) -> AppModel<L> {
    match m.prompt {
        Some(kind) => AppModel { status: question(m, kind, freq) + ": "@ + m.prompt_buf, ..m },
        None => m,
    }
}

/// The state with the prompt closed.
pub open spec fn closed_prompt<L>(m: AppModel<L>) -> AppModel<L> {
    AppModel { prompt: None, prompt_buf: Seq::empty(), ..m }
}

/// What an answer does that is neither empty nor to be read as a number with a
/// fraction.
pub open spec fn answered<L>(m: AppModel<L>, kind: PromptKind, input: Seq<char>) -> (
    AppModel<L>,
    ActionModel,
) {
    match kind {
        PromptKind::Freq => (m, ActionModel::ReadFreq(input)),
        PromptKind::Gain => if is_auto_word(text::lowercase(input)) {
            (
                AppModel { status: "gain "@ + app::gain_text(-1), ..with_auto_gain(m) },
                ActionModel::SetGain(-1i32),
            )
        } else {
            (m, ActionModel::ReadGain(input))
        },
        PromptKind::Ppm => if text::is_i32(input) {
            (
                AppModel {
                    ppm: text::number_value(input) as i32,
                    status: "ppm "@ + text::signed_decimal(text::number_value(input)),
                    ..m
                },
                ActionModel::SetPpm(text::number_value(input) as i32),
            )
        } else {
            (AppModel { status: "bad ppm"@, ..m }, ActionModel::Nothing)
        },
    }
}

/// What a key does while a question is asked.
pub open spec fn prompted<L>(m: AppModel<L>, key: Key, freq: Seq<char>) -> (
    AppModel<L>,
    ActionModel,
) {
    match key {
        Key::Esc => (
            AppModel { status: "cancelled"@, ..closed_prompt(m) },
            ActionModel::Nothing,
        ),
        Key::Enter => {
            let input = text::trimmed(m.prompt_buf);
            if input.len() == 0 {
                (AppModel { status: "cancelled"@, ..closed_prompt(m) }, ActionModel::Nothing)
            } else {
                answered(closed_prompt(m), m.prompt->0, input)
            }
        },
        Key::Backspace => (
            echoed(
                AppModel {
                    prompt_buf: if m.prompt_buf.len() > 0 {
                        m.prompt_buf.drop_last()
                    } else {
                        m.prompt_buf
                    },
                    ..m
                },
                freq,
            ),
            ActionModel::Nothing,
        ),
        Key::Char(c) => (
            echoed(AppModel { prompt_buf: m.prompt_buf.push(c), ..m }, freq),
            ActionModel::Nothing,
        ),
        _ => (m, ActionModel::Nothing),
    }
}

fn joined(a: &str, b: &str) -> (r: String)
    ensures
        r@ == a@ + b@,
{
    let mut out: String = a.to_owned();
    out.append(b);
    out
}

impl<L: Copy> AppState<L> {
    /// Opens the prompt.
    pub fn start_prompt(&mut self, kind: PromptKind, label: &str)
        ensures
            final(self)@ == asked(old(self)@, kind, label@),
            final(self).gain_index == old(self).gain_index,
    {
        self.prompt = Some(kind);
        self.prompt_buf = String::new();
        self.status_message = joined(label, ": ");
        assert(self@ =~= asked(old(self)@, kind, label@));
    }

    fn ask(&self, kind: PromptKind, freq: &str) -> (r: String)
        requires
            self.wf(),
        ensures
            r@ == question(self@, kind, freq@),
    {
        let mut out: String = match kind {
            PromptKind::Freq => joined("Frequency MHz [", freq),
            PromptKind::Gain => joined("Gain dB or 'auto' [", self.gain_label().as_str()),
            PromptKind::Ppm => {
                let mut label: String = "ppm correction [".to_owned();
                text::push_signed(&mut label, self.ppm);
                label
            },
        };
        out.append("]");
        out
    }

    fn echo(&mut self, freq: &str)
        requires
            old(self).wf(),
        ensures
            final(self).wf(),
            final(self)@ == echoed(old(self)@, freq@),
    {
        if let Some(kind) = self.prompt {
            let mut message: String = self.ask(kind, freq);
            message.append(": ");
            message.append(self.prompt_buf.as_str());
            self.status_message = message;
        }
        assert(self@ =~= echoed(old(self)@, freq@));
    }

    /// Takes an answer that is not empty.
    pub fn answer(&mut self, kind: PromptKind, input: &str) -> (action: KeyAction)
        requires
            old(self).wf(),
        ensures
            final(self).wf(),
            (final(self)@, action@) == answered(old(self)@, kind, input@),
    {
        let ghost m = self@;
        match kind {
            PromptKind::Freq => KeyAction::ReadFreq(input.to_owned()),
            PromptKind::Gain => {
                let lower: String = input.to_lowercase();
                if names_auto(lower.as_str()) {
                    self.gain_index = 0;
                    self.gain_tenths = GAIN_STEPS[0];
                    let label: String = self.gain_label();
                    self.status_message = joined("gain ", label.as_str());
                    assert(self@ =~= answered(m, kind, input@).0);
                    KeyAction::SetGain(self.gain_tenths)
                } else {
                    KeyAction::ReadGain(input.to_owned())
                }
            },
            PromptKind::Ppm => match text::parse_i32(input) {
                Some(ppm) => {
                    self.ppm = ppm;
                    let mut message: String = "ppm ".to_owned();
                    text::push_signed(&mut message, ppm);
                    self.status_message = message;
                    assert(self@ =~= answered(m, kind, input@).0);
                    KeyAction::SetPpm(ppm)
                },
                None => {
                    self.status_message = "bad ppm".to_owned();
                    assert(self@ =~= answered(m, kind, input@).0);
                    KeyAction::Nothing
                },
            },
        }
    }

    /// A key while a question is asked. `freq` is the present frequency in MHz
    /// as it is shown.
    pub fn handle_prompt_key(&mut self, key: Key, freq: &str) -> (action: KeyAction)
        requires
            old(self).wf(),
            key is Enter ==> old(self).prompt is Some,
        ensures
            final(self).wf(),
            (final(self)@, action@) == prompted(old(self)@, key, freq@),
    {
        let ghost m = self@;
        match key {
            Key::Esc => {
                self.prompt = None;
                self.prompt_buf = String::new();
                self.status_message = "cancelled".to_owned();
                assert(self@ =~= prompted(m, key, freq@).0);
                KeyAction::Nothing
            },
            Key::Enter => {
                let input: String = text::trim(self.prompt_buf.as_str());
                let kind: Option<PromptKind> = self.prompt;
                self.prompt = None;
                self.prompt_buf = String::new();
                assert(self@ =~= closed_prompt(m));
                if text::chars_of(input.as_str()).len() == 0 {
                    self.status_message = "cancelled".to_owned();
                    assert(self@ =~= prompted(m, key, freq@).0);
                    return KeyAction::Nothing;
                }
                match kind {
                    Some(k) => self.answer(k, input.as_str()),
                    None => KeyAction::Nothing,
                }
            },
            Key::Backspace => {
                let _ = self.prompt_buf.pop();
                proof {
                    let buf = if m.prompt_buf.len() > 0 {
                        m.prompt_buf.drop_last()
                    } else {
                        m.prompt_buf
                    };
                    assert(self@ =~= (AppModel { prompt_buf: buf, ..m }));
                }
                self.echo(freq);
                KeyAction::Nothing
            },
            Key::Char(c) => {
                self.prompt_buf.push(c);
                assert(self@ =~= (AppModel { prompt_buf: m.prompt_buf.push(c), ..m }));
                self.echo(freq);
                KeyAction::Nothing
            },
            _ => KeyAction::Nothing,
        }
    }

    /// Takes the frequency that was read from an answer, if it was one above
    /// zero; `shown` is the answer in MHz as it is shown.
    pub fn finish_freq(&mut self, parsed: Option<u32>, shown: &str) -> (action: KeyAction)
        ensures
            final(self).gain_index == old(self).gain_index,
            parsed matches Some(hz) ==> action@ == ActionModel::Tune(hz) && final(self)@ == (
            AppModel { freq_hz: hz, status: shown@ + " MHz"@, ..old(self)@ }),
            parsed is None ==> action@ == ActionModel::Nothing && final(self)@ == (AppModel {
                status: "bad frequency"@,
                ..old(self)@
            }),
    {
        match parsed {
            Some(hz) => {
                self.freq_hz = hz;
                self.show_frequency(shown);
                KeyAction::Tune(hz)
            },
            None => {
                self.status_message = "bad frequency".to_owned();
                KeyAction::Nothing
            },
        }
    }

    /// Takes the gain in tenths of a dB that was read from an answer, if it was
    /// a number.
    pub fn finish_gain(&mut self, parsed: Option<i32>) -> (action: KeyAction)
        requires
            old(self).wf(),
        ensures
            final(self).wf(),
            parsed matches Some(tenths) ==> action@ == ActionModel::SetGain(tenths) && final(self)@
                == (AppModel {
                gain_tenths: tenths,
                gain_index: step_for(tenths),
                status: "gain "@ + app::gain_text(app::gain_step(step_for(tenths))),
                ..old(self)@
            }),
            parsed is None ==> action@ == ActionModel::Nothing && final(self)@ == (AppModel {
                status: "bad gain"@,
                ..old(self)@
            }),
    {
        match parsed {
            Some(tenths) => {
                self.gain_tenths = tenths;
                self.gain_index = match gain_position(tenths) {
                    Some(i) => i,
                    None => 1,
                };
                proof {
                    lemma_step_for(tenths);
                    assert(shown_step(tenths, self.gain_index as int));
                }
                let label: String = self.gain_label();
                self.status_message = joined("gain ", label.as_str());
                KeyAction::SetGain(tenths)
            },
            None => {
                self.status_message = "bad gain".to_owned();
                KeyAction::Nothing
            },
        }
    }

    /// Shows a frequency.
    pub fn show_frequency(&mut self, shown: &str)
        ensures
            final(self)@ == (AppModel { status: shown@ + " MHz"@, ..old(self)@ }),
            final(self).gain_index == old(self).gain_index,
    {
        self.status_message = joined(shown, " MHz");
    }

    fn tune(&mut self, delta_hz: i64) -> (action: KeyAction)
        requires
            -TUNE_COARSE_HZ <= delta_hz <= TUNE_COARSE_HZ,
        ensures
            final(self).gain_index == old(self).gain_index,
            action@ == ActionModel::Tune(tuned(old(self)@.freq_hz as int, delta_hz as int) as u32),
            final(self)@ == (AppModel {
                freq_hz: tuned(old(self)@.freq_hz as int, delta_hz as int) as u32,
                ..old(self)@
            }),
    {
        let moved: i64 = self.freq_hz as i64 + delta_hz;
        self.freq_hz = if moved < 0 {
            0
        } else {
            (moved % 0x1_0000_0000) as u32
        };
        KeyAction::Tune(self.freq_hz)
    }
}

// ---------------------------------------------------------------------------
// The other keys
// ---------------------------------------------------------------------------

pub open spec fn with_status<L>(m: AppModel<L>, status: Seq<char>) -> AppModel<L> {
    AppModel { status, ..m }
}

/// A step of the frequency.
pub open spec fn stepped<L>(m: AppModel<L>, delta_hz: int) -> (AppModel<L>, ActionModel) {
    let freq_hz = tuned(m.freq_hz as int, delta_hz) as u32;
    (AppModel { freq_hz, ..m }, ActionModel::Tune(freq_hz))
}

/// What a key does with a receiver attached, where that depends on it.
pub open spec fn receiver_key<L>(m: AppModel<L>, key: Key, freq: Seq<char>) -> Option<
    (AppModel<L>, ActionModel),
> {
    match key {
        Key::Up | Key::Char('.') | Key::Char('+') | Key::Char('=') => Some(
            stepped(m, TUNE_STEP_HZ as int),
        ),
        Key::Down | Key::Char(',') | Key::Char('-') => Some(stepped(m, -TUNE_STEP_HZ)),
        Key::Right | Key::Char('>') => Some(stepped(m, TUNE_COARSE_HZ as int)),
        Key::Left | Key::Char('<') => Some(stepped(m, -TUNE_COARSE_HZ)),
        Key::Char(' ') => Some(
            (
                AppModel {
                    muted: !m.muted,
                    status: if m.muted {
                        "unmuted"@
                    } else {
                        "muted"@
                    },
                    ..m
                },
                ActionModel::Mute(!m.muted),
            ),
        ),
        Key::Char('g') => {
            let index = app::next_gain_index(m.gain_index);
            let tenths = app::gain_step(index) as i32;
            Some(
                (
                    AppModel {
                        gain_index: index,
                        gain_tenths: tenths,
                        status: "gain "@ + app::gain_text(app::gain_step(index)),
                        ..m
                    },
                    ActionModel::SetGain(tenths),
                ),
            )
        },
        Key::Char('f') => Some(
            (
                asked(m, PromptKind::Freq, question(m, PromptKind::Freq, freq)),
                ActionModel::Nothing,
            ),
        ),
        Key::Char('p') => Some(
            (
                asked(m, PromptKind::Ppm, question(m, PromptKind::Ppm, freq)),
                ActionModel::Nothing,
            ),
        ),
        Key::Char('m') => Some(
            (
                AppModel {
                    mono_only: !m.mono_only,
                    status: if m.mono_only {
                        "stereo"@
                    } else {
                        "mono"@
                    },
                    ..m
                },
                ActionModel::SetMono(!m.mono_only),
            ),
        ),
        Key::Char('d') => {
            let us = app::next_deemphasis(m.deemphasis_us);
            Some(
                (
                    AppModel {
                        deemphasis_us: us,
                        status: "de-emph "@ + app::deemphasis_text(us),
                        ..m
                    },
                    ActionModel::SetDeemphasis(us),
                ),
            )
        },
        _ => None,
    }
}

/// What a key does with a file attached, where that depends on it.
pub open spec fn file_key<L>(m: AppModel<L>, key: Key) -> Option<(AppModel<L>, ActionModel)> {
    match key {
        Key::Char(' ') => Some(
            (
                AppModel {
                    file_paused: !m.file_paused,
                    status: if m.file_paused {
                        "playing"@
                    } else {
                        "paused"@
                    },
                    ..m
                },
                ActionModel::Pause(!m.file_paused),
            ),
        ),
        Key::Left | Key::Char('<') => Some(
            (
                AppModel { file_paused: false, status: "seek -10s"@, ..m },
                ActionModel::Seek { forward: false },
            ),
        ),
        Key::Right | Key::Char('>') => Some(
            (
                AppModel { file_paused: false, status: "seek +10s"@, ..m },
                ActionModel::Seek { forward: true },
            ),
        ),
        Key::Char('l') => Some(
            (
                AppModel {
                    file_loop: !m.file_loop,
                    status: if m.file_loop {
                        "loop off"@
                    } else {
                        "loop on"@
                    },
                    ..m
                },
                ActionModel::SetLoop(!m.file_loop),
            ),
        ),
        Key::Char('r') => Some(
            (
                AppModel { file_paused: false, status: "restarted"@, ..m },
                ActionModel::Restart,
            ),
        ),
        Key::Char('f') => Some(
            (
                with_status(
                    m,
                    "use --file to switch sources; restart without --file for SDR"@,
                ),
                ActionModel::Nothing,
            ),
        ),
        _ => None,
    }
}

/// What a key does whatever is attached.
pub open spec fn common_key<L>(m: AppModel<L>, key: Key) -> (AppModel<L>, ActionModel) {
    match key {
        Key::Char('q') | Key::Esc => (m, ActionModel::Quit),
        Key::Char('h') | Key::Char('?') => (
            AppModel { show_help: !m.show_help, ..m },
            ActionModel::Nothing,
        ),
        Key::Char('o') => (
            with_status(m, "use --file <path> or restart without --file to switch source"@),
            ActionModel::Nothing,
        ),
        Key::Char('+') | Key::Char('=') => (m, ActionModel::Volume { up: true }),
        Key::Char('-') | Key::Char('_') => (m, ActionModel::Volume { up: false }),
        _ => (m, ActionModel::Nothing),
    }
}

/// What a key does.
pub open spec fn pressed<L>(m: AppModel<L>, key: Key, attached: Attached, freq: Seq<char>) -> (
    AppModel<L>,
    ActionModel,
) {
    if m.prompt is Some {
        prompted(m, key, freq)
    } else {
        let own = match attached {
            Attached::Receiver => receiver_key(m, key, freq),
            Attached::File => file_key(m, key),
            Attached::Neither => None,
        };
        match own {
            Some(result) => result,
            None => common_key(m, key),
        }
    }
}

impl<L: Copy> AppState<L> {
    /// A key. `freq` is the present frequency in MHz as it is shown.
    pub fn press(&mut self, key: Key, attached: Attached, freq: &str) -> (action: KeyAction)
        requires
            old(self).wf(),
        ensures
            final(self).wf(),
            (final(self)@, action@) == pressed(old(self)@, key, attached, freq@),
    {
        if self.prompt.is_some() {
            return self.handle_prompt_key(key, freq);
        }
        let own: Option<KeyAction> = match attached {
            Attached::Receiver => self.press_receiver(key, freq),
            Attached::File => self.press_file(key),
            Attached::Neither => None,
        };
        match own {
            Some(action) => action,
            None => self.press_common(key),
        }
    }

    fn press_receiver(&mut self, key: Key, freq: &str) -> (r: Option<KeyAction>)
        requires
            old(self).wf(),
        ensures
            final(self).wf(),
            match receiver_key(old(self)@, key, freq@) {
                Some((m, a)) => final(self)@ == m && (r matches Some(action) && action@ == a),
                None => final(self)@ == old(self)@ && r is None,
            },
    {
        match key {
            Key::Up | Key::Char('.') | Key::Char('+') | Key::Char('=') => Some(
                self.tune(TUNE_STEP_HZ),
            ),
            Key::Down | Key::Char(',') | Key::Char('-') => Some(self.tune(-TUNE_STEP_HZ)),
            Key::Right | Key::Char('>') => Some(self.tune(TUNE_COARSE_HZ)),
            Key::Left | Key::Char('<') => Some(self.tune(-TUNE_COARSE_HZ)),
            Key::Char(' ') => {
                self.muted = !self.muted;
                self.status_message = if self.muted {
                    "muted".to_owned()
                } else {
                    "unmuted".to_owned()
                };
                Some(KeyAction::Mute(self.muted))
            },
            Key::Char('g') => {
                self.cycle_gain();
                let label: String = self.gain_label();
                self.status_message = joined("gain ", label.as_str());
                Some(KeyAction::SetGain(self.gain_tenths))
            },
            Key::Char('f') => {
                let label: String = self.ask(PromptKind::Freq, freq);
                self.start_prompt(PromptKind::Freq, label.as_str());
                Some(KeyAction::Nothing)
            },
            Key::Char('p') => {
                let label: String = self.ask(PromptKind::Ppm, freq);
                self.start_prompt(PromptKind::Ppm, label.as_str());
                Some(KeyAction::Nothing)
            },
            Key::Char('m') => {
                self.mono_only = !self.mono_only;
                self.status_message = if self.mono_only {
                    "mono".to_owned()
                } else {
                    "stereo".to_owned()
                };
                Some(KeyAction::SetMono(self.mono_only))
            },
            Key::Char('d') => {
                self.cycle_deemphasis();
                let label: String = self.deemphasis_label();
                self.status_message = joined("de-emph ", label.as_str());
                Some(KeyAction::SetDeemphasis(self.deemphasis_us))
            },
            _ => None,
        }
    }

    fn press_file(&mut self, key: Key) -> (r: Option<KeyAction>)
        requires
            old(self).wf(),
        ensures
            final(self).wf(),
            match file_key(old(self)@, key) {
                Some((m, a)) => final(self)@ == m && (r matches Some(action) && action@ == a),
                None => final(self)@ == old(self)@ && r is None,
            },
    {
        match key {
            Key::Char(' ') => {
                self.file_paused = !self.file_paused;
                self.status_message = if self.file_paused {
                    "paused".to_owned()
                } else {
                    "playing".to_owned()
                };
                Some(KeyAction::Pause(self.file_paused))
            },
            Key::Left | Key::Char('<') => {
                self.file_paused = false;
                self.status_message = "seek -10s".to_owned();
                Some(KeyAction::Seek { forward: false })
            },
            Key::Right | Key::Char('>') => {
                self.file_paused = false;
                self.status_message = "seek +10s".to_owned();
                Some(KeyAction::Seek { forward: true })
            },
            Key::Char('l') => {
                self.file_loop = !self.file_loop;
                self.status_message = if self.file_loop {
                    "loop on".to_owned()
                } else {
                    "loop off".to_owned()
                };
                Some(KeyAction::SetLoop(self.file_loop))
            },
            Key::Char('r') => {
                self.file_paused = false;
                self.status_message = "restarted".to_owned();
                Some(KeyAction::Restart)
            },
            Key::Char('f') => {
                self.status_message =
                    "use --file to switch sources; restart without --file for SDR".to_owned();
                Some(KeyAction::Nothing)
            },
            _ => None,
        }
    }

    fn press_common(&mut self, key: Key) -> (action: KeyAction)
        requires
            old(self).wf(),
        ensures
            final(self).wf(),
            (final(self)@, action@) == common_key(old(self)@, key),
    {
        match key {
            Key::Char('q') | Key::Esc => KeyAction::Quit,
            Key::Char('h') | Key::Char('?') => {
                self.show_help = !self.show_help;
                KeyAction::Nothing
            },
            Key::Char('o') => {
                self.status_message =
                    "use --file <path> or restart without --file to switch source".to_owned();
                KeyAction::Nothing
            },
            Key::Char(c) => if is_volume_up(c) {
                KeyAction::Volume { up: true }
            } else if is_volume_down(c) {
                KeyAction::Volume { up: false }
            } else {
                KeyAction::Nothing
            },
            _ => KeyAction::Nothing,
        }
    }
}

// ---------------------------------------------------------------------------
// Properties of the keys
// ---------------------------------------------------------------------------

/// A character that is typed and taken back leaves the answer as it was.
pub proof fn lemma_backspace_undoes<L>(m: AppModel<L>, c: char, freq: Seq<char>)
    requires
        m.prompt is Some,
    ensures
        prompted(prompted(m, Key::Char(c), freq).0, Key::Backspace, freq).0.prompt_buf
            == m.prompt_buf,
        prompted(prompted(m, Key::Char(c), freq).0, Key::Backspace, freq).0 == echoed(m, freq),
{
    let typed = prompted(m, Key::Char(c), freq).0;
    assert(typed.prompt_buf.drop_last() =~= m.prompt_buf);
    assert(prompted(typed, Key::Backspace, freq).0 =~= echoed(m, freq));
}

/// The escape key closes the prompt and changes nothing else but the message.
pub proof fn lemma_escape_cancels<L>(m: AppModel<L>, attached: Attached, freq: Seq<char>)
    requires
        m.prompt is Some,
    ensures
        pressed(m, Key::Esc, attached, freq) == (
            with_status(closed_prompt(m), "cancelled"@),
            ActionModel::Nothing,
        ),
{
}

/// Without a prompt, `q` and the escape key end the program, whatever is
/// attached.
pub proof fn lemma_quit_keys<L>(m: AppModel<L>, attached: Attached, freq: Seq<char>)
    requires
        m.prompt is None,
    ensures
        pressed(m, Key::Char('q'), attached, freq) == (m, ActionModel::Quit),
        pressed(m, Key::Esc, attached, freq) == (m, ActionModel::Quit),
{
}

/// `+` and `-` tune the receiver up and down by 0.1 MHz, and one undoes the
/// other away from the ends of the range.
pub proof fn lemma_tune_keys<L>(m: AppModel<L>, freq: Seq<char>)
    requires
        m.prompt is None,
        m.freq_hz + TUNE_STEP_HZ <= u32::MAX,
    ensures
        pressed(m, Key::Char('+'), Attached::Receiver, freq).0.freq_hz == m.freq_hz + 100_000,
        pressed(m, Key::Char('='), Attached::Receiver, freq).0.freq_hz == m.freq_hz + 100_000,
        m.freq_hz >= 100_000 ==> pressed(m, Key::Char('-'), Attached::Receiver, freq).0.freq_hz
            == m.freq_hz - 100_000,
        pressed(
            pressed(m, Key::Char('+'), Attached::Receiver, freq).0,
            Key::Char('-'),
            Attached::Receiver,
            freq,
        ).0 == m,
{
}

/// Four presses of `g` go through all gain steps and lead back.
pub proof fn lemma_gain_key_cycles<L>(m: AppModel<L>, freq: Seq<char>)
    requires
        m.prompt is None,
        0 <= m.gain_index < app::GAIN_STEP_COUNT,
    ensures
        ({
            let m1 = pressed(m, Key::Char('g'), Attached::Receiver, freq).0;
            let m2 = pressed(m1, Key::Char('g'), Attached::Receiver, freq).0;
            let m3 = pressed(m2, Key::Char('g'), Attached::Receiver, freq).0;
            let m4 = pressed(m3, Key::Char('g'), Attached::Receiver, freq).0;
            &&& m4.gain_index == m.gain_index
            &&& m4.gain_tenths == app::gain_step(m.gain_index)
        }),
{
}

/// Keys that switch something switch it back when pressed again.
pub proof fn lemma_toggles<L>(m: AppModel<L>, freq: Seq<char>)
    requires
        m.prompt is None,
    ensures
        ({
            let m1 = pressed(m, Key::Char('m'), Attached::Receiver, freq).0;
            pressed(m1, Key::Char('m'), Attached::Receiver, freq).0.mono_only == m.mono_only
        }),
        ({
            let m1 = pressed(m, Key::Char(' '), Attached::Receiver, freq).0;
            pressed(m1, Key::Char(' '), Attached::Receiver, freq).0.muted == m.muted
        }),
        ({
            let m1 = pressed(m, Key::Char(' '), Attached::File, freq).0;
            pressed(m1, Key::Char(' '), Attached::File, freq).0.file_paused == m.file_paused
        }),
        ({
            let m1 = pressed(m, Key::Char('l'), Attached::File, freq).0;
            pressed(m1, Key::Char('l'), Attached::File, freq).0.file_loop == m.file_loop
        }),
        ({
            let m1 = pressed(m, Key::Char('h'), Attached::Neither, freq).0;
            pressed(m1, Key::Char('h'), Attached::Neither, freq).0 == m
        }),
{
}

/// The key tunes up by 0.1 MHz with a receiver.
pub open spec fn tunes_up(key: Key) -> bool {
    key == Key::Up || key == Key::Char('.') || key == Key::Char('+') || key == Key::Char('=')
}

/// The key tunes down by 0.1 MHz with a receiver.
pub open spec fn tunes_down(key: Key) -> bool {
    key == Key::Down || key == Key::Char(',') || key == Key::Char('-')
}

/// The key leads to the right: up by 1 MHz, or onwards in a file.
pub open spec fn leads_right(key: Key) -> bool {
    key == Key::Right || key == Key::Char('>')
}

/// The key leads to the left: down by 1 MHz, or back in a file.
pub open spec fn leads_left(key: Key) -> bool {
    key == Key::Left || key == Key::Char('<')
}

/// With a receiver, the arrow up and `.`, `+`, `=` raise the frequency by 0.1 MHz,
/// the arrow down and `,`, `-` lower it by as much; the arrow right and `>` raise it
/// by 1 MHz, the arrow left and `<` lower it. It does not go below zero. The
/// receiver is tuned to what it then is, and nothing else changes.
pub proof fn lemma_tuning_keys<L>(m: AppModel<L>, key: Key, freq: Seq<char>)
    requires
        m.prompt is None,
        tunes_up(key) || tunes_down(key) || leads_right(key) || leads_left(key),
    ensures
        ({
            let (after, action) = pressed(m, key, Attached::Receiver, freq);
            let f = after.freq_hz;
            &&& action == ActionModel::Tune(f)
            &&& after == (AppModel { freq_hz: f, ..m })
            &&& tunes_up(key) && m.freq_hz + 100_000 <= u32::MAX ==> f == m.freq_hz + 100_000
            &&& tunes_down(key) && m.freq_hz >= 100_000 ==> f == m.freq_hz - 100_000
            &&& leads_right(key) && m.freq_hz + 1_000_000 <= u32::MAX ==> f == m.freq_hz
                + 1_000_000
            &&& leads_left(key) && m.freq_hz >= 1_000_000 ==> f == m.freq_hz - 1_000_000
            &&& tunes_down(key) && m.freq_hz < 100_000 ==> f == 0
            &&& leads_left(key) && m.freq_hz < 1_000_000 ==> f == 0
        }),
{
}

/// Keys that lead in opposite directions undo each other, away from the ends of
/// the range.
pub proof fn lemma_opposite_keys<L>(m: AppModel<L>, key: Key, back: Key, freq: Seq<char>)
    requires
        m.prompt is None,
        (tunes_up(key) && tunes_down(back)) || (leads_right(key) && leads_left(back)),
        m.freq_hz + 1_000_000 <= u32::MAX,
    ensures
        pressed(
            pressed(m, key, Attached::Receiver, freq).0,
            back,
            Attached::Receiver,
            freq,
        ).0 == m,
{
}

/// With a receiver, the space bar switches the sound off and on, and `m` mono: the
/// new state is the other one, it is handed on and named, and nothing else changes.
pub proof fn lemma_receiver_switches<L>(m: AppModel<L>, freq: Seq<char>)
    requires
        m.prompt is None,
    ensures
        pressed(m, Key::Char(' '), Attached::Receiver, freq) == (
            AppModel {
                muted: !m.muted,
                status: if m.muted {
                    "unmuted"@
                } else {
                    "muted"@
                },
                ..m
            },
            ActionModel::Mute(!m.muted),
        ),
        pressed(m, Key::Char('m'), Attached::Receiver, freq) == (
            AppModel {
                mono_only: !m.mono_only,
                status: if m.mono_only {
                    "stereo"@
                } else {
                    "mono"@
                },
                ..m
            },
            ActionModel::SetMono(!m.mono_only),
        ),
{
}

/// With a receiver, `g` goes from automatic gain to 0, 20 and 40 dB and back, and
/// `d` from a time constant of 75 to 50 microseconds, to none and back. The new
/// value is handed on and named, and nothing else changes.
pub proof fn lemma_cycling_keys<L>(m: AppModel<L>, freq: Seq<char>)
    requires
        m.prompt is None,
        0 <= m.gain_index <= 3,
    ensures
        ({
            let (after, action) = pressed(m, Key::Char('g'), Attached::Receiver, freq);
            &&& after.gain_index == (if m.gain_index == 3 {
                0
            } else {
                m.gain_index + 1
            })
            &&& after.gain_tenths == (if m.gain_index == 3 {
                -1
            } else {
                200 * m.gain_index
            })
            &&& action == ActionModel::SetGain(after.gain_tenths)
            &&& after.status == "gain "@ + app::gain_text(after.gain_tenths as int)
            &&& after == (AppModel {
                gain_index: after.gain_index,
                gain_tenths: after.gain_tenths,
                status: after.status,
                ..m
            })
        }),
        ({
            let (after, action) = pressed(m, Key::Char('d'), Attached::Receiver, freq);
            &&& m.deemphasis_us == 75 ==> after.deemphasis_us == 50
            &&& m.deemphasis_us == 50 ==> after.deemphasis_us == 0
            &&& m.deemphasis_us != 75 && m.deemphasis_us != 50 ==> after.deemphasis_us == 75
            &&& action == ActionModel::SetDeemphasis(after.deemphasis_us)
            &&& after.status == "de-emph "@ + app::deemphasis_text(after.deemphasis_us)
            &&& after == (AppModel {
                deemphasis_us: after.deemphasis_us,
                status: after.status,
                ..m
            })
        }),
{
}

/// With a receiver, `f` asks for a frequency and `p` for a correction: the answer
/// starts empty, the question shows the present value, and nothing else changes.
pub proof fn lemma_asking_keys<L>(m: AppModel<L>, freq: Seq<char>)
    requires
        m.prompt is None,
    ensures
        pressed(m, Key::Char('f'), Attached::Receiver, freq) == (
            AppModel {
                prompt: Some(PromptKind::Freq),
                prompt_buf: Seq::empty(),
                status: "Frequency MHz ["@ + freq + "]"@ + ": "@,
                ..m
            },
            ActionModel::Nothing,
        ),
        pressed(m, Key::Char('p'), Attached::Receiver, freq) == (
            AppModel {
                prompt: Some(PromptKind::Ppm),
                prompt_buf: Seq::empty(),
                status: "ppm correction ["@ + text::signed_decimal(m.ppm as int) + "]"@ + ": "@,
                ..m
            },
            ActionModel::Nothing,
        ),
{
}

/// With a file, the space bar pauses and goes on, `l` switches the loop, the keys
/// to the left and right seek by ten seconds, `r` starts again. Seeking and
/// starting again end a pause.
pub proof fn lemma_file_keys<L>(m: AppModel<L>, key: Key, freq: Seq<char>)
    requires
        m.prompt is None,
    ensures
        pressed(m, Key::Char(' '), Attached::File, freq) == (
            AppModel {
                file_paused: !m.file_paused,
                status: if m.file_paused {
                    "playing"@
                } else {
                    "paused"@
                },
                ..m
            },
            ActionModel::Pause(!m.file_paused),
        ),
        pressed(m, Key::Char('l'), Attached::File, freq) == (
            AppModel {
                file_loop: !m.file_loop,
                status: if m.file_loop {
                    "loop off"@
                } else {
                    "loop on"@
                },
                ..m
            },
            ActionModel::SetLoop(!m.file_loop),
        ),
        pressed(m, Key::Char('r'), Attached::File, freq) == (
            AppModel { file_paused: false, status: "restarted"@, ..m },
            ActionModel::Restart,
        ),
        leads_left(key) ==> pressed(m, key, Attached::File, freq) == (
            AppModel { file_paused: false, status: "seek -10s"@, ..m },
            ActionModel::Seek { forward: false },
        ),
        leads_right(key) ==> pressed(m, key, Attached::File, freq) == (
            AppModel { file_paused: false, status: "seek +10s"@, ..m },
            ActionModel::Seek { forward: true },
        ),
{
}

/// `+` and `=` raise the volume where no receiver is attached, and `-` lowers it;
/// `_` lowers it everywhere. The state stays.
pub proof fn lemma_volume_keys<L>(m: AppModel<L>, attached: Attached, freq: Seq<char>)
    requires
        m.prompt is None,
    ensures
        attached != Attached::Receiver ==> {
            &&& pressed(m, Key::Char('+'), attached, freq) == (m, ActionModel::Volume { up: true })
            &&& pressed(m, Key::Char('='), attached, freq) == (m, ActionModel::Volume { up: true })
            &&& pressed(m, Key::Char('-'), attached, freq) == (m, ActionModel::Volume { up: false })
        },
        pressed(m, Key::Char('_'), attached, freq) == (m, ActionModel::Volume { up: false }),
{
}

/// `h` and `?` show and take away the help, whatever is attached.
pub proof fn lemma_help_keys<L>(m: AppModel<L>, attached: Attached, freq: Seq<char>)
    requires
        m.prompt is None,
    ensures
        pressed(m, Key::Char('h'), attached, freq) == (
            AppModel { show_help: !m.show_help, ..m },
            ActionModel::Nothing,
        ),
        pressed(m, Key::Char('?'), attached, freq) == (
            AppModel { show_help: !m.show_help, ..m },
            ActionModel::Nothing,
        ),
{
}

/// Keys for which nothing is attached, and all other keys, ask for nothing; at
/// most a message changes.
pub proof fn lemma_other_keys<L>(m: AppModel<L>, key: Key, attached: Attached, freq: Seq<char>)
    requires
        m.prompt is None,
        key != Key::Esc,
        forall|c: char|
            key == Key::Char(c) ==> !"qh?+=-_ .,><gfpmdlr"@.contains(c),
        attached == Attached::Neither || !(key == Key::Up || key == Key::Down || key == Key::Left
            || key == Key::Right),
    ensures
        pressed(m, key, attached, freq).1 == ActionModel::Nothing,
        pressed(m, key, attached, freq).0 == (AppModel {
            status: pressed(m, key, attached, freq).0.status,
            ..m
        }),
        key != Key::Char('o') ==> pressed(m, key, attached, freq).0 == m,
{
    reveal_strlit("qh?+=-_ .,><gfpmdlr");
    let known = "qh?+=-_ .,><gfpmdlr"@;
    assert(known[0] == 'q' && known[1] == 'h' && known[2] == '?' && known[3] == '+' && known[4]
        == '=' && known[5] == '-' && known[6] == '_' && known[7] == ' ' && known[8] == '.'
        && known[9] == ',' && known[10] == '>' && known[11] == '<' && known[12] == 'g' && known[13]
        == 'f' && known[14] == 'p' && known[15] == 'm' && known[16] == 'd' && known[17] == 'l'
        && known[18] == 'r');
    assert(known.contains('q') && known.contains('h') && known.contains('?') && known.contains('+')
        && known.contains('=') && known.contains('-') && known.contains('_') && known.contains(' ')
        && known.contains('.') && known.contains(',') && known.contains('>') && known.contains('<')
        && known.contains('g') && known.contains('f') && known.contains('p') && known.contains('m')
        && known.contains('d') && known.contains('l') && known.contains('r'));
    match key {
        Key::Char(c) => {
            assert(!known.contains(c));
        },
        _ => {},
    }
}

/// While a question is asked, characters are added to the answer, and the backspace
/// key takes the last one off, whatever is attached and whatever the characters do
/// otherwise. The answer is shown behind the question, nothing is asked of the
/// program, and the prompt stays open.
pub proof fn lemma_typing<L>(m: AppModel<L>, c: char, attached: Attached, freq: Seq<char>)
    requires
        m.prompt is Some,
    ensures
        ({
            let (after, action) = pressed(m, Key::Char(c), attached, freq);
            &&& action == ActionModel::Nothing
            &&& after.prompt_buf == m.prompt_buf.push(c)
            &&& after == (AppModel {
                prompt_buf: after.prompt_buf,
                status: question(m, m.prompt->0, freq) + ": "@ + after.prompt_buf,
                ..m
            })
        }),
        ({
            let (after, action) = pressed(m, Key::Backspace, attached, freq);
            &&& action == ActionModel::Nothing
            &&& m.prompt_buf.len() > 0 ==> after.prompt_buf == m.prompt_buf.drop_last()
            &&& m.prompt_buf.len() == 0 ==> after.prompt_buf == m.prompt_buf
            &&& after == (AppModel {
                prompt_buf: after.prompt_buf,
                status: question(m, m.prompt->0, freq) + ": "@ + after.prompt_buf,
                ..m
            })
        }),
{
}

/// The question shows what is asked for and the present value.
pub proof fn lemma_question<L>(m: AppModel<L>, freq: Seq<char>)
    requires
        0 <= m.gain_index <= 3,
    ensures
        question(m, PromptKind::Freq, freq) == "Frequency MHz ["@ + freq + "]"@,
        question(m, PromptKind::Ppm, freq) == "ppm correction ["@ + text::signed_decimal(
            m.ppm as int,
        ) + "]"@,
        question(m, PromptKind::Gain, freq) == "Gain dB or 'auto' ["@ + app::gain_text(
            if m.gain_index == 0 {
                -1
            } else {
                200 * (m.gain_index - 1)
            },
        ) + "]"@,
{
}

/// Keys that neither type nor close do nothing while a question is asked.
pub proof fn lemma_prompt_ignores<L>(
    m: AppModel<L>,
    key: Key,
    attached: Attached,
    freq: Seq<char>,
)
    requires
        m.prompt is Some,
        key == Key::Up || key == Key::Down || key == Key::Left || key == Key::Right || key
            == Key::Other,
    ensures
        pressed(m, key, attached, freq) == (m, ActionModel::Nothing),
{
}

/// The enter key closes the prompt. An answer of white space alone cancels; another
/// one is taken without the white space around it: a frequency is handed on to be
/// read; a correction that is a whole number is set and handed on, and refused
/// otherwise; for a gain the words `auto` and `a` set automatic gain, and others
/// are handed on to be read.
pub proof fn lemma_answers<L>(m: AppModel<L>, attached: Attached, freq: Seq<char>)
    requires
        m.prompt is Some,
    ensures
        ({
            let input = text::trimmed(m.prompt_buf);
            let low = text::lowercase(input);
            let (after, action) = pressed(m, Key::Enter, attached, freq);
            &&& after.prompt is None
            &&& after.prompt_buf.len() == 0
            &&& input.len() == 0 ==> {
                &&& action == ActionModel::Nothing
                &&& after == (AppModel {
                    prompt: None,
                    prompt_buf: Seq::empty(),
                    status: "cancelled"@,
                    ..m
                })
            }
            &&& input.len() > 0 && m.prompt == Some(PromptKind::Freq) ==> {
                &&& action == ActionModel::ReadFreq(input)
                &&& after == (AppModel { prompt: None, prompt_buf: Seq::empty(), ..m })
            }
            &&& input.len() > 0 && m.prompt == Some(PromptKind::Ppm) && text::is_i32(input) ==> {
                &&& after.ppm == text::number_value(input)
                &&& action == ActionModel::SetPpm(after.ppm)
                &&& after == (AppModel {
                    prompt: None,
                    prompt_buf: Seq::empty(),
                    ppm: after.ppm,
                    status: "ppm "@ + text::signed_decimal(after.ppm as int),
                    ..m
                })
            }
            &&& input.len() > 0 && m.prompt == Some(PromptKind::Ppm) && !text::is_i32(input) ==> {
                &&& action == ActionModel::Nothing
                &&& after == (AppModel {
                    prompt: None,
                    prompt_buf: Seq::empty(),
                    status: "bad ppm"@,
                    ..m
                })
            }
            &&& input.len() > 0 && m.prompt == Some(PromptKind::Gain) && (low == "auto"@ || low
                == "a"@) ==> {
                &&& action == ActionModel::SetGain(-1i32)
                &&& after == (AppModel {
                    prompt: None,
                    prompt_buf: Seq::empty(),
                    gain_index: 0,
                    gain_tenths: -1i32,
                    status: "gain "@ + "auto"@,
                    ..m
                })
            }
            &&& input.len() > 0 && m.prompt == Some(PromptKind::Gain) && !(low == "auto"@ || low
                == "a"@) ==> {
                &&& action == ActionModel::ReadGain(input)
                &&& after == (AppModel { prompt: None, prompt_buf: Seq::empty(), ..m })
            }
        }),
{
}

/// The gain of the command line is automatic for the four letters of the word in
/// either case, and for nothing else.
pub proof fn lemma_auto(gain: Seq<char>)
    ensures
        is_auto(gain) <==> gain.len() == 4 && (gain[0] == 'a' || gain[0] == 'A') && (gain[1] == 'u'
            || gain[1] == 'U') && (gain[2] == 't' || gain[2] == 'T') && (gain[3] == 'o' || gain[3]
            == 'O'),
{
    reveal_strlit("auto");
    let low = text::ascii_lowercase(gain);
    let word = "auto"@;
    assert(word.len() == 4 && word[0] == 'a' && word[1] == 'u' && word[2] == 't' && word[3] == 'o');
    assert(low.len() == gain.len());
    if gain.len() == 4 {
        text::lemma_ascii_lower(gain[0]);
        text::lemma_ascii_lower(gain[1]);
        text::lemma_ascii_lower(gain[2]);
        text::lemma_ascii_lower(gain[3]);
        assert(low[0] == text::ascii_lower(gain[0]));
        assert(low[1] == text::ascii_lower(gain[1]));
        assert(low[2] == text::ascii_lower(gain[2]));
        assert(low[3] == text::ascii_lower(gain[3]));
        if low[0] == 'a' && low[1] == 'u' && low[2] == 't' && low[3] == 'o' {
            assert(low =~= word);
        }
    }
}

/// A gain is shown by its own step, or as 0 dB where it is none.
pub proof fn lemma_shown_gain(tenths: i32)
    ensures
        0 <= step_for(tenths) <= 3,
        tenths == -1 || tenths == 0 || tenths == 200 || tenths == 400 ==> app::gain_step(
            step_for(tenths),
        ) == tenths,
        !(tenths == -1 || tenths == 0 || tenths == 200 || tenths == 400) ==> app::gain_step(
            step_for(tenths),
        ) == 0,
{
}

/// Below zero nothing is tuned to, and up to 32 bits the step is exact.
pub proof fn lemma_tuned(freq_hz: int, delta_hz: int)
    ensures
        freq_hz + delta_hz < 0 ==> tuned(freq_hz, delta_hz) == 0,
        0 <= freq_hz + delta_hz < 0x1_0000_0000 ==> tuned(freq_hz, delta_hz) == freq_hz + delta_hz,
        freq_hz + delta_hz >= 0 ==> (tuned(freq_hz, delta_hz) - freq_hz - delta_hz)
            % 0x1_0000_0000 == 0,
        0 <= tuned(freq_hz, delta_hz) < 0x1_0000_0000,
{
}

/// `q` and the escape key end the program, whatever is attached, and change
/// nothing; while a question is asked the escape key only closes the prompt.
pub proof fn lemma_leaving<L>(m: AppModel<L>, attached: Attached, freq: Seq<char>)
    ensures
        m.prompt is None ==> {
            &&& pressed(m, Key::Char('q'), attached, freq) == (m, ActionModel::Quit)
            &&& pressed(m, Key::Esc, attached, freq) == (m, ActionModel::Quit)
        },
        m.prompt is Some ==> pressed(m, Key::Esc, attached, freq) == (
            AppModel { prompt: None, prompt_buf: Seq::empty(), status: "cancelled"@, ..m },
            ActionModel::Nothing,
        ),
{
}

/// The source is not switched while the program runs: the keys for that say how it
/// is done and change nothing else. Without a receiver and a file, no key but
/// those for the volume, the help and the end asks for anything.
pub proof fn lemma_source_keys<L>(m: AppModel<L>, key: Key, attached: Attached, freq: Seq<char>)
    requires
        m.prompt is None,
    ensures
        pressed(m, Key::Char('o'), attached, freq) == (
            AppModel {
                status: "use --file <path> or restart without --file to switch source"@,
                ..m
            },
            ActionModel::Nothing,
        ),
        pressed(m, Key::Char('f'), Attached::File, freq) == (
            AppModel {
                status: "use --file to switch sources; restart without --file for SDR"@,
                ..m
            },
            ActionModel::Nothing,
        ),
        attached == Attached::Neither && !(pressed(m, key, attached, freq).1 is Volume)
            && !(pressed(m, key, attached, freq).1 is Quit) ==> pressed(m, key, attached, freq).1
            is Nothing,
        attached == Attached::Neither && !(key == Key::Char('h') || key == Key::Char('?') || key
            == Key::Char('o')) ==> pressed(m, key, attached, freq).0 == m,
        pressed(m, key, attached, freq).1 is Volume ==> key == Key::Char('+') || key == Key::Char(
            '=',
        ) || key == Key::Char('-') || key == Key::Char('_'),
        pressed(m, key, attached, freq).1 is Quit <==> key == Key::Char('q') || key == Key::Esc,
        pressed(m, key, attached, freq).1 is Tune ==> attached == Attached::Receiver && (tunes_up(
            key,
        ) || tunes_down(key) || leads_left(key) || leads_right(key)),
        pressed(m, key, attached, freq).1 is Seek ==> attached == Attached::File && (leads_left(key)
            || leads_right(key)),
        pressed(m, key, attached, freq).1 is Mute ==> attached == Attached::Receiver && key
            == Key::Char(' '),
        pressed(m, key, attached, freq).1 is Pause ==> attached == Attached::File && key
            == Key::Char(' '),
{
}

/// A key that belongs to the other kind of source does nothing.
pub proof fn lemma_keys_of_the_other<L>(m: AppModel<L>, key: Key, freq: Seq<char>)
    requires
        m.prompt is None,
    ensures
        key == Key::Char('l') || key == Key::Char('r') ==> pressed(
            m,
            key,
            Attached::Receiver,
            freq,
        ) == (m, ActionModel::Nothing),
        key == Key::Up || key == Key::Down || key == Key::Char('.') || key == Key::Char(',') || key
            == Key::Char('g') || key == Key::Char('p') || key == Key::Char('m') || key
            == Key::Char('d') ==> pressed(m, key, Attached::File, freq) == (
            m,
            ActionModel::Nothing,
        ),
{
}

/// The words for automatic gain at the prompt: one letter, or all four.
pub proof fn lemma_auto_word(lower: Seq<char>)
    ensures
        is_auto_word(lower) <==> lower == seq!['a'] || lower == seq!['a', 'u', 't', 'o'],
{
    reveal_strlit("auto");
    reveal_strlit("a");
    assert("auto"@ =~= seq!['a', 'u', 't', 'o']);
    assert("a"@ =~= seq!['a']);
}

/// What an answer that is not empty does, whatever it is: a frequency is handed on
/// to be read, a correction is set where it is a whole number, a gain is automatic
/// for its two words and handed on otherwise.
pub proof fn lemma_answered<L>(m: AppModel<L>, input: Seq<char>)
    ensures
        answered(m, PromptKind::Freq, input) == (m, ActionModel::ReadFreq(input)),
        text::is_i32(input) ==> ({
            let (after, action) = answered(m, PromptKind::Ppm, input);
            &&& after.ppm == text::number_value(input)
            &&& action == ActionModel::SetPpm(after.ppm)
            &&& after == (AppModel {
                ppm: after.ppm,
                status: "ppm "@ + text::signed_decimal(after.ppm as int),
                ..m
            })
        }),
        !text::is_i32(input) ==> answered(m, PromptKind::Ppm, input) == (
            AppModel { status: "bad ppm"@, ..m },
            ActionModel::Nothing,
        ),
        ({
            let low = text::lowercase(input);
            if low == "auto"@ || low == "a"@ {
                answered(m, PromptKind::Gain, input) == (
                    AppModel {
                        gain_index: 0,
                        gain_tenths: -1i32,
                        status: "gain "@ + "auto"@,
                        ..m
                    },
                    ActionModel::SetGain(-1i32),
                )
            } else {
                answered(m, PromptKind::Gain, input) == (m, ActionModel::ReadGain(input))
            }
        }),
{
}

/// A question starts with an empty answer and is shown with a colon behind it.
pub proof fn lemma_asked<L>(m: AppModel<L>, kind: PromptKind, label: Seq<char>)
    ensures
        asked(m, kind, label) == (AppModel {
            prompt: Some(kind),
            prompt_buf: Seq::empty(),
            status: label + ": "@,
            ..m
        }),
{
}

/// Keys of the prompt where no question is asked: characters are gathered and taken
/// off without being shown, the escape key cancels, and the others do nothing.
pub proof fn lemma_unasked<L>(m: AppModel<L>, key: Key, c: char, freq: Seq<char>)
    requires
        m.prompt is None,
    ensures
        prompted(m, Key::Char(c), freq) == (
            AppModel { prompt_buf: m.prompt_buf.push(c), ..m },
            ActionModel::Nothing,
        ),
        m.prompt_buf.len() > 0 ==> prompted(m, Key::Backspace, freq) == (
            AppModel { prompt_buf: m.prompt_buf.drop_last(), ..m },
            ActionModel::Nothing,
        ),
        m.prompt_buf.len() == 0 ==> prompted(m, Key::Backspace, freq) == (m, ActionModel::Nothing),
        prompted(m, Key::Esc, freq) == (
            AppModel { prompt_buf: Seq::empty(), status: "cancelled"@, ..m },
            ActionModel::Nothing,
        ),
        key == Key::Up || key == Key::Down || key == Key::Left || key == Key::Right || key
            == Key::Other ==> prompted(m, key, freq) == (m, ActionModel::Nothing),
{
}

/// A gain that is written in whole dB is read as ten times as many tenths, and the
/// word for automatic gain as -1; what is neither is refused.
pub proof fn lemma_gain_read(gain: &str, v: i32, r: Result<i32, GainError>)
    requires
        call_ensures(parse_gain, (gain,), r),
        -0x8000_0000 <= 10 * v <= 0x7fff_ffff,
    ensures
        gain@ == text::signed_decimal(v as int) ==> r == Ok::<i32, GainError>((10 * v) as i32),
        gain@ == "auto"@ || gain@ == "AUTO"@ ==> r == Ok::<i32, GainError>(-1i32),
        gain@.len() == 0 ==> r is Err,
        r is Err ==> !text::is_i32(gain@),
{
    lemma_auto(gain@);
    text::lemma_numbers(gain@);
    reveal_strlit("auto");
    reveal_strlit("AUTO");
    if gain@ == text::signed_decimal(v as int) {
        text::lemma_signed_reads_back(v);
        assert(text::is_i32(gain@));
        assert(!is_auto(gain@));
    }
}

/// With a receiver and no question, a key for tuning moves the frequency of the
/// program by its step and has the receiver tuned to it.
pub proof fn lemma_keys_tune<L: Copy>(key: Key, freq: &str, action: KeyAction)
    requires
        tunes_up(key) || tunes_down(key) || leads_right(key) || leads_left(key),
    ensures
        forall|s: &mut AppState<L>| #[trigger]
            call_ensures(AppState::<L>::press, (s, key, Attached::Receiver, freq), action)
                && (*s).prompt is None && 1_000_000 <= (*s).freq_hz <= 4_000_000_000 ==> {
                let step = if tunes_up(key) {
                    100_000int
                } else if tunes_down(key) {
                    -100_000
                } else if leads_right(key) {
                    1_000_000
                } else {
                    -1_000_000
                };
                &&& (*final(s)).freq_hz == (*s).freq_hz + step
                &&& action@ == ActionModel::Tune((*final(s)).freq_hz)
                &&& (*final(s))@ == (AppModel { freq_hz: (*final(s)).freq_hz, ..(*s)@ })
            },
{
    assert forall|s: &mut AppState<L>| #[trigger]
        call_ensures(AppState::<L>::press, (s, key, Attached::Receiver, freq), action)
            && (*s).prompt is None && 1_000_000 <= (*s).freq_hz <= 4_000_000_000 implies {
        let step = if tunes_up(key) {
            100_000int
        } else if tunes_down(key) {
            -100_000
        } else if leads_right(key) {
            1_000_000
        } else {
            -1_000_000
        };
        &&& (*final(s)).freq_hz == (*s).freq_hz + step
        &&& action@ == ActionModel::Tune((*final(s)).freq_hz)
        &&& (*final(s))@ == (AppModel { freq_hz: (*final(s)).freq_hz, ..(*s)@ })
    } by {
        lemma_tuning_keys((*s)@, key, freq@);
        assert(((*final(s))@, action@) == pressed((*s)@, key, Attached::Receiver, freq@));
    }
}

/// A frequency that was read is tuned to and shown; a gain that was read is set, and
/// shown by its step. What could not be read changes the message alone.
pub proof fn lemma_read_answers<L: Copy>(
    hz: Option<u32>,
    tenths: Option<i32>,
    shown: &str,
    action: KeyAction,
)
    ensures
        forall|s: &mut AppState<L>| #[trigger]
            call_ensures(AppState::<L>::finish_freq, (s, hz, shown), action) ==> {
                let after = (*final(s))@;
                &&& after == (AppModel { freq_hz: after.freq_hz, status: after.status, ..(*s)@ })
                &&& hz is None ==> action@ is Nothing && after.freq_hz == (*s)@.freq_hz
                    && after.status == "bad frequency"@
                &&& hz is Some ==> action@ == ActionModel::Tune(after.freq_hz) && hz == Some(
                    after.freq_hz,
                ) && after.status == shown@ + " MHz"@
            },
        forall|s: &mut AppState<L>| #[trigger]
            call_ensures(AppState::<L>::finish_gain, (s, tenths), action) ==> {
                let after = (*final(s))@;
                &&& after == (AppModel {
                    gain_tenths: after.gain_tenths,
                    gain_index: after.gain_index,
                    status: after.status,
                    ..(*s)@
                })
                &&& tenths is None ==> action@ is Nothing && after == (AppModel {
                    status: "bad gain"@,
                    ..(*s)@
                })
                &&& tenths is Some ==> action@ == ActionModel::SetGain(after.gain_tenths)
                    && tenths == Some(after.gain_tenths)
            },
{
}

} // verus!
