//! What the terminal shows: the status line and the points of the vectorscope.

use crate::app;
use crate::app::{AppState, StereoSample};
use crate::ring;
use crate::ring::drop_front;
use crate::text;
use vstd::prelude::*;
use vstd::string::*;

verus! {

/// The number of points that are drawn at most.
pub const DISPLAY_POINTS: usize = 2048;

/// The number of points that are kept at most.
pub const TRACE_CAPACITY: usize = 16_384;

/// The number of frames of a chunk that the scope takes at most.
pub const SCOPE_POINTS: usize = 192;

/// The length of a device name that is shown in full.
pub const MAX_DEVICE_NAME: usize = 20;

// ---------------------------------------------------------------------------
// Texts
// ---------------------------------------------------------------------------

/// A name of at most `MAX_DEVICE_NAME` characters; a longer one ends in an
/// ellipsis.
pub open spec fn short_name(name: Seq<char>) -> Seq<char> {
    if name.len() <= MAX_DEVICE_NAME {
        name
    } else {
        name.take(MAX_DEVICE_NAME - 1).push('\u{2026}')
    }
}

/// Shortens a device name.
pub fn truncate_name(name: &str) -> (r: String)
    ensures
        r@ == short_name(name@),
        r@.len() <= MAX_DEVICE_NAME,
{
    let chars: Vec<char> = text::chars_of(name);
    if chars.len() <= MAX_DEVICE_NAME {
        return name.to_owned();
    }
    let mut out: String = text::text_of(&chars, 0, MAX_DEVICE_NAME - 1);
    out.push('\u{2026}');
    assert(out@ =~= short_name(name@));
    out
}

/// The decoding mode as it is shown.
pub open spec fn mode_text(mono_only: bool, is_stereo: bool) -> Seq<char> {
    if mono_only {
        "FM-MONO"@
    } else if is_stereo {
        "STEREO"@
    } else {
        "STEREO (locking)"@
    }
}

/// The name of the decoding mode.
pub fn decode_mode_label(mono_only: bool, is_stereo: bool) -> (r: &'static str)
    ensures
        r@ == mode_text(mono_only, is_stereo),
{
    if mono_only {
        "FM-MONO"
    } else if is_stereo {
        "STEREO"
    } else {
        "STEREO (locking)"
    }
}

/// The rate of the device, and the wanted one where it is another.
pub open spec fn rate_text(actual: u32, requested: u32) -> Seq<char> {
    if requested != 0 && actual != requested {
        text::decimal(actual as nat) + " Hz (wanted "@ + text::decimal(requested as nat) + ")"@
    } else {
        text::decimal(actual as nat) + " Hz"@
    }
}

/// Describes the rate of the device.
pub fn format_audio_rate(actual: u32, requested: u32) -> (r: String)
    ensures
        r@ == rate_text(actual, requested),
{
    let mut out: String = String::new();
    text::push_decimal(&mut out, actual as u64);
    if requested != 0 && actual != requested {
        out.append(" Hz (wanted ");
        text::push_decimal(&mut out, requested as u64);
        out.append(")");
    } else {
        out.append(" Hz");
    }
    assert(out@ =~= rate_text(actual, requested));
    out
}

/// The first line of a text: what comes before the first line feed, without a
/// carriage return right before it.
pub open spec fn line_text(s: Seq<char>) -> Seq<char> {
    match s.index_of_first('\n') {
        Some(n) => if n > 0 && s[n - 1] == '\r' {
            s.take(n - 1)
        } else {
            s.take(n)
        },
        None => s,
    }
}

/// The first line of a text.
pub fn first_line(s: &str) -> (r: String)
    ensures
        r@ == line_text(s@),
{
    let chars: Vec<char> = text::chars_of(s);
    let mut n: usize = 0;
    while n < chars.len() && chars[n] != '\n'
        invariant
            n <= chars@.len(),
            forall|i: int| 0 <= i < n ==> #[trigger] chars@[i] != '\n',
        decreases chars@.len() - n,
    {
        n = n + 1;
    }
    let end: usize = if 0 < n && n < chars.len() && chars[n - 1] == '\r' {
        n - 1
    } else {
        n
    };
    proof {
        chars@.index_of_first_ensures('\n');
        if n < chars.len() {
            assert(chars@[n as int] == '\n');
            let first = chars@.index_of_first('\n')->0;
            if first < n {
                assert(chars@[first] != '\n');
            }
        } else {
            assert(chars@.take(n as int) =~= chars@);
        }
        assert(chars@.subrange(0, end as int) =~= chars@.take(end as int));
    }
    text::text_of(&chars, 0, end)
}

/// The first line holds no line feed, and the text begins with it.
pub proof fn lemma_first_line(s: Seq<char>)
    ensures
        !line_text(s).contains('\n'),
        line_text(s).is_prefix_of(s),
{
    s.index_of_first_ensures('\n');
    let line = line_text(s);
    assert forall|i: int| 0 <= i < line.len() implies line[i] != '\n' by {
        assert(s[i] == line[i]);
        if s[i] == '\n' {
            assert(s.contains('\n'));
        }
    }
    assert(line =~= s.take(line.len() as int));
}

/// The part of the status line before the message.
pub open spec fn status_head<L>(
    m: app::AppModel<L>,
    is_stereo: bool,
    freq: Seq<char>,
    peak_l: Seq<char>,
    peak_r: Seq<char>,
) -> Seq<char> {
    " "@ + freq + " MHz | "@ + (if m.sdr_connected {
        "SDR OK"@
    } else {
        "SDR --"@
    }) + " | "@ + mode_text(m.mono_only, is_stereo) + " | gain "@ + app::gain_text(
        app::gain_step(m.gain_index),
    ) + " | "@ + short_name(m.audio_device) + " @ "@ + rate_text(m.audio_rate, m.requested_rate)
        + " | L "@ + peak_l + " dBFS | R "@ + peak_r + " dBFS"@
}

/// The whole status line.
pub open spec fn status_text<L>(
    m: app::AppModel<L>,
    is_stereo: bool,
    freq: Seq<char>,
    peak_l: Seq<char>,
    peak_r: Seq<char>,
) -> Seq<char> {
    let head = status_head(m, is_stereo, freq, peak_l, peak_r);
    if m.status.len() == 0 {
        head
    } else {
        head + " | "@ + line_text(m.status)
    }
}

/// The status line: frequency, receiver, mode, gain, device, levels, and the
/// first line of the message. `freq`, `peak_l` and `peak_r` are numbers as they
/// are shown.
pub fn status_line<L: Copy>(
    state: &AppState<L>,
    is_stereo: bool,
    freq: &str,
    peak_l: &str,
    peak_r: &str,
) -> (r: String)
    requires
        state.wf(),
    ensures
        r@ == status_text(state@, is_stereo, freq@, peak_l@, peak_r@),
{
    let mut out: String = " ".to_owned();
    out.append(freq);
    out.append(" MHz | ");
    if state.sdr_connected {
        out.append("SDR OK");
    } else {
        out.append("SDR --");
    }
    out.append(" | ");
    out.append(decode_mode_label(state.mono_only, is_stereo));
    out.append(" | gain ");
    let gain: String = state.gain_label();
    out.append(gain.as_str());
    out.append(" | ");
    let device: String = truncate_name(state.audio_device.as_str());
    out.append(device.as_str());
    out.append(" @ ");
    let rate: String = format_audio_rate(state.audio_rate, state.requested_rate);
    out.append(rate.as_str());
    out.append(" | L ");
    out.append(peak_l);
    out.append(" dBFS | R ");
    out.append(peak_r);
    out.append(" dBFS");
    let ghost head = status_head(state@, is_stereo, freq@, peak_l@, peak_r@);
    assert(out@ == head);
    if text::chars_of(state.status_message.as_str()).len() > 0 {
        out.append(" | ");
        let line: String = first_line(state.status_message.as_str());
        out.append(line.as_str());
    }
    out
}

/// What the keys do, as it is shown.
pub fn help_text() -> (r: &'static str)
    ensures
        r@ == " q quit | + / - tune +/-0.1 MHz | g cycle gain "@,
{
    " q quit | + / - tune +/-0.1 MHz | g cycle gain "
}

// ---------------------------------------------------------------------------
// Points
// ---------------------------------------------------------------------------

/// Every how many points one is drawn.
pub open spec fn stride(n: int, points: int) -> int {
    if n / points > 1 {
        n / points
    } else {
        1
    }
}

/// The number of points that are drawn of `n`.
pub open spec fn drawn(n: int, points: int) -> int {
    let s = stride(n, points);
    let all = (n + s - 1) / s;
    if all < points {
        all
    } else {
        points
    }
}

/// At most `points` of the samples, at equal distances from the first on.
pub open spec fn thinned<T>(s: Seq<T>, points: int) -> Seq<T> {
    Seq::new(drawn(s.len() as int, points) as nat, |i: int| s[i * stride(s.len() as int, points)])
}

/// Where the drawn points lie.
proof fn lemma_drawn_within(n: int, points: int, i: int)
    requires
        n >= 0,
        points > 0,
        0 <= i < drawn(n, points),
    ensures
        0 <= i * stride(n, points) < n,
{
    let s = stride(n, points);
    let q = (n + s - 1) / s;
    vstd::arithmetic::div_mod::lemma_fundamental_div_mod(n + s - 1, s);
    vstd::arithmetic::div_mod::lemma_mod_bound(n + s - 1, s);
    assert(i * s <= s * q - s) by (nonlinear_arith)
        requires
            i + 1 <= q,
            s > 0,
    ;
    assert(0 <= i * s) by (nonlinear_arith)
        requires
            0 <= i,
            s > 0,
    ;
}

/// Keeps at most `points` of the samples.
fn thin<T: Copy>(samples: &[T], points: usize) -> (r: Vec<T>)
    requires
        points > 0,
    ensures
        r@ == thinned(samples@, points as int),
{
    let n: usize = samples.len();
    let step: usize = if n / points > 1 {
        n / points
    } else {
        1
    };
    let mut out: Vec<T> = Vec::new();
    let mut at: usize = 0;
    let ghost count = drawn(n as int, points as int);
    proof {
        assert(0 * step == 0) by (nonlinear_arith);
        vstd::arithmetic::div_mod::lemma_div_pos_is_pos(n + step - 1, step as int);
        ring::lemma_steps_within(n as int, step as int, 0);
    }
    while at < n && out.len() < points
        invariant
            n == samples@.len(),
            points > 0,
            step == stride(n as int, points as int),
            step > 0,
            count == drawn(n as int, points as int),
            out@.len() <= count,
            at == (if out@.len() * step < n {
                out@.len() * step
            } else {
                n as int
            }),
            at < n && out@.len() < points <==> out@.len() < count,
            forall|k: int| 0 <= k < out@.len() ==> #[trigger] out@[k] == samples@[k * step],
        decreases points - out@.len(),
    {
        let ghost k = out@.len() as int;
        out.push(samples[at]);
        proof {
            assert((k + 1) * step == k * step + step) by (nonlinear_arith);
            ring::lemma_steps_within(n as int, step as int, k);
            ring::lemma_steps_within(n as int, step as int, k + 1);
        }
        at = if n - at > step {
            at + step
        } else {
            n
        };
    }
    assert(out@ =~= thinned(samples@, points as int));
    out
}

/// The points of the trace that are drawn.
pub fn decimate_for_render<L: Copy>(samples: &[StereoSample<L>]) -> (r: Vec<StereoSample<L>>)
    ensures
        r@ == thinned(samples@, DISPLAY_POINTS as int),
{
    thin(samples, DISPLAY_POINTS)
}

/// At most `points` frames of two channels of equal length.
pub fn decimate_scope_pair<L: Copy>(left: &[L], right: &[L], points: usize) -> (r: (
    Vec<L>,
    Vec<L>,
))
    requires
        points > 0,
        left@.len() == right@.len(),
    ensures
        r.0@ == thinned(left@, points as int),
        r.1@ == thinned(right@, points as int),
{
    (thin(left, points), thin(right, points))
}

/// Both channels as points.
pub open spec fn points_of<L>(left: Seq<L>, right: Seq<L>) -> Seq<StereoSample<L>> {
    let n = if left.len() < right.len() {
        left.len()
    } else {
        right.len()
    };
    Seq::new(n, |i: int| StereoSample { x: left[i], y: right[i] })
}

/// The newest points, as many as are kept.
pub open spec fn newest<L>(s: Seq<StereoSample<L>>) -> Seq<StereoSample<L>> {
    if s.len() > TRACE_CAPACITY {
        s.skip(s.len() - TRACE_CAPACITY)
    } else {
        s
    }
}

/// The trace after more samples came in. Without any it stays as it is.
pub open spec fn extended<L>(buf: Seq<StereoSample<L>>, left: Seq<L>, right: Seq<L>) -> Seq<
    StereoSample<L>,
> {
    if left.len() == 0 {
        buf
    } else {
        newest(buf + points_of(left, right))
    }
}

/// Appends a chunk to the trace and drops the oldest points beyond its
/// capacity (about 85 ms at 192 kHz).
pub fn append_for_display<L: Copy>(left: &[L], right: &[L], buf: &mut Vec<StereoSample<L>>)
    ensures
        final(buf)@ == extended(old(buf)@, left@, right@),
{
    if left.len() == 0 {
        return;
    }
    let n: usize = if left.len() < right.len() {
        left.len()
    } else {
        right.len()
    };
    let ghost start = buf@;
    let mut i: usize = 0;
    while i < n
        invariant
            i <= n,
            n <= left@.len(),
            n <= right@.len(),
            n == points_of(left@, right@).len(),
            buf@ == start + points_of(left@, right@).take(i as int),
        decreases n - i,
    {
        buf.push(StereoSample { x: left[i], y: right[i] });
        i = i + 1;
        assert(buf@ =~= start + points_of(left@, right@).take(i as int));
    }
    assert(buf@ =~= start + points_of(left@, right@));
    if buf.len() > TRACE_CAPACITY {
        let drop: usize = buf.len() - TRACE_CAPACITY;
        drop_front(buf, drop);
    }
}

// ---------------------------------------------------------------------------
// Properties
// ---------------------------------------------------------------------------

/// What is drawn comes from the samples, begins with the first of them, and is
/// never too much; few samples are drawn all.
pub proof fn lemma_thinned<T>(s: Seq<T>, points: int)
    requires
        points > 0,
    ensures
        thinned(s, points).len() <= points,
        s.len() > 0 ==> thinned(s, points).len() > 0 && thinned(s, points)[0] == s[0],
        forall|i: int|
            0 <= i < thinned(s, points).len() ==> s.contains(#[trigger] thinned(s, points)[i]),
        s.len() <= points ==> thinned(s, points) == s,
{
    let n = s.len() as int;
    let st = stride(n, points);
    assert forall|i: int| 0 <= i < thinned(s, points).len() implies s.contains(
        #[trigger] thinned(s, points)[i],
    ) by {
        lemma_drawn_within(n, points, i);
        assert(thinned(s, points)[i] == s[i * st]);
    }
    if n > 0 {
        assert(0 * st == 0) by (nonlinear_arith);
        ring::lemma_steps_within(n, st, 0);
    } else {
        vstd::arithmetic::div_mod::lemma_div_is_ordered(0, points, points);
        vstd::arithmetic::div_mod::lemma_basic_div(0, points);
    }
    if n <= points {
        vstd::arithmetic::div_mod::lemma_div_is_ordered(n, points, points);
        vstd::arithmetic::div_mod::lemma_div_by_self(points);
        assert(st == 1);
        assert(thinned(s, points) =~= s);
    }
}

/// The trace never exceeds its capacity.
pub proof fn lemma_trace_bounded<L>(buf: Seq<StereoSample<L>>, left: Seq<L>, right: Seq<L>)
    requires
        buf.len() <= TRACE_CAPACITY,
    ensures
        extended(buf, left, right).len() <= TRACE_CAPACITY,
{
}

/// The trace does not depend on how the samples are cut into chunks.
pub proof fn lemma_trace_in_parts<L>(
    buf: Seq<StereoSample<L>>,
    left1: Seq<L>,
    right1: Seq<L>,
    left2: Seq<L>,
    right2: Seq<L>,
)
    requires
        buf.len() <= TRACE_CAPACITY,
        left1.len() == right1.len(),
    ensures
        extended(extended(buf, left1, right1), left2, right2) == extended(
            buf,
            left1 + left2,
            right1 + right2,
        ),
{
    let twice = extended(extended(buf, left1, right1), left2, right2);
    let once = extended(buf, left1 + left2, right1 + right2);
    assert(points_of(left1 + left2, right1 + right2) =~= points_of(left1, right1) + points_of(
        left2,
        right2,
    ));
    assert(twice =~= once);
}

/// A short name stays. Of a longer one 19 characters stay, and an ellipsis makes
/// it 20.
pub proof fn lemma_short_name(name: Seq<char>)
    ensures
        name.len() <= 20 ==> short_name(name) == name,
        name.len() > 20 ==> {
            &&& short_name(name).len() == 20
            &&& short_name(name)[19] == '\u{2026}'
            &&& forall|i: int| 0 <= i < 19 ==> #[trigger] short_name(name)[i] == name[i]
        },
{
}

/// The label depends on mono first, and then on the lock.
pub proof fn lemma_mode_text(is_stereo: bool)
    ensures
        mode_text(true, is_stereo) == "FM-MONO"@,
        mode_text(false, true) == "STEREO"@,
        mode_text(false, false) == "STEREO (locking)"@,
{
}

/// The rate of the device is always shown first. The wanted one follows exactly
/// where one was asked for that the device does not have.
pub proof fn lemma_rate_text(actual: u32, requested: u32)
    ensures
        ({
            let shown = text::decimal(actual as nat) + " Hz"@;
            &&& shown.is_prefix_of(rate_text(actual, requested))
            &&& requested == 0 || requested == actual ==> rate_text(actual, requested) == shown
            &&& requested != 0 && requested != actual ==> rate_text(actual, requested) == shown
                + " (wanted "@ + text::decimal(requested as nat) + ")"@
        }),
{
    reveal_strlit(" Hz");
    reveal_strlit(" (wanted ");
    reveal_strlit(" Hz (wanted ");
    assert(" Hz (wanted "@ =~= " Hz"@ + " (wanted "@);
    let shown = text::decimal(actual as nat) + " Hz"@;
    if requested != 0 && requested != actual {
        assert(rate_text(actual, requested) =~= shown + " (wanted "@ + text::decimal(
            requested as nat,
        ) + ")"@);
    }
    assert(shown =~= rate_text(actual, requested).take(shown.len() as int));
}

/// The first line ends where the text ends, or right before a line break: a line
/// feed, or a carriage return with a line feed. It does not end in the carriage
/// return of such a break.
pub proof fn lemma_first_line_ends(s: Seq<char>)
    ensures
        ({
            let n = line_text(s).len() as int;
            &&& n <= s.len()
            &&& !s.contains('\n') ==> line_text(s) == s
            &&& s.contains('\n') ==> {
                ||| s[n] == '\n' && (n == 0 || s[n - 1] != '\r')
                ||| s[n] == '\r' && n + 1 < s.len() && s[n + 1] == '\n'
            }
        }),
{
    s.index_of_first_ensures('\n');
}

/// A part of a text stays a part when something is appended.
proof fn lemma_part_stays(head: Seq<char>, tail: Seq<char>, part: Seq<char>)
    requires
        text::has_part(head, part),
    ensures
        text::has_part(head + tail, part),
{
    let i = choose|i: int| #[trigger] text::stands_at(head, part, i);
    assert((head + tail).subrange(i, i + part.len()) =~= head.subrange(i, i + part.len()));
    assert(text::stands_at(head + tail, part, i));
}

proof fn lemma_prefix_stays(prefix: Seq<char>, head: Seq<char>, tail: Seq<char>)
    requires
        prefix.is_prefix_of(head),
    ensures
        prefix.is_prefix_of(head + tail),
{
    assert(prefix =~= (head + tail).take(prefix.len() as int));
}

proof fn lemma_regroup(a: Seq<char>, b: Seq<char>, c: Seq<char>)
    ensures
        a + b + c == a + (b + c),
{
    assert(a + b + c =~= a + (b + c));
}

/// What was appended is a part.
proof fn lemma_part_appended(head: Seq<char>, part: Seq<char>)
    ensures
        text::has_part(head + part, part),
{
    let i = head.len() as int;
    assert((head + part).subrange(i, i + part.len()) =~= part);
    assert(text::stands_at(head + part, part, i));
}

/// The status line begins with the frequency and shows whether a receiver is
/// connected, the mode, the gain, the device with its rate, and both levels.
pub proof fn lemma_status_shows<L>(
    m: app::AppModel<L>,
    is_stereo: bool,
    freq: Seq<char>,
    peak_l: Seq<char>,
    peak_r: Seq<char>,
)
    ensures
        ({
            let line = status_text(m, is_stereo, freq, peak_l, peak_r);
            &&& (" "@ + freq + " MHz | "@).is_prefix_of(line)
            &&& m.sdr_connected ==> text::has_part(line, "SDR OK"@)
            &&& !m.sdr_connected ==> text::has_part(line, "SDR --"@)
            &&& text::has_part(line, mode_text(m.mono_only, is_stereo))
            &&& text::has_part(
                line,
                " | gain "@ + app::gain_text(app::gain_step(m.gain_index)),
            )
            &&& text::has_part(
                line,
                short_name(m.audio_device) + " @ "@ + rate_text(m.audio_rate, m.requested_rate),
            )
            &&& text::has_part(line, " | L "@ + peak_l + " dBFS | R "@ + peak_r + " dBFS"@)
        }),
{
    let sdr = if m.sdr_connected {
        "SDR OK"@
    } else {
        "SDR --"@
    };
    let mode = mode_text(m.mono_only, is_stereo);
    let gain = app::gain_text(app::gain_step(m.gain_index));
    let device = short_name(m.audio_device);
    let rate = rate_text(m.audio_rate, m.requested_rate);
    let start = " "@ + freq + " MHz | "@;
    let q0 = start + sdr;
    let q1 = q0 + " | "@;
    let q2 = q1 + mode;
    let q3 = q2 + " | gain "@;
    let q4 = q3 + gain;
    let q5 = q4 + " | "@;
    let q6 = q5 + device;
    let q7 = q6 + " @ "@;
    let q8 = q7 + rate;
    let q9 = q8 + " | L "@;
    let q10 = q9 + peak_l;
    let q11 = q10 + " dBFS | R "@;
    let q12 = q11 + peak_r;
    let q13 = q12 + " dBFS"@;
    assert(status_head(m, is_stereo, freq, peak_l, peak_r) == q13);
    let end = if m.status.len() == 0 {
        Seq::empty()
    } else {
        " | "@ + line_text(m.status)
    };
    let line = status_text(m, is_stereo, freq, peak_l, peak_r);
    assert(line == q13 + end) by {
        if m.status.len() == 0 {
            assert(q13 + end =~= q13);
        } else {
            lemma_regroup(q13, " | "@, line_text(m.status));
        }
    }
    assert(start.is_prefix_of(line)) by {
        lemma_prefix_stays(start, start, sdr);
        lemma_prefix_stays(start, q0, " | "@);
        lemma_prefix_stays(start, q1, mode);
        lemma_prefix_stays(start, q2, " | gain "@);
        lemma_prefix_stays(start, q3, gain);
        lemma_prefix_stays(start, q4, " | "@);
        lemma_prefix_stays(start, q5, device);
        lemma_prefix_stays(start, q6, " @ "@);
        lemma_prefix_stays(start, q7, rate);
        lemma_prefix_stays(start, q8, " | L "@);
        lemma_prefix_stays(start, q9, peak_l);
        lemma_prefix_stays(start, q10, " dBFS | R "@);
        lemma_prefix_stays(start, q11, peak_r);
        lemma_prefix_stays(start, q12, " dBFS"@);
        lemma_prefix_stays(start, q13, end);
    }
    assert(text::has_part(line, sdr)) by {
        lemma_part_appended(start, sdr);
        lemma_part_stays(q0, " | "@, sdr);
        lemma_part_stays(q1, mode, sdr);
        lemma_part_stays(q2, " | gain "@, sdr);
        lemma_part_stays(q3, gain, sdr);
        lemma_part_stays(q4, " | "@, sdr);
        lemma_part_stays(q5, device, sdr);
        lemma_part_stays(q6, " @ "@, sdr);
        lemma_part_stays(q7, rate, sdr);
        lemma_part_stays(q8, " | L "@, sdr);
        lemma_part_stays(q9, peak_l, sdr);
        lemma_part_stays(q10, " dBFS | R "@, sdr);
        lemma_part_stays(q11, peak_r, sdr);
        lemma_part_stays(q12, " dBFS"@, sdr);
        lemma_part_stays(q13, end, sdr);
    }
    assert(text::has_part(line, mode)) by {
        lemma_part_appended(q1, mode);
        lemma_part_stays(q2, " | gain "@, mode);
        lemma_part_stays(q3, gain, mode);
        lemma_part_stays(q4, " | "@, mode);
        lemma_part_stays(q5, device, mode);
        lemma_part_stays(q6, " @ "@, mode);
        lemma_part_stays(q7, rate, mode);
        lemma_part_stays(q8, " | L "@, mode);
        lemma_part_stays(q9, peak_l, mode);
        lemma_part_stays(q10, " dBFS | R "@, mode);
        lemma_part_stays(q11, peak_r, mode);
        lemma_part_stays(q12, " dBFS"@, mode);
        lemma_part_stays(q13, end, mode);
    }
    let gain_part = " | gain "@ + gain;
    assert(text::has_part(line, gain_part)) by {
        lemma_regroup(q2, " | gain "@, gain);
        lemma_part_appended(q2, gain_part);
        lemma_part_stays(q4, " | "@, gain_part);
        lemma_part_stays(q5, device, gain_part);
        lemma_part_stays(q6, " @ "@, gain_part);
        lemma_part_stays(q7, rate, gain_part);
        lemma_part_stays(q8, " | L "@, gain_part);
        lemma_part_stays(q9, peak_l, gain_part);
        lemma_part_stays(q10, " dBFS | R "@, gain_part);
        lemma_part_stays(q11, peak_r, gain_part);
        lemma_part_stays(q12, " dBFS"@, gain_part);
        lemma_part_stays(q13, end, gain_part);
    }
    let device_part = device + " @ "@ + rate;
    assert(text::has_part(line, device_part)) by {
        lemma_regroup(q5, device, " @ "@);
        lemma_regroup(q5, device + " @ "@, rate);
        lemma_part_appended(q5, device_part);
        lemma_part_stays(q8, " | L "@, device_part);
        lemma_part_stays(q9, peak_l, device_part);
        lemma_part_stays(q10, " dBFS | R "@, device_part);
        lemma_part_stays(q11, peak_r, device_part);
        lemma_part_stays(q12, " dBFS"@, device_part);
        lemma_part_stays(q13, end, device_part);
    }
    let levels = " | L "@ + peak_l + " dBFS | R "@ + peak_r + " dBFS"@;
    assert(text::has_part(line, levels)) by {
        lemma_regroup(q8, " | L "@, peak_l);
        lemma_regroup(q8, " | L "@ + peak_l, " dBFS | R "@);
        lemma_regroup(q8, " | L "@ + peak_l + " dBFS | R "@, peak_r);
        lemma_regroup(q8, " | L "@ + peak_l + " dBFS | R "@ + peak_r, " dBFS"@);
        lemma_part_appended(q8, levels);
        lemma_part_stays(q13, end, levels);
    }
}

/// A message adds its first line, and nothing else, to the status line.
pub proof fn lemma_status_message<L>(
    m: app::AppModel<L>,
    message: Seq<char>,
    is_stereo: bool,
    freq: Seq<char>,
    peak_l: Seq<char>,
    peak_r: Seq<char>,
)
    requires
        m.status.len() == 0,
    ensures
        ({
            let quiet = status_text(m, is_stereo, freq, peak_l, peak_r);
            let line = status_text(
                app::AppModel { status: message, ..m },
                is_stereo,
                freq,
                peak_l,
                peak_r,
            );
            &&& message.len() == 0 ==> line == quiet
            &&& message.len() > 0 ==> line == quiet + " | "@ + line_text(message)
        }),
{
    if message.len() == 0 {
        assert(message =~= m.status);
    }
}

/// Many samples are drawn at equal distances over their whole length: sample
/// `i * (n / points)` for each `i` below `points`, and what is left over at the end
/// is less than another step and one sample for each point.
pub proof fn lemma_thinned_spans<T>(s: Seq<T>, points: int, i: int)
    requires
        0 < points <= s.len(),
        0 <= i < points,
    ensures
        thinned(s, points).len() == points,
        0 <= i * (s.len() as int / points) < s.len(),
        thinned(s, points)[i] == s[i * (s.len() as int / points)],
        s.len() - (points - 1) * (s.len() as int / points) <= s.len() as int / points + points,
{
    let n = s.len() as int;
    let q = n / points;
    vstd::arithmetic::div_mod::lemma_fundamental_div_mod(n, points);
    vstd::arithmetic::div_mod::lemma_mod_bound(n, points);
    assert(q >= 1) by {
        vstd::arithmetic::div_mod::lemma_div_is_ordered(points, n, points);
        vstd::arithmetic::div_mod::lemma_div_by_self(points);
    }
    assert(stride(n, points) == q);
    assert((points - 1) * q == points * q - q) by (nonlinear_arith);
    ring::lemma_steps_within(n, q, points - 1);
    assert(0 <= i * q <= (points - 1) * q) by (nonlinear_arith)
        requires
            0 <= i <= points - 1,
            q >= 1,
    ;
}

/// Few samples are all drawn, in their order.
pub proof fn lemma_few_are_all_drawn<T>(s: Seq<T>, points: int)
    requires
        0 < points,
        s.len() <= points,
    ensures
        thinned(s, points) == s,
{
    lemma_thinned(s, points);
}

/// The trace ends in the points that came in: left is X, right is Y. Before them
/// stand the newest of those that were there, as many as make 16384 at most. Where
/// nothing comes in on the left, the trace stays.
pub proof fn lemma_trace_ends<L>(buf: Seq<StereoSample<L>>, left: Seq<L>, right: Seq<L>, i: int)
    requires
        0 <= i,
    ensures
        left.len() == 0 ==> extended(buf, left, right) == buf,
        left.len() > 0 ==> {
            let n = if left.len() < right.len() {
                left.len() as int
            } else {
                right.len() as int
            };
            let trace = extended(buf, left, right);
            let all = buf.len() + n;
            &&& trace.len() == (if all < 16_384 {
                all
            } else {
                16_384
            })
            &&& i < n && i < 16_384 ==> trace[trace.len() - 1 - i] == (StereoSample {
                x: left[n - 1 - i],
                y: right[n - 1 - i],
            })
            &&& n <= i < trace.len() ==> trace[trace.len() - 1 - i] == buf[all - 1 - i]
        },
{
}

/// The screen shows 2048 points of the trace; a chunk brings 192 of them; a name
/// takes 20 characters.
pub proof fn lemma_screen()
    ensures
        DISPLAY_POINTS == 2048,
        SCOPE_POINTS == 192,
        MAX_DEVICE_NAME == 20,
        TRACE_CAPACITY == 16_384,
{
}

/// Of two channels the same places are drawn: each `n / points`th sample where there
/// are enough, and all of them otherwise.
pub proof fn lemma_pair_drawn<L: Copy>(
    left: &[L],
    right: &[L],
    points: usize,
    r: (Vec<L>, Vec<L>),
    i: int,
)
    requires
        call_ensures(decimate_scope_pair::<L>, (left, right, points), r),
        left@.len() == right@.len(),
        0 <= i < points,
    ensures
        ({
            let n = left@.len() as int;
            &&& n < points ==> r.0@ == left@ && r.1@ == right@
            &&& n >= points ==> {
                &&& r.0@.len() == points && r.1@.len() == points
                &&& r.0@[i] == left@[i * (n / points as int)]
                &&& r.1@[i] == right@[i * (n / points as int)]
            }
        }),
{
    if left@.len() < points {
        lemma_few_are_all_drawn(left@, points as int);
        lemma_few_are_all_drawn(right@, points as int);
    } else {
        lemma_thinned_spans(left@, points as int, i);
        lemma_thinned_spans(right@, points as int, i);
    }
}

/// The screen shows 2048 points of a longer trace, at equal distances from the first
/// on, and all points of a shorter one.
pub proof fn lemma_rendered<L: Copy>(
    samples: &[StereoSample<L>],
    r: Vec<StereoSample<L>>,
    i: int,
)
    requires
        call_ensures(decimate_for_render::<L>, (samples,), r),
        0 <= i < 2048,
    ensures
        samples@.len() < 2048 ==> r@ == samples@,
        samples@.len() >= 2048 ==> {
            &&& r@.len() == 2048
            &&& r@[i] == samples@[i * (samples@.len() as int / 2048)]
        },
{
    if samples@.len() < 2048 {
        lemma_few_are_all_drawn(samples@, 2048);
    } else {
        lemma_thinned_spans(samples@, 2048, i);
    }
}

} // verus!
