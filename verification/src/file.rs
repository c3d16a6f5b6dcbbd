//! Decoding and playback of a track (left = X, right = Y).

use crate::ring;
use vstd::prelude::*;
use vstd::string::*;

verus! {

/// The number of frames that are played in one go.
pub const CHUNK_FRAMES: usize = 2_048;

/// Frames of interleaved samples: a channel more than the second is ignored,
/// and a single channel goes to both sides.
pub open spec fn split_side<T>(samples: Seq<T>, channels: int, side: int) -> Seq<T> {
    Seq::new(
        ((samples.len() + channels - 1) / channels) as nat,
        |k: int|
            samples[k * channels + if channels >= 2 {
                side
            } else {
                0
            }],
    )
}

/// Appends interleaved samples to a left and a right channel.
pub fn split_frames<T: Copy>(
    samples: &[T],
    channels: usize,
    left: &mut Vec<T>,
    right: &mut Vec<T>,
)
    requires
        channels > 0,
        channels >= 2 ==> samples@.len() % (channels as nat) != 1,
    ensures
        final(left)@ == old(left)@ + split_side(samples@, channels as int, 0),
        final(right)@ == old(right)@ + split_side(samples@, channels as int, 1),
{
    let n: usize = samples.len();
    let c: usize = channels;
    let ghost (l0, r0) = (left@, right@);
    let ghost count = split_side(samples@, c as int, 0).len() as int;
    let mut start: usize = 0;
    let ghost mut k: int = 0;
    proof {
        vstd::arithmetic::div_mod::lemma_div_pos_is_pos(n + c - 1, c as int);
        assert(l0 + split_side(samples@, c as int, 0).take(0) =~= l0);
        assert(r0 + split_side(samples@, c as int, 1).take(0) =~= r0);
        assert(0 * c == 0) by (nonlinear_arith);
        ring::lemma_steps_within(n as int, c as int, 0);
    }
    while start < n
        invariant
            n == samples@.len(),
            c > 0,
            c >= 2 ==> samples@.len() % (c as nat) != 1,
            count == (n + c - 1) / c as int,
            0 <= k <= count,
            start == (if k * c < n {
                k * c
            } else {
                n as int
            }),
            start < n <==> k < count,
            left@ == l0 + split_side(samples@, c as int, 0).take(k),
            right@ == r0 + split_side(samples@, c as int, 1).take(k),
        decreases n - start,
    {
        proof {
            ring::lemma_steps_within(n as int, c as int, k);
            ring::lemma_steps_within(n as int, c as int, k + 1);
            lemma_second_sample(n as int, c as int, k);
            assert((k + 1) * c == k * c + c) by (nonlinear_arith);
        }
        let l: T = samples[start];
        let r: T = if c >= 2 {
            samples[start + 1]
        } else {
            l
        };
        left.push(l);
        right.push(r);
        start = if n - start > c {
            start + c
        } else {
            n
        };
        proof {
            k = k + 1;
            assert(left@ =~= l0 + split_side(samples@, c as int, 0).take(k));
            assert(right@ =~= r0 + split_side(samples@, c as int, 1).take(k));
        }
    }
    proof {
        assert(split_side(samples@, c as int, 0).take(k) =~= split_side(samples@, c as int, 0));
        assert(split_side(samples@, c as int, 1).take(k) =~= split_side(samples@, c as int, 1));
    }
}

/// A frame that starts within `n` samples has a second sample, unless a single
/// sample is left over.
proof fn lemma_second_sample(n: int, c: int, k: int)
    requires
        c >= 2 ==> n % c != 1,
        c > 0,
        0 <= k,
        k * c < n,
    ensures
        c >= 2 ==> k * c + 1 < n,
{
    if c >= 2 && k * c + 1 == n {
        assert(c * k == k * c) by (nonlinear_arith);
        vstd::arithmetic::div_mod::lemma_fundamental_div_mod_converse(n, c, k, 1);
    }
}

// ---------------------------------------------------------------------------
// Decoding
// ---------------------------------------------------------------------------

/// A track of a file. What the file does not say is missing.
#[derive(Clone, Copy, Debug, PartialEq, Eq, Structural)]
pub struct TrackInfo {
    pub id: u32,
    /// The track is coded in some known way.
    pub coded: bool,
    pub sample_rate: Option<u32>,
    pub channels: Option<usize>,
}

/// The track that is decoded.
#[derive(Clone, Copy, Debug, PartialEq, Eq, Structural)]
pub struct ChosenTrack {
    /// Its place among the tracks.
    pub index: usize,
    pub id: u32,
    pub sample_rate: u32,
    pub channels: usize,
}

/// `i` is the place of the first track that is coded.
pub open spec fn is_first_coded(tracks: Seq<TrackInfo>, i: int) -> bool {
    &&& 0 <= i < tracks.len()
    &&& tracks[i].coded
    &&& forall|j: int| 0 <= j < i ==> !(#[trigger] tracks[j]).coded
}

/// Chooses the first track that is coded. Its rate and its channels have to be
/// known.
pub fn choose_track(tracks: &Vec<TrackInfo>) -> (r: Result<ChosenTrack, String>)
    ensures
        match r {
            Ok(t) => {
                &&& is_first_coded(tracks@, t.index as int)
                &&& t.id == tracks@[t.index as int].id
                &&& tracks@[t.index as int].sample_rate == Some(t.sample_rate)
                &&& tracks@[t.index as int].channels == Some(t.channels)
            },
            Err(e) => {
                ||| e@ == "No audio track found"@ && forall|j: int|
                    0 <= j < tracks@.len() ==> !(#[trigger] tracks@[j]).coded
                ||| e@ == "Missing sample rate in file"@ && exists|i: int| #[trigger]
                    is_first_coded(tracks@, i) && tracks@[i].sample_rate is None
                ||| e@ == "Missing channel layout in file"@ && exists|i: int| #[trigger]
                    is_first_coded(tracks@, i) && tracks@[i].sample_rate is Some
                        && tracks@[i].channels is None
            },
        },
{
    let mut i: usize = 0;
    while i < tracks.len()
        invariant
            i <= tracks@.len(),
            forall|j: int| 0 <= j < i ==> !(#[trigger] tracks@[j]).coded,
        decreases tracks@.len() - i,
    {
        let track: TrackInfo = tracks[i];
        if track.coded {
            assert(is_first_coded(tracks@, i as int));
            return match (track.sample_rate, track.channels) {
                (Some(sample_rate), Some(channels)) => Ok(
                    ChosenTrack { index: i, id: track.id, sample_rate, channels },
                ),
                (Some(_), None) => Err("Missing channel layout in file".to_owned()),
                (None, _) => Err("Missing sample rate in file".to_owned()),
            };
        }
        i = i + 1;
    }
    Err("No audio track found".to_owned())
}

/// What reading a packet of the file has given.
pub enum PacketOutcome {
    /// A packet of a track.
    Packet(u32),
    /// The decoder has to start afresh.
    ResetRequired,
    /// The file is at its end.
    EndOfFile,
    /// The file cannot be read on.
    Failed(String),
}

/// What is to be done next.
pub enum DecodeStep {
    /// Decode the packet.
    Decode,
    /// Read the next packet.
    Skip,
    /// Reset the decoder and read the next packet.
    Reset,
    /// All has been read.
    Finish,
    /// Give up with a message.
    Fail(String),
}

/// Decides about a packet. Only packets of the chosen track are decoded.
pub fn decode_step(track_id: u32, outcome: PacketOutcome) -> (r: DecodeStep)
    ensures
        match outcome {
            PacketOutcome::Packet(id) => if id == track_id {
                r is Decode
            } else {
                r is Skip
            },
            PacketOutcome::ResetRequired => r is Reset,
            PacketOutcome::EndOfFile => r is Finish,
            PacketOutcome::Failed(reason) => r matches DecodeStep::Fail(message) && message@
                == decode_error_text(reason@),
        },
{
    match outcome {
        PacketOutcome::Packet(id) => if id == track_id {
            DecodeStep::Decode
        } else {
            DecodeStep::Skip
        },
        PacketOutcome::ResetRequired => DecodeStep::Reset,
        PacketOutcome::EndOfFile => DecodeStep::Finish,
        PacketOutcome::Failed(reason) => DecodeStep::Fail(decode_error(reason.as_str())),
    }
}

/// The message for a packet that cannot be read or decoded.
pub open spec fn decode_error_text(reason: Seq<char>) -> Seq<char> {
    "Decode error: "@ + reason
}

/// Says why a packet cannot be read or decoded.
pub fn decode_error(reason: &str) -> (r: String)
    ensures
        r@ == decode_error_text(reason@),
{
    let mut message: String = "Decode error: ".to_owned();
    message.append(reason);
    message
}

/// A track that has been decoded.
#[derive(Debug)]
pub struct DecodedTrack<T> {
    pub left: Vec<T>,
    pub right: Vec<T>,
    pub sample_rate: u32,
}

/// Takes what has been decoded, which must not be nothing.
pub fn finish_track<T>(left: Vec<T>, right: Vec<T>, sample_rate: u32) -> (r: Result<
    DecodedTrack<T>,
    String,
>)
    ensures
        left@.len() > 0 ==> r == Ok::<DecodedTrack<T>, String>(
            DecodedTrack { left, right, sample_rate },
        ),
        left@.len() == 0 ==> (r matches Err(e) && e@ == "File contains no audio samples"@),
{
    if left.len() == 0 {
        return Err("File contains no audio samples".to_owned());
    }
    Ok(DecodedTrack { left, right, sample_rate })
}

// ---------------------------------------------------------------------------
// Playback
// ---------------------------------------------------------------------------

/// What the user can ask of a playback.
#[derive(Clone, Copy, Debug, PartialEq, Eq, Structural)]
pub enum FileCommand {
    SetLoop(bool),
    SetPaused(bool),
    /// Go to a frame.
    SeekTo(usize),
    Restart,
}

/// What is to be done next.
#[derive(Clone, Copy, Debug, PartialEq, Eq, Structural)]
pub enum PlaybackStep {
    /// Wait for commands.
    Idle,
    /// Play the frames from `start` up to `end`.
    Play { start: usize, end: usize },
}

/// What is to be done when a chunk was played.
#[derive(Clone, Copy, Debug, PartialEq, Eq, Structural)]
pub enum ChunkEnd {
    /// Go on.
    Continue,
    /// The end was reached: play out what the resampler holds, then start the
    /// stream anew.
    Rewind,
    /// The end was reached: play out what the resampler holds, and stop.
    Finished,
}

/// Where a playback is.
#[derive(Clone, Copy, Debug, PartialEq, Eq, Structural)]
pub struct Playback {
    pub pos: usize,
    pub total: usize,
    pub loop_playback: bool,
    pub paused: bool,
}

/// The last frame, or frame 0 of an empty track.
pub open spec fn last_frame(total: int) -> int {
    if total > 0 {
        total - 1
    } else {
        0
    }
}

/// The state after a command.
pub open spec fn after_command(p: Playback, cmd: FileCommand) -> Playback {
    match cmd {
        FileCommand::SetLoop(v) => Playback { loop_playback: v, ..p },
        FileCommand::SetPaused(v) => Playback { paused: v, ..p },
        FileCommand::SeekTo(frame) => Playback {
            pos: if frame < last_frame(p.total as int) {
                frame
            } else {
                last_frame(p.total as int) as usize
            },
            paused: false,
            ..p
        },
        FileCommand::Restart => Playback { pos: 0, paused: false, ..p },
    }
}

/// The command breaks the stream: what the resampler and the ring hold is
/// stale.
pub open spec fn breaks_stream(cmd: FileCommand) -> bool {
    cmd is SeekTo || cmd is Restart
}

/// The end of the chunk that starts at `pos`.
pub open spec fn chunk_end(pos: int, total: int) -> int {
    if pos + CHUNK_FRAMES < total {
        pos + CHUNK_FRAMES
    } else {
        total
    }
}

impl Playback {
    pub open spec fn wf(&self) -> bool {
        self.pos <= self.total
    }

    pub fn new(total: usize, loop_playback: bool) -> (r: Self)
        ensures
            r.wf(),
            r == (Playback { pos: 0, total, loop_playback, paused: false }),
    {
        Playback { pos: 0, total, loop_playback, paused: false }
    }

    /// Carries a command out. Returns whether the resampler is to be reset and
    /// the ring to be emptied.
    pub fn command(&mut self, cmd: FileCommand) -> (r: bool)
        requires
            old(self).wf(),
        ensures
            final(self).wf(),
            *final(self) == after_command(*old(self), cmd),
            r == breaks_stream(cmd),
    {
        match cmd {
            FileCommand::SetLoop(v) => {
                self.loop_playback = v;
                false
            },
            FileCommand::SetPaused(v) => {
                self.paused = v;
                false
            },
            FileCommand::SeekTo(frame) => {
                let last: usize = if self.total > 0 {
                    self.total - 1
                } else {
                    0
                };
                self.pos = if frame < last {
                    frame
                } else {
                    last
                };
                self.paused = false;
                true
            },
            FileCommand::Restart => {
                self.pos = 0;
                self.paused = false;
                true
            },
        }
    }

    /// What is to be done next.
    pub fn next_step(&self) -> (r: PlaybackStep)
        requires
            self.wf(),
        ensures
            self.paused ==> r is Idle,
            !self.paused ==> r == (PlaybackStep::Play {
                start: self.pos,
                end: chunk_end(self.pos as int, self.total as int) as usize,
            }),
    {
        if self.paused {
            return PlaybackStep::Idle;
        }
        let end: usize = if self.total - self.pos > CHUNK_FRAMES {
            self.pos + CHUNK_FRAMES
        } else {
            self.total
        };
        PlaybackStep::Play { start: self.pos, end }
    }

    /// A chunk was played up to `end`. A position that a command set meanwhile
    /// is given up.
    pub fn chunk_played(&mut self, end: usize) -> (r: ChunkEnd)
        requires
            old(self).wf(),
            end <= old(self).total,
        ensures
            final(self).wf(),
            end < old(self).total ==> r is Continue && *final(self) == (Playback {
                pos: end,
                ..*old(self)
            }),
            end == old(self).total && old(self).loop_playback ==> r is Rewind && *final(self) == (
            Playback { pos: 0, ..*old(self) }),
            end == old(self).total && !old(self).loop_playback ==> r is Finished && *final(self)
                == (Playback { pos: end, ..*old(self) }),
    {
        self.pos = end;
        if self.pos < self.total {
            return ChunkEnd::Continue;
        }
        if self.loop_playback {
            self.pos = 0;
            ChunkEnd::Rewind
        } else {
            ChunkEnd::Finished
        }
    }
}

// ---------------------------------------------------------------------------
// Properties of the playback
// ---------------------------------------------------------------------------

/// A chunk is never longer than `CHUNK_FRAMES`, stays within the track, and is
/// empty only at its end.
pub proof fn lemma_chunk_size(pos: int, total: int)
    requires
        0 <= pos <= total,
    ensures
        pos <= chunk_end(pos, total) <= total,
        chunk_end(pos, total) - pos <= CHUNK_FRAMES,
        pos < total ==> pos < chunk_end(pos, total),
{
}

/// The place after `n` undisturbed chunks from the start.
pub open spec fn place_after(total: int, n: int) -> int
    decreases n,
{
    if n <= 0 {
        0
    } else {
        chunk_end(place_after(total, n - 1), total)
    }
}

/// Undisturbed playback covers the track without gap: after `n` chunks all
/// frames before `n * CHUNK_FRAMES` were played, up to the end of the track.
pub proof fn lemma_playback_covers(total: int, n: int)
    requires
        0 <= total,
        0 <= n,
    ensures
        place_after(total, n) == (if n * CHUNK_FRAMES < total {
            n * CHUNK_FRAMES
        } else {
            total
        }),
    decreases n,
{
    if n > 0 {
        lemma_playback_covers(total, n - 1);
    }
}

/// A seek or a restart ends a pause and sets the wanted place, or the last frame
/// where that lies behind the track. A chunk that is being played meanwhile sets
/// the place once more when it ends (`chunk_played`).
pub proof fn lemma_seek_resumes(p: Playback, cmd: FileCommand)
    requires
        p.wf(),
        p.total > 0,
        breaks_stream(cmd),
    ensures
        !after_command(p, cmd).paused,
        after_command(p, cmd).pos < p.total,
        cmd matches FileCommand::SeekTo(frame) ==> frame < p.total ==> after_command(p, cmd).pos
            == frame,
        cmd matches FileCommand::SeekTo(frame) ==> frame >= p.total ==> after_command(p, cmd).pos
            == p.total - 1,
        cmd is Restart ==> after_command(p, cmd).pos == 0,
{
}

// ---------------------------------------------------------------------------
// What decoding and playback do
// ---------------------------------------------------------------------------

/// No frame is lost: each side gets one sample for each frame, the one of its
/// channel. A single channel goes to both sides.
pub proof fn lemma_split_every_frame<T>(samples: Seq<T>, channels: int, side: int, k: int)
    requires
        channels > 0,
        samples.len() % (channels as nat) == 0,
        0 <= side <= 1,
    ensures
        split_side(samples, channels, side).len() == samples.len() as int / channels,
        0 <= k < samples.len() as int / channels ==> split_side(samples, channels, side)[k]
            == samples[k * channels + (if channels == 1 {
            0
        } else {
            side
        })],
{
    let n = samples.len() as int;
    let q = n / channels;
    vstd::arithmetic::div_mod::lemma_fundamental_div_mod(n, channels);
    assert(channels * q == q * channels) by (nonlinear_arith);
    vstd::arithmetic::div_mod::lemma_fundamental_div_mod_converse(
        n + channels - 1,
        channels,
        q,
        channels - 1,
    );
    vstd::arithmetic::div_mod::lemma_div_pos_is_pos(n, channels);
}

/// A last frame with some channels missing counts as a frame: `len` frames are
/// needed for all samples, and one less is not enough.
pub proof fn lemma_split_covers<T>(samples: Seq<T>, channels: int, side: int, k: int)
    requires
        channels > 0,
        0 <= side <= 1,
    ensures
        ({
            let len = split_side(samples, channels, side).len() as int;
            &&& len * channels >= samples.len()
            &&& (len - 1) * channels < samples.len()
            &&& 0 <= k < len ==> split_side(samples, channels, side)[k] == samples[k * channels + (
            if channels == 1 {
                0
            } else {
                side
            })]
        }),
{
    let n = samples.len() as int;
    let len = (n + channels - 1) / channels;
    vstd::arithmetic::div_mod::lemma_div_pos_is_pos(n + channels - 1, channels);
    ring::lemma_steps_within(n, channels, len);
    if n > 0 {
        ring::lemma_steps_within(n, channels, len - 1);
    } else {
        ring::lemma_steps_within(n, channels, 0);
        assert(0 * channels == 0) by (nonlinear_arith);
        assert((0 - 1) * channels < 0) by (nonlinear_arith)
            requires
                channels > 0,
        ;
    }
}

/// Packets can be split one by one: whole frames followed by more samples give the
/// samples of the one followed by those of the other.
pub proof fn lemma_split_in_parts<T>(a: Seq<T>, b: Seq<T>, channels: int, side: int)
    requires
        channels > 0,
        a.len() % (channels as nat) == 0,
        0 <= side <= 1,
        channels >= 2 ==> b.len() % (channels as nat) != 1,
    ensures
        split_side(a + b, channels, side) == split_side(a, channels, side) + split_side(
            b,
            channels,
            side,
        ),
{
    let (n, m) = (a.len() as int, b.len() as int);
    let q = n / channels;
    vstd::arithmetic::div_mod::lemma_fundamental_div_mod(n, channels);
    assert(channels * q == q * channels) by (nonlinear_arith);
    vstd::arithmetic::div_mod::lemma_hoist_over_denominator(m + channels - 1, q, channels as nat);
    let whole = split_side(a + b, channels, side);
    let parts = split_side(a, channels, side) + split_side(b, channels, side);
    lemma_split_every_frame(a, channels, side, 0);
    vstd::arithmetic::div_mod::lemma_div_pos_is_pos(m + channels - 1, channels);
    vstd::arithmetic::div_mod::lemma_div_pos_is_pos(n, channels);
    assert(whole.len() == parts.len());
    assert forall|k: int| 0 <= k < whole.len() implies #[trigger] whole[k] == parts[k] by {
        lemma_split_every_frame(a, channels, side, k);
        if k < q {
            assert(k * channels + channels <= q * channels) by (nonlinear_arith)
                requires
                    k + 1 <= q,
                    channels > 0,
            ;
            assert(0 <= k * channels) by (nonlinear_arith)
                requires
                    0 <= k,
                    channels > 0,
            ;
        } else {
            assert(k * channels == q * channels + (k - q) * channels) by (nonlinear_arith);
            ring::lemma_steps_within(m, channels, k - q);
            lemma_second_sample(m, channels, k - q);
            assert(0 <= (k - q) * channels) by (nonlinear_arith)
                requires
                    q <= k,
                    channels > 0,
            ;
        }
    }
    assert(whole =~= parts);
}

/// The first coded track is coded, and none before it is; there is one place for
/// it.
pub proof fn lemma_first_coded(tracks: Seq<TrackInfo>, i: int, j: int)
    requires
        is_first_coded(tracks, i),
        0 <= j < tracks.len(),
        tracks[j].coded,
    ensures
        0 <= i <= j,
        tracks[i].coded,
        is_first_coded(tracks, j) ==> i == j,
{
}

/// A decoding error says what it is and then its reason.
pub proof fn lemma_decode_error(reason: Seq<char>)
    ensures
        decode_error_text(reason).len() == 14 + reason.len(),
        decode_error_text(reason).take(14) == "Decode error: "@,
        decode_error_text(reason).skip(14) == reason,
{
    reveal_strlit("Decode error: ");
    assert(decode_error_text(reason).take(14) =~= "Decode error: "@);
    assert(decode_error_text(reason).skip(14) =~= reason);
}

/// Each command changes what it names, and nothing besides: loop and pause take
/// the value that is asked for, whatever it is; a seek and a restart also end a
/// pause, and only they break the stream.
pub proof fn lemma_commands(p: Playback, v: bool, frame: usize)
    requires
        p.wf(),
    ensures
        after_command(p, FileCommand::SetLoop(v)) == (Playback { loop_playback: v, ..p }),
        after_command(p, FileCommand::SetPaused(v)) == (Playback { paused: v, ..p }),
        after_command(p, FileCommand::Restart) == (Playback { pos: 0, paused: false, ..p }),
        ({
            let sought = after_command(p, FileCommand::SeekTo(frame));
            &&& sought.total == p.total
            &&& sought.loop_playback == p.loop_playback
            &&& !sought.paused
            &&& frame < p.total ==> sought.pos == frame
            &&& p.total > 0 && frame >= p.total ==> sought.pos == p.total - 1
            &&& p.total == 0 ==> sought.pos == 0
        }),
        breaks_stream(FileCommand::SeekTo(frame)),
        breaks_stream(FileCommand::Restart),
        !breaks_stream(FileCommand::SetLoop(v)),
        !breaks_stream(FileCommand::SetPaused(v)),
{
}

/// A chunk has 2048 frames, or as many as are left.
pub proof fn lemma_next_chunk(pos: int, total: int)
    requires
        0 <= pos <= total,
    ensures
        total - pos >= 2048 ==> chunk_end(pos, total) == pos + 2048,
        total - pos <= 2048 ==> chunk_end(pos, total) == total,
{
}

/// A track that is coded is the first one exactly where no track before it is. A
/// list that starts with a track that is not coded has its first one where the rest
/// has it.
pub proof fn lemma_first_coded_found(t: TrackInfo, rest: Seq<TrackInfo>, i: int)
    ensures
        t.coded ==> is_first_coded(seq![t] + rest, 0),
        !t.coded ==> (is_first_coded(seq![t] + rest, i + 1) <==> is_first_coded(rest, i)),
{
    let all = seq![t] + rest;
    assert(all[0] == t);
    if !t.coded {
        if 0 <= i < rest.len() {
            assert(all[i + 1] == rest[i]);
        }
        if is_first_coded(all, i + 1) {
            assert forall|j: int| 0 <= j < i implies !(#[trigger] rest[j]).coded by {
                assert(all[j + 1] == rest[j]);
            }
        }
        if is_first_coded(rest, i) {
            assert forall|j: int| 0 <= j < i + 1 implies !(#[trigger] all[j]).coded by {
                if j > 0 {
                    assert(all[j] == rest[j - 1]);
                }
            }
        }
    }
}

/// The track that is chosen is the first one that is coded. It is refused exactly
/// where its rate or its channels are not known.
pub proof fn lemma_chosen_track(tracks: &Vec<TrackInfo>, r: Result<ChosenTrack, String>, i: int)
    requires
        call_ensures(choose_track, (tracks,), r),
        0 <= i < tracks@.len(),
        tracks@[i].coded,
        forall|j: int| 0 <= j < i ==> !(#[trigger] tracks@[j]).coded,
    ensures
        r is Ok <==> tracks@[i].sample_rate is Some && tracks@[i].channels is Some,
        r matches Ok(t) ==> {
            &&& t.index == i
            &&& t.id == tracks@[i].id
            &&& tracks@[i].sample_rate == Some(t.sample_rate)
            &&& tracks@[i].channels == Some(t.channels)
        },
{
    assert(is_first_coded(tracks@, i));
    if let Err(e) = r {
        reveal_strlit("No audio track found");
        if tracks@[i].sample_rate is Some && tracks@[i].channels is Some {
            assert forall|k: int| #[trigger] is_first_coded(tracks@, k) implies k == i by {
                assert(!(k < i) && !(i < k));
            }
        }
    }
}

/// A packet is decoded where it belongs to the chosen track and skipped where it
/// belongs to another; what is no packet is neither.
pub proof fn lemma_decoded(track_id: u32, outcome: PacketOutcome, r: DecodeStep)
    requires
        call_ensures(decode_step, (track_id, outcome), r),
    ensures
        r is Decode <==> outcome == PacketOutcome::Packet(track_id),
        r is Skip <==> outcome is Packet && outcome->Packet_0 != track_id,
        r is Reset <==> outcome is ResetRequired,
        r is Finish <==> outcome is EndOfFile,
        r is Fail <==> outcome is Failed,
{
}

/// The frames from the present place on are played, at most 2048 of them, unless the
/// playback is paused.
pub proof fn lemma_next_step(p: Playback, r: PlaybackStep)
    requires
        call_ensures(Playback::next_step, (&p,), r),
        p.pos <= p.total,
    ensures
        r is Idle <==> p.paused,
        r matches PlaybackStep::Play { start, end } ==> {
            &&& start == p.pos
            &&& start <= end <= p.total
            &&& end - start <= 2048
            &&& end - start == 2048 || end == p.total
        },
{
}

/// A chunk that does not reach the end is followed by the next one. At the end the
/// playback starts again where it loops, and stops there otherwise.
pub proof fn lemma_chunk_played(end: usize, r: ChunkEnd)
    ensures
        forall|p: &mut Playback| #[trigger]
            call_ensures(Playback::chunk_played, (p, end), r) && end <= (*p).total ==> {
                &&& r is Continue <==> end < (*p).total
                &&& r is Rewind <==> end == (*p).total && (*p).loop_playback
                &&& r is Rewind ==> (*final(p)).pos == 0
                &&& !(r is Rewind) ==> (*final(p)).pos == end
                &&& (*final(p)).total == (*p).total
                &&& (*final(p)).loop_playback == (*p).loop_playback
                &&& (*final(p)).paused == (*p).paused
            },
{
}

/// Splitting adds one frame for each group of samples, however many there are: of
/// two channels the first sample goes left and the second right, a single channel
/// goes to both sides, and what was there before stays.
pub proof fn lemma_frames_split<T: Copy>(samples: &[T], channels: usize, k: int)
    requires
        channels > 0,
        0 <= k,
        k * channels < samples@.len(),
    ensures
        forall|left: &mut Vec<T>, right: &mut Vec<T>| #[trigger]
            call_ensures(split_frames::<T>, (samples, channels, left, right), ()) ==> {
                let (l, r) = ((*left)@.len(), (*right)@.len());
                &&& k < (*final(left))@.len() - l
                &&& k < (*final(right))@.len() - r
                &&& (*final(left))@[l + k] == samples@[k * channels]
                &&& (*final(right))@[r + k] == samples@[k * channels + if channels >= 2 {
                    1int
                } else {
                    0
                }]
                &&& (*final(left))@.take(l as int) == (*left)@
                &&& (*final(right))@.take(r as int) == (*right)@
                &&& ((*final(left))@.len() - l - 1) * channels < samples@.len()
            },
{
    let n = samples@.len() as int;
    let c = channels as int;
    let count = (n + c - 1) / c;
    ring::lemma_steps_within(n, c, k);
    ring::lemma_steps_within(n, c, count - 1);
    assert forall|left: &mut Vec<T>, right: &mut Vec<T>| #[trigger]
        call_ensures(split_frames::<T>, (samples, channels, left, right), ()) implies {
        let (l, r) = ((*left)@.len(), (*right)@.len());
        &&& k < (*final(left))@.len() - l
        &&& k < (*final(right))@.len() - r
        &&& (*final(left))@[l + k] == samples@[k * channels]
        &&& (*final(right))@[r + k] == samples@[k * channels + if channels >= 2 {
            1int
        } else {
            0
        }]
        &&& (*final(left))@.take(l as int) == (*left)@
        &&& (*final(right))@.take(r as int) == (*right)@
        &&& ((*final(left))@.len() - l - 1) * channels < samples@.len()
    } by {
        let (l, r) = ((*left)@, (*right)@);
        assert((*final(left))@ == l + split_side(samples@, c, 0));
        assert((*final(right))@ == r + split_side(samples@, c, 1));
        assert((*final(left))@.take(l.len() as int) =~= l);
        assert((*final(right))@.take(r.len() as int) =~= r);
    }
}

} // verus!
