//! Filling the buffers of the audio device.

use vstd::prelude::*;

verus! {

/// The last frame that was played. It is repeated while nothing is there.
#[verifier::ext_equal]
pub struct Held<T> {
    pub left: T,
    pub right: T,
}

/// The frame that is held after `got` interleaved frames were read.
pub open spec fn held_after<T>(held: Held<T>, scratch: Seq<T>, got: int) -> Held<T> {
    if got > 0 {
        Held { left: scratch[2 * (got - 1)], right: scratch[2 * (got - 1) + 1] }
    } else {
        held
    }
}

/// Sample `i` of a device buffer: channel 0 is the left one, channel 1 the right
/// one, others are silent. Frames that were not read repeat the held one.
pub open spec fn output_sample<T>(
    held: Held<T>,
    scratch: Seq<T>,
    got: int,
    channels: int,
    silence: T,
    i: int,
) -> T {
    let frame = i / channels;
    let channel = i % channels;
    let last = held_after(held, scratch, got);
    if channel == 0 {
        if frame < got {
            scratch[2 * frame]
        } else {
            last.left
        }
    } else if channel == 1 {
        if frame < got {
            scratch[2 * frame + 1]
        } else {
            last.right
        }
    } else {
        silence
    }
}

/// Turns frames from the ring into device buffers.
pub struct OutputFeed<T> {
    hold_l: T,
    hold_r: T,
}

impl<T> View for OutputFeed<T> {
    type V = Held<T>;

    closed spec fn view(&self) -> Held<T> {
        Held { left: self.hold_l, right: self.hold_r }
    }
}

impl<T: Copy> OutputFeed<T> {
    pub fn new(silence: T) -> (r: Self)
        ensures
            r@ == (Held { left: silence, right: silence }),
    {
        OutputFeed { hold_l: silence, hold_r: silence }
    }

    /// The samples of a device buffer with room for `len` of them. The first
    /// `got` frames of `scratch` were read from the ring.
    pub fn fill(
        &mut self,
        scratch: &[T],
        got: usize,
        channels: usize,
        len: usize,
        silence: T,
    ) -> (out: Vec<T>)
        requires
            channels > 0,
            got <= len as int / channels as int,
            2 * got <= scratch@.len(),
        ensures
            final(self)@ == held_after(old(self)@, scratch@, got as int),
            out@ == Seq::new(
                len as nat,
                |i: int|
                    output_sample(
                        old(self)@,
                        scratch@,
                        got as int,
                        channels as int,
                        silence,
                        i,
                    ),
            ),
    {
        let ghost held = self@;
        let room: usize = scratch.len();
        if got > 0 {
            self.hold_l = scratch[2 * (got - 1)];
            self.hold_r = scratch[2 * (got - 1) + 1];
        }
        let mut out: Vec<T> = Vec::with_capacity(len);
        let mut i: usize = 0;
        while i < len
            invariant
                i <= len,
                out@.len() == i,
                channels > 0,
                room == scratch@.len(),
                2 * got <= room,
                self@ == held_after(held, scratch@, got as int),
                forall|k: int|
                    0 <= k < i ==> #[trigger] out@[k] == output_sample(
                        held,
                        scratch@,
                        got as int,
                        channels as int,
                        silence,
                        k,
                    ),
            decreases len - i,
        {
            let channel: usize = i % channels;
            let frame: usize = i / channels;
            proof {
                vstd::arithmetic::div_mod::lemma_div_pos_is_pos(i as int, channels as int);
            }
            let sample: T = if channel == 0 {
                if frame < got {
                    scratch[2 * frame]
                } else {
                    self.hold_l
                }
            } else if channel == 1 {
                if frame < got {
                    scratch[2 * frame + 1]
                } else {
                    self.hold_r
                }
            } else {
                silence
            };
            out.push(sample);
            i = i + 1;
        }
        assert(out@ =~= Seq::new(
            len as nat,
            |i: int| output_sample(held, scratch@, got as int, channels as int, silence, i),
        ));
        out
    }
}

/// A buffer for which every frame was read holds exactly these frames.
pub proof fn lemma_full_buffer<T>(
    held: Held<T>,
    scratch: Seq<T>,
    got: int,
    channels: int,
    silence: T,
    frame: int,
)
    requires
        channels >= 2,
        0 <= frame < got,
    ensures
        output_sample(held, scratch, got, channels, silence, frame * channels) == scratch[2 * frame],
        output_sample(held, scratch, got, channels, silence, frame * channels + 1) == scratch[2
            * frame + 1],
{
    lemma_place(frame, channels, 0);
    lemma_place(frame, channels, 1);
}

/// While nothing can be read, the output stays at the frame that was played
/// last.
pub proof fn lemma_underrun_holds<T>(
    held: Held<T>,
    scratch: Seq<T>,
    channels: int,
    silence: T,
    frame: int,
)
    requires
        channels >= 2,
        0 <= frame,
    ensures
        output_sample(held, scratch, 0, channels, silence, frame * channels) == held.left,
        output_sample(held, scratch, 0, channels, silence, frame * channels + 1) == held.right,
        held_after(held, scratch, 0) == held,
{
    lemma_place(frame, channels, 0);
    lemma_place(frame, channels, 1);
}

proof fn lemma_place(frame: int, channels: int, channel: int)
    requires
        0 <= channel < channels,
        0 <= frame,
    ensures
        (frame * channels + channel) / channels == frame,
        (frame * channels + channel) % channels == channel,
{
    vstd::arithmetic::div_mod::lemma_fundamental_div_mod_converse(
        frame * channels + channel,
        channels,
        frame,
        channel,
    );
}

/// Each frame of a device buffer: its first two samples are the frame that was read
/// or, behind the last one that was read, that one again; where none was read, the
/// frame that was played last. All further samples are silent.
pub proof fn lemma_every_frame<T>(
    held: Held<T>,
    scratch: Seq<T>,
    got: int,
    channels: int,
    silence: T,
    frame: int,
    channel: int,
)
    requires
        0 <= got,
        0 <= frame,
        0 <= channel < channels,
    ensures
        ({
            let sample = output_sample(
                held,
                scratch,
                got,
                channels,
                silence,
                frame * channels + channel,
            );
            &&& channel >= 2 ==> sample == silence
            &&& channel < 2 && frame < got ==> sample == scratch[2 * frame + channel]
            &&& channel < 2 && frame >= got > 0 ==> sample == scratch[2 * got - 2 + channel]
            &&& channel == 0 && got == 0 ==> sample == held.left
            &&& channel == 1 && got == 0 ==> sample == held.right
        }),
{
    lemma_place(frame, channels, channel);
}

/// The frame that is held is the last one that was read, or the one from before
/// where none was.
pub proof fn lemma_held_frame<T>(held: Held<T>, scratch: Seq<T>, got: int)
    requires
        0 <= got,
    ensures
        got > 0 ==> held_after(held, scratch, got).left == scratch[2 * got - 2],
        got > 0 ==> held_after(held, scratch, got).right == scratch[2 * got - 1],
        got == 0 ==> held_after(held, scratch, got) == held,
{
}

} // verus!
