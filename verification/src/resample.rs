//! Feeding a resampler that takes its input in chunks of its own size.

use crate::ring::drop_front;
use vstd::prelude::*;

verus! {

/// Consumed samples are given back once there are this many of them.
pub const INPUT_BUF_COMPACT_THRESHOLD: usize = 8192;

/// The frames that wait for the resampler: one sequence for each channel.
#[verifier::ext_equal]
pub struct Frames<T> {
    pub left: Seq<T>,
    pub right: Seq<T>,
}

/// The number of frames in two channels, of which the longer one is cut.
pub open spec fn common_len<T>(left: Seq<T>, right: Seq<T>) -> int {
    if left.len() < right.len() {
        left.len() as int
    } else {
        right.len() as int
    }
}

/// Frames are appended.
pub open spec fn after_feed<T>(f: Frames<T>, left: Seq<T>, right: Seq<T>) -> Frames<T> {
    let n = common_len(left, right);
    Frames { left: f.left + left.take(n), right: f.right + right.take(n) }
}

/// The first `n` frames.
pub open spec fn first_frames<T>(f: Frames<T>, n: int) -> Frames<T> {
    Frames { left: f.left.take(n), right: f.right.take(n) }
}

/// The frames after the first `n`.
pub open spec fn later_frames<T>(f: Frames<T>, n: int) -> Frames<T> {
    Frames { left: f.left.skip(n), right: f.right.skip(n) }
}

/// Frames are filled up with `zero` to at least `n`.
pub open spec fn padded<T>(f: Frames<T>, n: int, zero: T) -> Frames<T> {
    let missing = if f.left.len() < n {
        (n - f.left.len()) as nat
    } else {
        0
    };
    Frames {
        left: f.left + Seq::new(missing, |i: int| zero),
        right: f.right + Seq::new(missing, |i: int| zero),
    }
}

/// The samples with even place, from place `start` on.
pub open spec fn every_other<T>(s: Seq<T>, start: int) -> Seq<T> {
    Seq::new(((s.len() - start + 1) / 2) as nat, |i: int| s[start + 2 * i])
}

/// Interleaved samples that wait for the resampler.
pub struct ResamplerState<T> {
    input_buf: Vec<T>,
    read_pos: usize,
}

impl<T> View for ResamplerState<T> {
    type V = Frames<T>;

    closed spec fn view(&self) -> Frames<T> {
        Frames {
            left: every_other(self.input_buf@, self.read_pos as int),
            right: every_other(self.input_buf@, self.read_pos + 1),
        }
    }
}

impl<T: Copy> ResamplerState<T> {
    pub closed spec fn wf(&self) -> bool {
        self.read_pos <= self.input_buf@.len() && (self.input_buf@.len() - self.read_pos) % 2 == 0
    }

    pub fn new() -> (r: Self)
        ensures
            r.wf(),
            r@ == (Frames { left: Seq::<T>::empty(), right: Seq::<T>::empty() }),
    {
        let r = ResamplerState { input_buf: Vec::new(), read_pos: 0 };
        assert(r@ =~= (Frames { left: Seq::<T>::empty(), right: Seq::<T>::empty() }));
        r
    }

    pub fn available_frames(&self) -> (n: usize)
        requires
            self.wf(),
        ensures
            n == self@.left.len(),
            n == self@.right.len(),
    {
        (self.input_buf.len() - self.read_pos) / 2
    }

    /// Gives the consumed samples back once there are enough of them. What waits
    /// stays the same.
    fn compact_if_needed(&mut self)
        requires
            old(self).wf(),
        ensures
            final(self).wf(),
            final(self)@ == old(self)@,
            old(self).read_pos >= INPUT_BUF_COMPACT_THRESHOLD ==> {
                &&& final(self).read_pos == 0
                &&& final(self).input_buf@ == old(self).input_buf@.skip(old(self).read_pos as int)
            },
            old(self).read_pos < INPUT_BUF_COMPACT_THRESHOLD ==> {
                &&& final(self).read_pos == old(self).read_pos
                &&& final(self).input_buf@ == old(self).input_buf@
            },
    {
        if self.read_pos >= INPUT_BUF_COMPACT_THRESHOLD {
            let n: usize = self.read_pos;
            drop_front(&mut self.input_buf, n);
            self.read_pos = 0;
        }
        assert(self@ =~= old(self)@);
    }

    fn push_pair(&mut self, l: T, r: T)
        requires
            old(self).wf(),
        ensures
            final(self).wf(),
            final(self)@ == (Frames {
                left: old(self)@.left.push(l),
                right: old(self)@.right.push(r),
            }),
    {
        self.input_buf.push(l);
        self.input_buf.push(r);
        assert(self@ =~= (Frames { left: old(self)@.left.push(l), right: old(self)@.right.push(r) }));
    }

    /// One channel of the next `chunk` frames.
    fn channel_chunk(&self, chunk: usize, channel: usize) -> (r: Vec<T>)
        requires
            self.wf(),
            channel < 2,
            chunk <= self@.left.len(),
        ensures
            r@ == (if channel == 0 {
                self@.left.take(chunk as int)
            } else {
                self@.right.take(chunk as int)
            }),
    {
        let stored: usize = self.input_buf.len();
        let mut out: Vec<T> = Vec::with_capacity(chunk);
        let mut i: usize = 0;
        while i < chunk
            invariant
                self.wf(),
                channel < 2,
                i <= chunk,
                stored == self.input_buf@.len(),
                self.read_pos + 2 * chunk <= stored,
                out@.len() == i,
                forall|k: int|
                    0 <= k < i ==> #[trigger] out@[k] == self.input_buf@[self.read_pos + 2 * k
                        + channel],
            decreases chunk - i,
        {
            out.push(self.input_buf[self.read_pos + i * 2 + channel]);
            i = i + 1;
        }
        assert(out@ =~= (if channel == 0 {
            self@.left.take(chunk as int)
        } else {
            self@.right.take(chunk as int)
        }));
        out
    }

    /// The next `chunk` frames, channel by channel.
    fn deinterleave_chunk(&self, chunk: usize) -> (r: (Vec<T>, Vec<T>))
        requires
            self.wf(),
            chunk <= self@.left.len(),
        ensures
            r.0@ == first_frames(self@, chunk as int).left,
            r.1@ == first_frames(self@, chunk as int).right,
    {
        (self.channel_chunk(chunk, 0), self.channel_chunk(chunk, 1))
    }

    /// Appends frames, as many as both channels have.
    pub fn feed(&mut self, left: &[T], right: &[T])
        requires
            old(self).wf(),
        ensures
            final(self).wf(),
            final(self)@ == after_feed(old(self)@, left@, right@),
    {
        let n: usize = if left.len() < right.len() {
            left.len()
        } else {
            right.len()
        };
        let ghost f = self@;
        let mut i: usize = 0;
        assert(self@ =~= (Frames { left: f.left + left@.take(0), right: f.right + right@.take(0) }));
        while i < n
            invariant
                i <= n,
                n <= left@.len(),
                n <= right@.len(),
                self.wf(),
                self@ == (Frames {
                    left: f.left + left@.take(i as int),
                    right: f.right + right@.take(i as int),
                }),
            decreases n - i,
        {
            self.push_pair(left[i], right[i]);
            i = i + 1;
            assert(self@ =~= (Frames {
                left: f.left + left@.take(i as int),
                right: f.right + right@.take(i as int),
            }));
        }
    }

    /// The next `chunk` frames, if there are as many.
    pub fn next_chunk(&mut self, chunk: usize) -> (r: Option<(Vec<T>, Vec<T>)>)
        requires
            old(self).wf(),
        ensures
            final(self).wf(),
            r is None <==> old(self)@.left.len() < chunk,
            r is None ==> final(self)@ == old(self)@,
            r matches Some((l, rr)) ==> {
                &&& l@ == first_frames(old(self)@, chunk as int).left
                &&& rr@ == first_frames(old(self)@, chunk as int).right
                &&& final(self)@ == later_frames(old(self)@, chunk as int)
            },
    {
        if self.available_frames() < chunk {
            return None;
        }
        let ghost f = self@;
        let stored: usize = self.input_buf.len();
        let input: (Vec<T>, Vec<T>) = self.deinterleave_chunk(chunk);
        assert(self.read_pos + 2 * chunk <= stored);
        self.read_pos = self.read_pos + chunk * 2;
        assert(self@ =~= later_frames(f, chunk as int));
        self.compact_if_needed();
        Some(input)
    }

    /// At the end of a stream: the next `chunk` frames, the last of which may be
    /// filled up with `zero`. Nothing when no frame is left.
    pub fn flush_chunk(&mut self, chunk: usize, zero: T) -> (r: Option<(Vec<T>, Vec<T>)>)
        requires
            old(self).wf(),
        ensures
            final(self).wf(),
            r is None <==> old(self)@.left.len() == 0,
            r is None ==> final(self)@ == old(self)@,
            r matches Some((l, rr)) ==> {
                let f = padded(old(self)@, chunk as int, zero);
                &&& l@ == first_frames(f, chunk as int).left
                &&& rr@ == first_frames(f, chunk as int).right
                &&& final(self)@ == later_frames(f, chunk as int)
            },
    {
        let ghost f = self@;
        let mut available: usize = self.available_frames();
        if available == 0 {
            return None;
        }
        proof {
            assert(padded(f, available as int, zero) =~= f);
        }
        while available < chunk
            invariant
                self.wf(),
                available == self@.left.len(),
                f.left.len() == f.right.len(),
                f.left.len() <= available,
                self@ == padded(f, available as int, zero),
                available <= chunk || available == f.left.len(),
            ensures
                self.wf(),
                available == self@.left.len(),
                self@ == padded(f, available as int, zero),
                available >= chunk,
                available == chunk || available == f.left.len(),
            decreases chunk - available,
        {
            self.push_pair(zero, zero);
            available = available + 1;
            assert(self@ =~= padded(f, available as int, zero));
        }
        proof {
            if available == chunk {
                assert(self@ == padded(f, chunk as int, zero));
            } else {
                assert(padded(f, chunk as int, zero) =~= f);
            }
        }
        self.next_chunk(chunk)
    }
}

/// Brings stereo samples to the rate of the device. Where the rates are the same
/// the samples go through as they are; otherwise they wait here until the
/// resampler takes them.
pub struct StereoResampler<T> {
    inner: Option<ResamplerState<T>>,
}

/// What waits for the resampler; nothing where the rates are the same.
impl<T> View for StereoResampler<T> {
    type V = Option<Frames<T>>;

    closed spec fn view(&self) -> Option<Frames<T>> {
        match self.inner {
            Some(state) => Some(state@),
            None => None,
        }
    }
}

/// The state at the start of a stream.
pub open spec fn fresh<T>(input_rate: u32, output_rate: u32) -> Option<Frames<T>> {
    if input_rate == output_rate {
        None
    } else {
        Some(Frames { left: Seq::<T>::empty(), right: Seq::<T>::empty() })
    }
}

impl<T: Copy> StereoResampler<T> {
    pub closed spec fn wf(&self) -> bool {
        self.inner matches Some(state) ==> state.wf()
    }

    pub fn new(input_rate: u32, output_rate: u32) -> (r: Self)
        ensures
            r.wf(),
            r@ == fresh::<T>(input_rate, output_rate),
    {
        if input_rate == output_rate {
            StereoResampler { inner: None }
        } else {
            StereoResampler { inner: Some(ResamplerState::new()) }
        }
    }

    pub fn reset(&mut self, input_rate: u32, output_rate: u32)
        ensures
            final(self).wf(),
            final(self)@ == fresh::<T>(input_rate, output_rate),
    {
        *self = Self::new(input_rate, output_rate);
    }

    /// Takes samples in. Where the rates are the same they come back at once;
    /// otherwise nothing comes back, and `next_chunk` hands them to the
    /// resampler.
    pub fn process(&mut self, left: &[T], right: &[T]) -> (r: Option<(Vec<T>, Vec<T>)>)
        requires
            old(self).wf(),
        ensures
            final(self).wf(),
            match old(self)@ {
                None => {
                    &&& final(self)@ == old(self)@
                    &&& r matches Some((l, rr)) && l@ == left@ && rr@ == right@
                },
                Some(f) => {
                    &&& final(self)@ == Some(after_feed(f, left@, right@))
                    &&& r is None
                },
            },
    {
        match self.inner.take() {
            Some(mut state) => {
                state.feed(left, right);
                self.inner = Some(state);
                None
            },
            None => {
                let mut l: Vec<T> = Vec::with_capacity(left.len());
                let mut r: Vec<T> = Vec::with_capacity(right.len());
                crate::ring::append(&mut l, left);
                crate::ring::append(&mut r, right);
                assert(l@ =~= left@);
                assert(r@ =~= right@);
                Some((l, r))
            },
        }
    }

    /// The next input of the resampler, which takes `chunk` frames.
    pub fn next_chunk(&mut self, chunk: usize) -> (r: Option<(Vec<T>, Vec<T>)>)
        requires
            old(self).wf(),
        ensures
            final(self).wf(),
            match old(self)@ {
                None => r is None && final(self)@ == old(self)@,
                Some(f) => {
                    &&& r is None <==> f.left.len() < chunk
                    &&& r is None ==> final(self)@ == old(self)@
                    &&& r matches Some((l, rr)) ==> {
                        &&& l@ == first_frames(f, chunk as int).left
                        &&& rr@ == first_frames(f, chunk as int).right
                        &&& final(self)@ == Some(later_frames(f, chunk as int))
                    }
                },
            },
    {
        match self.inner.take() {
            Some(mut state) => {
                let r: Option<(Vec<T>, Vec<T>)> = state.next_chunk(chunk);
                self.inner = Some(state);
                r
            },
            None => None,
        }
    }

    /// The next input of the resampler at the end of a stream.
    pub fn flush(&mut self, chunk: usize, zero: T) -> (r: Option<(Vec<T>, Vec<T>)>)
        requires
            old(self).wf(),
        ensures
            final(self).wf(),
            match old(self)@ {
                None => r is None && final(self)@ == old(self)@,
                Some(f) => {
                    &&& r is None <==> f.left.len() == 0
                    &&& r is None ==> final(self)@ == old(self)@
                    &&& r matches Some((l, rr)) ==> {
                        let p = padded(f, chunk as int, zero);
                        &&& l@ == first_frames(p, chunk as int).left
                        &&& rr@ == first_frames(p, chunk as int).right
                        &&& final(self)@ == Some(later_frames(p, chunk as int))
                    }
                },
            },
    {
        match self.inner.take() {
            Some(mut state) => {
                let r: Option<(Vec<T>, Vec<T>)> = state.flush_chunk(chunk, zero);
                self.inner = Some(state);
                r
            },
            None => None,
        }
    }
}

// ---------------------------------------------------------------------------
// Properties
// ---------------------------------------------------------------------------

/// It makes no difference whether frames are fed at once or in two parts.
pub proof fn lemma_feed_in_parts<T>(
    f: Frames<T>,
    left1: Seq<T>,
    right1: Seq<T>,
    left2: Seq<T>,
    right2: Seq<T>,
)
    requires
        left1.len() == right1.len(),
    ensures
        after_feed(after_feed(f, left1, right1), left2, right2) == after_feed(
            f,
            left1 + left2,
            right1 + right2,
        ),
{
    let twice = after_feed(after_feed(f, left1, right1), left2, right2);
    let once = after_feed(f, left1 + left2, right1 + right2);
    assert(twice.left =~= once.left);
    assert(twice.right =~= once.right);
}

/// No frame is lost or changed: a chunk and what stays after it make up what was
/// there before.
pub proof fn lemma_chunk_loses_nothing<T>(f: Frames<T>, chunk: int)
    requires
        f.left.len() == f.right.len(),
        0 <= chunk <= f.left.len(),
    ensures
        first_frames(f, chunk).left + later_frames(f, chunk).left == f.left,
        first_frames(f, chunk).right + later_frames(f, chunk).right == f.right,
{
    assert(first_frames(f, chunk).left + later_frames(f, chunk).left =~= f.left);
    assert(first_frames(f, chunk).right + later_frames(f, chunk).right =~= f.right);
}

/// The chunks of a flushed stream until nothing is left.
pub open spec fn flushed<T>(f: Frames<T>, chunk: int, zero: T) -> Frames<T>
    decreases f.left.len(),
{
    if f.left.len() == 0 || chunk <= 0 {
        Frames { left: Seq::empty(), right: Seq::empty() }
    } else {
        let p = padded(f, chunk, zero);
        let rest = flushed(
            Frames { left: f.left.skip(min(chunk, f.left.len() as int)), right: f.right.skip(
                min(chunk, f.left.len() as int),
            ) },
            chunk,
            zero,
        );
        Frames {
            left: first_frames(p, chunk).left + rest.left,
            right: first_frames(p, chunk).right + rest.right,
        }
    }
}

pub open spec fn min(a: int, b: int) -> int {
    if a < b {
        a
    } else {
        b
    }
}

/// Flushing hands out all frames in order and then fills the last chunk up with
/// zeros: the total is the next multiple of the chunk size.
pub proof fn lemma_flush_hands_out_all<T>(f: Frames<T>, chunk: int, zero: T)
    requires
        f.left.len() == f.right.len(),
        chunk > 0,
    ensures
        ({
            let out = flushed(f, chunk, zero);
            let n = f.left.len() as int;
            &&& out.left.len() == out.right.len()
            &&& out.left.len() % chunk as nat == 0
            &&& n <= out.left.len() < n + chunk
            &&& out.left.take(n) == f.left
            &&& out.right.take(n) == f.right
            &&& forall|i: int| n <= i < out.left.len() ==> #[trigger] out.left[i] == zero
            &&& forall|i: int| n <= i < out.left.len() ==> #[trigger] out.right[i] == zero
        }),
    decreases f.left.len(),
{
    let out = flushed(f, chunk, zero);
    let n = f.left.len() as int;
    if n == 0 {
        assert(out.left.take(n) =~= f.left);
        assert(out.right.take(n) =~= f.right);
        vstd::arithmetic::div_mod::lemma_small_mod(0, chunk as nat);
    } else {
        let k = min(chunk, n);
        let p = padded(f, chunk, zero);
        let rest_in = Frames { left: f.left.skip(k), right: f.right.skip(k) };
        lemma_flush_hands_out_all(rest_in, chunk, zero);
        let rest = flushed(rest_in, chunk, zero);
        assert(first_frames(p, chunk).left.len() == chunk);
        assert(out.left.len() == chunk + rest.left.len());
        vstd::arithmetic::div_mod::lemma_mod_add_multiples_vanish(rest.left.len() as int, chunk);
        assert forall|i: int| 0 <= i < n implies #[trigger] out.left[i] == f.left[i] && out.right[i]
            == f.right[i] by {
            if i >= chunk {
                assert(rest.left.take(n - k)[i - chunk] == rest_in.left[i - chunk]);
                assert(rest.right.take(n - k)[i - chunk] == rest_in.right[i - chunk]);
            }
        }
        assert(out.left.take(n) =~= f.left);
        assert forall|i: int| 0 <= i < n implies #[trigger] out.right[i] == f.right[i] by {
            assert(out.left[i] == f.left[i]);
        }
        assert(out.right.take(n) =~= f.right);
        assert forall|i: int| n <= i < out.left.len() implies #[trigger] out.left[i] == zero
            && out.right[i] == zero by {
            if i >= chunk {
                assert(rest.left[i - chunk] == zero);
                assert(rest.right[i - chunk] == zero);
            }
        }
        assert forall|i: int| n <= i < out.left.len() implies #[trigger] out.right[i] == zero by {
            assert(out.left[i] == zero);
        }
    }
}

/// Flushing in steps is what `flushed` says: the first chunk, and then the
/// chunks of what stays.
pub proof fn lemma_flush_step<T>(f: Frames<T>, chunk: int, zero: T)
    requires
        f.left.len() == f.right.len(),
        f.left.len() > 0,
        chunk > 0,
    ensures
        ({
            let p = padded(f, chunk, zero);
            let rest = flushed(later_frames(p, chunk), chunk, zero);
            &&& flushed(f, chunk, zero).left == first_frames(p, chunk).left + rest.left
            &&& flushed(f, chunk, zero).right == first_frames(p, chunk).right + rest.right
        }),
{
    let k = min(chunk, f.left.len() as int);
    let p = padded(f, chunk, zero);
    assert(later_frames(p, chunk) =~= (Frames { left: f.left.skip(k), right: f.right.skip(k) }));
}

/// One frame more joins at the end, and a frame without its other half does not.
pub proof fn lemma_feed_one<T>(f: Frames<T>, l: T, r: T, left: Seq<T>, right: Seq<T>)
    ensures
        after_feed(f, seq![l], seq![r]) == (Frames {
            left: f.left.push(l),
            right: f.right.push(r),
        }),
        after_feed(f, left, seq![]) == f,
        after_feed(f, seq![], right) == f,
{
    assert(after_feed(f, seq![l], seq![r]) =~= (Frames {
        left: f.left.push(l),
        right: f.right.push(r),
    }));
    assert(after_feed(f, left, seq![]) =~= f);
    assert(after_feed(f, seq![], right) =~= f);
}

/// What is fed stands behind what was there, sample by sample, as far as both
/// channels go.
pub proof fn lemma_feed_places<T>(f: Frames<T>, left: Seq<T>, right: Seq<T>, i: int)
    ensures
        ({
            let all = after_feed(f, left, right);
            &&& all.left.len() - f.left.len() == all.right.len() - f.right.len()
            &&& all.left.len() == f.left.len() + left.len() || all.right.len() == f.right.len()
                + right.len()
            &&& all.left.len() <= f.left.len() + left.len()
            &&& all.right.len() <= f.right.len() + right.len()
            &&& 0 <= i < f.left.len() ==> all.left[i] == f.left[i]
            &&& 0 <= i < f.right.len() ==> all.right[i] == f.right[i]
            &&& 0 <= i < left.len() && i < right.len() ==> {
                &&& all.left[f.left.len() + i] == left[i]
                &&& all.right[f.right.len() + i] == right[i]
            }
        }),
{
}

/// The first frames and the later ones, sample by sample.
pub proof fn lemma_cut_places<T>(f: Frames<T>, n: int, i: int)
    requires
        0 <= n <= f.left.len(),
        n <= f.right.len(),
    ensures
        first_frames(f, n).left.len() == n,
        first_frames(f, n).right.len() == n,
        later_frames(f, n).left.len() == f.left.len() - n,
        later_frames(f, n).right.len() == f.right.len() - n,
        0 <= i < n ==> first_frames(f, n).left[i] == f.left[i] && first_frames(f, n).right[i]
            == f.right[i],
        n <= i < f.left.len() ==> later_frames(f, n).left[i - n] == f.left[i],
        n <= i < f.right.len() ==> later_frames(f, n).right[i - n] == f.right[i],
{
}

/// Filling up leaves the frames that are there and adds only what is missing.
pub proof fn lemma_filled_up<T>(f: Frames<T>, n: int, zero: T, i: int)
    requires
        f.left.len() == f.right.len(),
    ensures
        ({
            let p = padded(f, n, zero);
            &&& p.left.len() == p.right.len()
            &&& n <= f.left.len() ==> p.left == f.left && p.right == f.right
            &&& n > f.left.len() ==> p.left.len() == n
            &&& 0 <= i < f.left.len() ==> p.left[i] == f.left[i] && p.right[i] == f.right[i]
            &&& f.left.len() <= i < n ==> p.left[i] == zero && p.right[i] == zero
        }),
{
    let p = padded(f, n, zero);
    if n <= f.left.len() {
        assert(p.left =~= f.left);
        assert(p.right =~= f.right);
    }
}

/// A stream starts with nothing that waits; samples pass by where the rates are the
/// same, and only there.
pub proof fn lemma_fresh<T>(input_rate: u32, output_rate: u32)
    ensures
        fresh::<T>(input_rate, output_rate) is None <==> input_rate == output_rate,
        fresh::<T>(input_rate, output_rate) matches Some(f) ==> f.left.len() == 0 && f.right.len()
            == 0,
        INPUT_BUF_COMPACT_THRESHOLD == 8192,
{
}

/// Where the rates are the same, samples come back as they are and nothing waits;
/// otherwise they wait, and nothing comes back.
pub proof fn lemma_processed<T: Copy>(left: &[T], right: &[T], r: Option<(Vec<T>, Vec<T>)>)
    ensures
        forall|s: &mut StereoResampler<T>| #[trigger]
            call_ensures(StereoResampler::<T>::process, (s, left, right), r) ==> {
                &&& (*s)@ is None <==> r is Some
                &&& (*final(s))@ is None <==> (*s)@ is None
                &&& r matches Some(out) ==> out.0@ == left@ && out.1@ == right@
                &&& left@.len() == right@.len() && (*s)@ is Some ==> {
                    &&& (*final(s))@->0.left == (*s)@->0.left + left@
                    &&& (*final(s))@->0.right == (*s)@->0.right + right@
                }
            },
{
    assert(left@.take(left@.len() as int) =~= left@);
    assert(right@.take(right@.len() as int) =~= right@);
}

/// A chunk comes exactly where as many frames wait. It is the oldest of them, and
/// with what stays it makes up what was there.
pub proof fn lemma_chunked<T: Copy>(chunk: usize, r: Option<(Vec<T>, Vec<T>)>)
    ensures
        forall|s: &mut ResamplerState<T>| #[trigger]
            call_ensures(ResamplerState::<T>::next_chunk, (s, chunk), r)
                && (*s)@.left.len() == (*s)@.right.len() ==> {
                &&& r is Some <==> (*s)@.left.len() >= chunk
                &&& r is None ==> (*final(s))@ == (*s)@
                &&& r matches Some(out) ==> {
                    &&& out.0@.len() == chunk && out.1@.len() == chunk
                    &&& out.0@ + (*final(s))@.left == (*s)@.left
                    &&& out.1@ + (*final(s))@.right == (*s)@.right
                }
            },
{
    assert forall|s: &mut ResamplerState<T>| #[trigger]
        call_ensures(ResamplerState::<T>::next_chunk, (s, chunk), r) && (*s)@.left.len()
            == (*s)@.right.len() implies {
        &&& r is Some <==> (*s)@.left.len() >= chunk
        &&& r is None ==> (*final(s))@ == (*s)@
        &&& r matches Some(out) ==> {
            &&& out.0@.len() == chunk && out.1@.len() == chunk
            &&& out.0@ + (*final(s))@.left == (*s)@.left
            &&& out.1@ + (*final(s))@.right == (*s)@.right
        }
    } by {
        if (*s)@.left.len() >= chunk {
            lemma_chunk_loses_nothing((*s)@, chunk as int);
        }
    }
}

} // verus!
