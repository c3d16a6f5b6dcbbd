//! The receiver: tuner bytes to multiplex samples or mono audio.

use super::angle;
use super::angle::{fast_atan2, HALF_TURN};
use super::complex;
use super::complex::{complex_add, cross, Iq};
use super::decimate;
use super::fm::{DemodConfig, AUDIO_SAMPLE_RATE, MPX_SAMPLE_RATE};
use vstd::prelude::*;

verus! {

/// The largest downsampling factor for which no sum of samples and no product
/// of two such sums leaves 32 bits.
pub const MAX_DOWNSAMPLE: u32 = 255;

/// The byte that stands for zero.
pub const BYTE_ZERO: i16 = 127;

/// The largest magnitude of a sample's part.
pub const MAX_SAMPLE: i32 = 128;

// ---------------------------------------------------------------------------
// From bytes to samples
// ---------------------------------------------------------------------------

/// Byte `i` after the rotation. Eight bytes hold four samples, which are turned
/// by 0, 90, 180 and 270 degrees; an incomplete group stays as it is.
pub open spec fn rotated_byte(b: Seq<u8>, i: int) -> u8 {
    if i - i % 8 + 8 > b.len() {
        b[i]
    } else if i % 8 == 2 || i % 8 == 7 {
        (255 - b[if i % 8 == 2 {
            i + 1
        } else {
            i - 1
        }]) as u8
    } else if i % 8 == 3 {
        b[i - 1]
    } else if i % 8 == 4 || i % 8 == 5 {
        (255 - b[i]) as u8
    } else if i % 8 == 6 {
        b[i + 1]
    } else {
        b[i]
    }
}

/// All bytes after the rotation.
pub open spec fn rotated(b: Seq<u8>) -> Seq<u8> {
    Seq::new(b.len(), |i: int| rotated_byte(b, i))
}

/// Turns sample `k` by `k` quarter turns.
pub fn rotate_90(buf: &mut Vec<u8>)
    ensures
        final(buf)@ == rotated(old(buf)@),
{
    let n: usize = buf.len();
    let ghost start = buf@;
    let mut i: usize = 0;
    while i < n && n - i >= 8
        invariant
            n == buf@.len(),
            n == start.len(),
            i <= n,
            i % 8 == 0,
            forall|j: int| 0 <= j < i ==> #[trigger] buf@[j] == rotated_byte(start, j),
            forall|j: int| i <= j < n ==> #[trigger] buf@[j] == start[j],
        decreases n - i,
    {
        let a2: u8 = 255 - buf[i + 3];
        let a3: u8 = buf[i + 2];
        let a4: u8 = 255 - buf[i + 4];
        let a5: u8 = 255 - buf[i + 5];
        let a6: u8 = buf[i + 7];
        let a7: u8 = 255 - buf[i + 6];
        buf.set(i + 2, a2);
        buf.set(i + 3, a3);
        buf.set(i + 4, a4);
        buf.set(i + 5, a5);
        buf.set(i + 6, a6);
        buf.set(i + 7, a7);
        i = i + 8;
    }
    assert(buf@ =~= rotated(start));
}

/// Four quarter turns are a whole turn.
pub proof fn lemma_rotate_four_times(b: Seq<u8>)
    ensures
        rotated(rotated(rotated(rotated(b)))) == b,
{
    let b1 = rotated(b);
    let b2 = rotated(b1);
    let b3 = rotated(b2);
    assert forall|i: int| 0 <= i < b.len() implies #[trigger] rotated(b3)[i] == b[i] by {
        let g = i - i % 8;
        if g + 8 <= b.len() {
            assert(b1[i] == rotated_byte(b, i));
            assert(b2[i] == rotated_byte(b1, i));
            assert(b3[i] == rotated_byte(b2, i));
            if i % 8 == 2 || i % 8 == 6 {
                assert((i + 1) % 8 == i % 8 + 1);
                assert(b1[i + 1] == rotated_byte(b, i + 1));
                assert(b2[i + 1] == rotated_byte(b1, i + 1));
                assert(b3[i + 1] == rotated_byte(b2, i + 1));
            } else if i % 8 == 3 || i % 8 == 7 {
                assert((i - 1) % 8 == i % 8 - 1);
                assert(b1[i - 1] == rotated_byte(b, i - 1));
                assert(b2[i - 1] == rotated_byte(b1, i - 1));
                assert(b3[i - 1] == rotated_byte(b2, i - 1));
            }
        }
    }
    assert(rotated(b3) =~= b);
}

/// The sample made of two bytes.
pub open spec fn sample_of(re: u8, im: u8) -> Iq {
    Iq { re: (re - BYTE_ZERO) as i32, im: (im - BYTE_ZERO) as i32 }
}

/// The samples in a block of tuner bytes. A byte without partner is dropped.
pub open spec fn samples_of(iq: Seq<u8>, rotate: bool) -> Seq<Iq> {
    let b = if rotate {
        rotated(iq)
    } else {
        iq
    };
    Seq::new(b.len() / 2, |k: int| sample_of(b[2 * k], b[2 * k + 1]))
}

/// Pairs of numbers as samples.
pub fn bytes_to_complex(buf: &[i16]) -> (r: Vec<Iq>)
    ensures
        r@ == Seq::new(
            buf@.len() / 2,
            |k: int| Iq { re: buf@[2 * k] as i32, im: buf@[2 * k + 1] as i32 },
        ),
{
    let total: usize = buf.len();
    let n: usize = total / 2;
    let mut out: Vec<Iq> = Vec::with_capacity(n);
    let mut k: usize = 0;
    while k < n
        invariant
            total == buf@.len(),
            n == total / 2,
            k <= n,
            out@.len() == k,
            forall|j: int|
                0 <= j < k ==> #[trigger] out@[j] == (Iq {
                    re: buf@[2 * j] as i32,
                    im: buf@[2 * j + 1] as i32,
                }),
        decreases n - k,
    {
        out.push(Iq { re: buf[2 * k] as i32, im: buf[2 * k + 1] as i32 });
        k = k + 1;
    }
    assert(out@ =~= Seq::new(
        buf@.len() / 2,
        |k: int| Iq { re: buf@[2 * k] as i32, im: buf@[2 * k + 1] as i32 },
    ));
    out
}

// ---------------------------------------------------------------------------
// The stages
// ---------------------------------------------------------------------------

pub open spec fn re_parts(s: Seq<Iq>) -> Seq<int> {
    Seq::new(s.len(), |i: int| s[i].re as int)
}

pub open spec fn im_parts(s: Seq<Iq>) -> Seq<int> {
    Seq::new(s.len(), |i: int| s[i].im as int)
}

pub open spec fn as_ints(s: Seq<i32>) -> Seq<int> {
    Seq::new(s.len(), |i: int| s[i] as int)
}

/// The number of samples that are added up to one.
pub open spec fn factor(config: DemodConfig) -> int {
    if config.downsample == 0 {
        1
    } else {
        config.downsample as int
    }
}

/// What the receiver keeps between two blocks of bytes.
pub struct ReceiverState {
    pub config: DemodConfig,
    /// The number of samples in the sum that is not complete yet.
    pub pending: int,
    /// That sum.
    pub partial: Iq,
    /// The last complete sum.
    pub last: Iq,
    /// The phase of the audio decimator.
    pub audio_phase: int,
    /// The sum of the block that the audio decimator has not completed.
    pub audio_sum: int,
}

/// The sums that the samples `s` complete: the low-pass filter.
pub open spec fn low_passed(st: ReceiverState, s: Seq<Iq>) -> Seq<Iq> {
    let d = factor(st.config);
    Seq::new(
        decimate::blocks_after(st.pending, 1, d, s.len() as int) as nat,
        |k: int|
            Iq {
                re: decimate::block_sum(
                    st.partial.re as int,
                    re_parts(s),
                    st.pending,
                    1,
                    d,
                    k,
                ) as i32,
                im: decimate::block_sum(
                    st.partial.im as int,
                    im_parts(s),
                    st.pending,
                    1,
                    d,
                    k,
                ) as i32,
            },
    )
}

/// The state after the samples `s` went through the low-pass filter.
pub open spec fn after_low_pass(st: ReceiverState, s: Seq<Iq>) -> ReceiverState {
    let d = factor(st.config);
    let n = s.len() as int;
    ReceiverState {
        pending: decimate::phase_after(st.pending, 1, d, n),
        partial: Iq {
            re: decimate::rest_sum(
                st.partial.re as int,
                re_parts(s),
                st.pending,
                1,
                d,
                n,
            ) as i32,
            im: decimate::rest_sum(
                st.partial.im as int,
                im_parts(s),
                st.pending,
                1,
                d,
                n,
            ) as i32,
        },
        ..st
    }
}

/// The turn from one sample to the next by the integer approximation.
pub open spec fn turn(a: Iq, b: Iq) -> int {
    angle::fast_angle(complex::cross_im(a, b), complex::cross_re(a, b))
}

/// The turns between successive samples; the first one is given.
pub open spec fn demodulated(buf: Seq<Iq>, first: i32) -> Seq<i32> {
    Seq::new(
        buf.len(),
        |i: int|
            if i == 0 {
                first
            } else {
                turn(buf[i], buf[i - 1]) as i32
            },
    )
}

/// The state after the turns between the samples `buf` were taken.
pub open spec fn after_demod(st: ReceiverState, buf: Seq<Iq>) -> ReceiverState {
    if buf.len() == 0 {
        st
    } else {
        ReceiverState { last: buf.last(), ..st }
    }
}

/// One audio sample from the sum of its block.
pub open spec fn audio_sample(sum: int, config: DemodConfig) -> i16 {
    angle::wrap16(
        angle::trunc_div(sum, config.rate_out as int / config.rate_resample as int),
    ) as i16
}

/// The audio samples that the turns `s` complete.
pub open spec fn decimated(st: ReceiverState, s: Seq<i32>) -> Seq<i16> {
    let (slow, fast) = (st.config.rate_resample as int, st.config.rate_out as int);
    Seq::new(
        decimate::blocks_after(st.audio_phase, slow, fast, s.len() as int) as nat,
        |k: int|
            audio_sample(
                decimate::block_sum(st.audio_sum, as_ints(s), st.audio_phase, slow, fast, k),
                st.config,
            ),
    )
}

/// The state after the turns `s` went through the audio decimator.
pub open spec fn after_decimate(st: ReceiverState, s: Seq<i32>) -> ReceiverState {
    let (slow, fast) = (st.config.rate_resample as int, st.config.rate_out as int);
    let n = s.len() as int;
    ReceiverState {
        audio_phase: decimate::phase_after(st.audio_phase, slow, fast, n),
        audio_sum: decimate::rest_sum(st.audio_sum, as_ints(s), st.audio_phase, slow, fast, n),
        ..st
    }
}

/// The samples in a block of bytes after the low-pass filter.
pub open spec fn front_end(st: ReceiverState, iq: Seq<u8>) -> Seq<Iq> {
    low_passed(st, samples_of(iq, st.config.rtl_rotate))
}

/// The state after a block of bytes went through the low-pass filter.
pub open spec fn after_front_end(st: ReceiverState, iq: Seq<u8>) -> ReceiverState {
    after_low_pass(st, samples_of(iq, st.config.rtl_rotate))
}

/// `|v| <= HALF_TURN` for all turns.
pub open spec fn turns_bounded(s: Seq<i32>) -> bool {
    forall|i: int| 0 <= i < s.len() ==> -HALF_TURN <= #[trigger] s[i] <= HALF_TURN
}

/// The sum of a block of turns can be held in 32 bits.
pub open spec fn audio_fits(config: DemodConfig) -> bool {
    &&& decimate::rates_valid(config)
    &&& HALF_TURN * (config.rate_out + config.rate_resample - 1) <= i32::MAX
        * config.rate_resample
}

/// Whether the receiver can work at these rates.
pub fn is_workable(config: &DemodConfig) -> (r: bool)
    ensures
        r == (config.downsample <= MAX_DOWNSAMPLE && audio_fits(*config)),
{
    let (slow, fast) = (config.rate_resample, config.rate_out);
    decimate::are_rates_valid(config) && config.downsample <= MAX_DOWNSAMPLE && HALF_TURN as u64 * (
    fast as u64 + slow as u64 - 1) <= i32::MAX as u64 * slow as u64
}

// ---------------------------------------------------------------------------
// The receiver
// ---------------------------------------------------------------------------

/// FM receiver after `rtl_fm`: I/Q bytes to the multiplex signal, or to mono
/// audio.
pub struct RtlFmReceiver {
    config: DemodConfig,
    prev_index: usize,
    now_lpr: i32,
    prev_lpr_index: i32,
    lp_now: Iq,
    demod_pre: Iq,
}

impl View for RtlFmReceiver {
    type V = ReceiverState;

    closed spec fn view(&self) -> ReceiverState {
        ReceiverState {
            config: self.config,
            pending: self.prev_index as int,
            partial: self.lp_now,
            last: self.demod_pre,
            audio_phase: self.prev_lpr_index as int,
            audio_sum: self.now_lpr as int,
        }
    }
}

/// What holds of the state between two blocks of bytes.
pub open spec fn state_wf(st: ReceiverState) -> bool {
    &&& 0 <= st.pending < factor(st.config)
    &&& complex::within(st.partial, MAX_SAMPLE * st.pending)
    &&& complex::within(st.last, MAX_SAMPLE * factor(st.config))
    &&& audio_fits(st.config) ==> {
        &&& 0 <= st.audio_phase < st.config.rate_out
        &&& -(HALF_TURN * st.audio_phase) <= st.audio_sum * st.config.rate_resample <= HALF_TURN
            * st.audio_phase
    }
}

impl RtlFmReceiver {
    pub open spec fn wf(&self) -> bool {
        state_wf(self@)
    }

    pub fn new(config: DemodConfig) -> (r: Self)
        ensures
            r.wf(),
            r@ == (ReceiverState {
                config,
                pending: 0,
                partial: Iq { re: 0, im: 0 },
                last: Iq { re: 0, im: 0 },
                audio_phase: 0,
                audio_sum: 0,
            }),
    {
        let r = RtlFmReceiver {
            config,
            prev_index: 0,
            now_lpr: 0,
            prev_lpr_index: 0,
            lp_now: Iq { re: 0, im: 0 },
            demod_pre: Iq { re: 0, im: 0 },
        };
        assert(0 * config.rate_resample == 0) by (nonlinear_arith);
        r
    }

    /// Bytes to samples at the multiplex rate.
    pub fn downsample_complex(&mut self, iq: &[u8]) -> (r: Vec<Iq>)
        requires
            old(self).wf(),
            old(self)@.config.downsample <= MAX_DOWNSAMPLE,
        ensures
            final(self).wf(),
            r@ == front_end(old(self)@, iq@),
            final(self)@ == after_front_end(old(self)@, iq@),
            forall|k: int|
                0 <= k < r@.len() ==> complex::within(
                    #[trigger] r@[k],
                    MAX_SAMPLE * factor(old(self)@.config),
                ),
    {
        let n: usize = iq.len();
        let mut buf: Vec<u8> = Vec::with_capacity(n);
        let mut i: usize = 0;
        while i < n
            invariant
                n == iq@.len(),
                i <= n,
                buf@ == iq@.take(i as int),
            decreases n - i,
        {
            buf.push(iq[i]);
            i = i + 1;
        }
        if self.config.rtl_rotate {
            rotate_90(&mut buf);
        }
        let ghost b = if self.config.rtl_rotate {
            rotated(iq@)
        } else {
            iq@
        };
        assert(buf@ =~= b);
        let mut signed: Vec<i16> = Vec::with_capacity(n);
        let mut j: usize = 0;
        while j < n
            invariant
                n == iq@.len(),
                n == buf@.len(),
                j <= n,
                signed@.len() == j,
                forall|k: int| 0 <= k < j ==> #[trigger] signed@[k] == buf@[k] - BYTE_ZERO,
            decreases n - j,
        {
            signed.push(buf[j] as i16 - BYTE_ZERO);
            j = j + 1;
        }
        let samples: Vec<Iq> = bytes_to_complex(&signed);
        assert(samples@ =~= samples_of(iq@, self.config.rtl_rotate));
        self.low_pass_complex(samples)
    }

    /// Adds up each `downsample` samples to one.
    fn low_pass_complex(&mut self, buf: Vec<Iq>) -> (res: Vec<Iq>)
        requires
            old(self).wf(),
            old(self)@.config.downsample <= MAX_DOWNSAMPLE,
            forall|k: int|
                0 <= k < buf@.len() ==> complex::within(#[trigger] buf@[k], MAX_SAMPLE as int),
        ensures
            final(self).wf(),
            res@ == low_passed(old(self)@, buf@),
            final(self)@ == after_low_pass(old(self)@, buf@),
            forall|k: int|
                0 <= k < res@.len() ==> complex::within(
                    #[trigger] res@[k],
                    MAX_SAMPLE * factor(old(self)@.config),
                ),
    {
        let ghost st = self@;
        let ghost d = factor(st.config);
        let ghost (re, im) = (re_parts(buf@), im_parts(buf@));
        let ghost (re0, im0) = (st.partial.re as int, st.partial.im as int);
        let mut res: Vec<Iq> = Vec::new();
        let mut i: usize = 0;
        proof {
            decimate::lemma_sum_start(re0, re, st.pending, 1, d);
            decimate::lemma_sum_start(im0, im, st.pending, 1, d);
        }
        while i < buf.len()
            invariant
                i <= buf@.len(),
                d == factor(st.config),
                1 <= d <= MAX_DOWNSAMPLE,
                decimate::valid_phase(st.pending, 1, d),
                re == re_parts(buf@),
                im == im_parts(buf@),
                re0 == st.partial.re,
                im0 == st.partial.im,
                self.config == st.config,
                self.demod_pre == st.last,
                self.prev_lpr_index == st.audio_phase,
                self.now_lpr == st.audio_sum,
                self.prev_index == decimate::phase_after(st.pending, 1, d, i as int),
                self.prev_index < d,
                complex::within(self.lp_now, MAX_SAMPLE * self.prev_index),
                self.lp_now.re == decimate::rest_sum(re0, re, st.pending, 1, d, i as int),
                self.lp_now.im == decimate::rest_sum(im0, im, st.pending, 1, d, i as int),
                res@.len() == decimate::blocks_after(st.pending, 1, d, i as int),
                forall|k: int|
                    0 <= k < res@.len() ==> {
                        &&& complex::within(#[trigger] res@[k], MAX_SAMPLE * d)
                        &&& res@[k].re == decimate::block_sum(re0, re, st.pending, 1, d, k)
                        &&& res@[k].im == decimate::block_sum(im0, im, st.pending, 1, d, k)
                    },
                forall|k: int|
                    0 <= k < buf@.len() ==> complex::within(#[trigger] buf@[k], MAX_SAMPLE as int),
            decreases buf@.len() - i,
        {
            proof {
                decimate::lemma_step(st.pending, 1, d, i as int);
                decimate::lemma_sum_step(re0, re, st.pending, 1, d, i as int);
                decimate::lemma_sum_step(im0, im, st.pending, 1, d, i as int);
                assert(complex::within(buf@[i as int], MAX_SAMPLE as int));
            }
            self.lp_now = complex_add(self.lp_now, buf[i]);
            i = i + 1;
            self.prev_index = self.prev_index + 1;
            if self.prev_index >= self.config.downsample as usize {
                res.push(self.lp_now);
                self.lp_now = Iq { re: 0, im: 0 };
                self.prev_index = 0;
            }
        }
        proof {
            assert(res@ =~= low_passed(st, buf@));
        }
        res
    }

    /// The turn from the last sample of the previous block to the first sample
    /// of `buf`, as a complex number whose angle is the turn.
    pub fn first_turn(&self, buf: &Vec<Iq>) -> (c: Iq)
        requires
            self.wf(),
            self@.config.downsample <= MAX_DOWNSAMPLE,
            buf@.len() > 0,
            complex::within(buf@[0], MAX_SAMPLE * factor(self@.config)),
        ensures
            c.re == complex::cross_re(buf@[0], self@.last),
            c.im == complex::cross_im(buf@[0], self@.last),
    {
        cross(buf[0], self.demod_pre)
    }

    /// The turns between successive samples. `first` is the turn that leads to
    /// the first of them.
    pub fn fm_demod(&mut self, buf: Vec<Iq>, first: i32) -> (result: Vec<i32>)
        requires
            old(self).wf(),
            old(self)@.config.downsample <= MAX_DOWNSAMPLE,
            forall|k: int|
                0 <= k < buf@.len() ==> complex::within(
                    #[trigger] buf@[k],
                    MAX_SAMPLE * factor(old(self)@.config),
                ),
        ensures
            final(self).wf(),
            result@ == demodulated(buf@, first),
            final(self)@ == after_demod(old(self)@, buf@),
            -HALF_TURN <= first <= HALF_TURN ==> turns_bounded(result@),
    {
        if buf.len() == 0 {
            let none: Vec<i32> = Vec::new();
            assert(none@ =~= demodulated(buf@, first));
            return none;
        }
        let ghost d = factor(self@.config);
        let mut result: Vec<i32> = Vec::with_capacity(buf.len());
        result.push(first);
        let mut i: usize = 1;
        while i < buf.len()
            invariant
                1 <= i <= buf@.len(),
                1 <= d <= MAX_DOWNSAMPLE,
                forall|k: int|
                    0 <= k < buf@.len() ==> complex::within(#[trigger] buf@[k], MAX_SAMPLE * d),
                result@.len() == i,
                result@[0] == first,
                forall|k: int|
                    1 <= k < i ==> #[trigger] result@[k] == turn(buf@[k], buf@[k - 1]) && -HALF_TURN
                        <= result@[k] <= HALF_TURN,
            decreases buf@.len() - i,
        {
            assert(complex::within(buf@[i as int], MAX_SAMPLE * d));
            assert(complex::within(buf@[i - 1], MAX_SAMPLE * d));
            let pcm: i32 = polar_discriminant_fast(buf[i], buf[i - 1]);
            result.push(pcm);
            i = i + 1;
        }
        self.demod_pre = buf[buf.len() - 1];
        assert(result@ =~= demodulated(buf@, first));
        result
    }

    /// Averages the turns of each block to one audio sample.
    pub fn decimate_audio(&mut self, buf: Vec<i32>) -> (result: Vec<i16>)
        requires
            old(self).wf(),
            audio_fits(old(self)@.config),
            turns_bounded(buf@),
        ensures
            final(self).wf(),
            result@ == decimated(old(self)@, buf@),
            final(self)@ == after_decimate(old(self)@, buf@),
    {
        let ghost st = self@;
        let ghost s = as_ints(buf@);
        let slow: i32 = self.config.rate_resample as i32;
        let fast: i32 = self.config.rate_out as i32;
        proof {
            decimate::lemma_sum_start(st.audio_sum, s, st.audio_phase, slow as int, fast as int);
            vstd::arithmetic::div_mod::lemma_div_is_ordered(slow as int, fast as int, slow as int);
            vstd::arithmetic::div_mod::lemma_div_by_self(slow as int);
        }
        let ratio: i32 = fast / slow;
        let mut result: Vec<i16> = Vec::new();
        let mut i: usize = 0;
        while i < buf.len()
            invariant
                i <= buf@.len(),
                s == as_ints(buf@),
                turns_bounded(buf@),
                audio_fits(st.config),
                slow == st.config.rate_resample,
                fast == st.config.rate_out,
                ratio == fast as int / slow as int,
                ratio >= 1,
                self.config == st.config,
                self.prev_index == st.pending,
                self.lp_now == st.partial,
                self.demod_pre == st.last,
                decimate::valid_phase(st.audio_phase, slow as int, fast as int),
                self.prev_lpr_index == decimate::phase_after(
                    st.audio_phase,
                    slow as int,
                    fast as int,
                    i as int,
                ),
                0 <= self.prev_lpr_index < fast,
                self.now_lpr == decimate::rest_sum(
                    st.audio_sum,
                    s,
                    st.audio_phase,
                    slow as int,
                    fast as int,
                    i as int,
                ),
                -(HALF_TURN * self.prev_lpr_index) <= self.now_lpr * slow <= HALF_TURN
                    * self.prev_lpr_index,
                result@.len() == decimate::blocks_after(
                    st.audio_phase,
                    slow as int,
                    fast as int,
                    i as int,
                ),
                forall|k: int|
                    0 <= k < result@.len() ==> #[trigger] result@[k] == audio_sample(
                        decimate::block_sum(
                            st.audio_sum,
                            s,
                            st.audio_phase,
                            slow as int,
                            fast as int,
                            k,
                        ),
                        st.config,
                    ),
            decreases buf@.len() - i,
        {
            proof {
                decimate::lemma_step(st.audio_phase, slow as int, fast as int, i as int);
                decimate::lemma_sum_step(
                    st.audio_sum,
                    s,
                    st.audio_phase,
                    slow as int,
                    fast as int,
                    i as int,
                );
                lemma_audio_sum_fits(
                    self.now_lpr as int,
                    buf@[i as int] as int,
                    self.prev_lpr_index as int,
                    slow as int,
                    fast as int,
                );
            }
            self.now_lpr = self.now_lpr + buf[i];
            i = i + 1;
            self.prev_lpr_index = self.prev_lpr_index + slow;
            if self.prev_lpr_index >= fast {
                let q: i32 = self.now_lpr / ratio;
                result.push(low_half(q));
                self.prev_lpr_index = self.prev_lpr_index - fast;
                self.now_lpr = 0;
                assert(0 * slow == 0) by (nonlinear_arith);
            }
        }
        proof {
            assert(result@ =~= decimated(st, buf@));
        }
        result
    }

    /// The multiplex signal in a block of bytes: `HALF_TURN` stands for full
    /// scale. `angle` measures the turn across the border of two blocks: it gets
    /// the imaginary and the real part of a complex number.
    pub fn process_mpx<F: Fn(i32, i32) -> i32>(&mut self, iq: &[u8], angle: F) -> (mpx: Vec<i32>)
        requires
            old(self).wf(),
            old(self)@.config.downsample <= MAX_DOWNSAMPLE,
            forall|im: i32, re: i32| call_requires(angle, (im, re)),
        ensures
            final(self).wf(),
            final(self)@ == after_demod(
                after_front_end(old(self)@, iq@),
                front_end(old(self)@, iq@),
            ),
            front_end(old(self)@, iq@).len() == 0 ==> mpx@.len() == 0,
            front_end(old(self)@, iq@).len() > 0 ==> exists|first: i32| #[trigger]
                measured(angle, front_end(old(self)@, iq@)[0], old(self)@.last, first) && mpx@
                    == demodulated(front_end(old(self)@, iq@), first),
    {
        let lowpassed: Vec<Iq> = self.downsample_complex(iq);
        if lowpassed.len() == 0 {
            return self.fm_demod(lowpassed, 0);
        }
        let c: Iq = self.first_turn(&lowpassed);
        let first: i32 = angle(c.im, c.re);
        assert(measured(angle, lowpassed@[0], self@.last, first));
        self.fm_demod(lowpassed, first)
    }

    /// The mono audio in a block of bytes.
    pub fn process_mono_audio<F: Fn(i32, i32) -> i32>(&mut self, iq: &[u8], angle: F) -> (audio:
        Vec<i16>)
        requires
            old(self).wf(),
            old(self)@.config.downsample <= MAX_DOWNSAMPLE,
            audio_fits(old(self)@.config),
            forall|im: i32, re: i32| call_requires(angle, (im, re)),
            forall|im: i32, re: i32, r: i32|
                call_ensures(angle, (im, re), r) ==> -HALF_TURN <= r <= HALF_TURN,
        ensures
            final(self).wf(),
            front_end(old(self)@, iq@).len() == 0 ==> {
                &&& audio@.len() == 0
                &&& final(self)@ == after_front_end(old(self)@, iq@)
            },
            front_end(old(self)@, iq@).len() > 0 ==> exists|first: i32| #[trigger]
                measured(angle, front_end(old(self)@, iq@)[0], old(self)@.last, first) && ({
                    let low = front_end(old(self)@, iq@);
                    let st = after_demod(after_front_end(old(self)@, iq@), low);
                    &&& audio@ == decimated(st, demodulated(low, first))
                    &&& final(self)@ == after_decimate(st, demodulated(low, first))
                }),
    {
        let lowpassed: Vec<Iq> = self.downsample_complex(iq);
        if lowpassed.len() == 0 {
            return Vec::new();
        }
        let c: Iq = self.first_turn(&lowpassed);
        let first: i32 = angle(c.im, c.re);
        assert(measured(angle, lowpassed@[0], self@.last, first));
        let turns: Vec<i32> = self.fm_demod(lowpassed, first);
        self.decimate_audio(turns)
    }
}

/// `first` is a measurement of the turn from `b` to `a`.
pub open spec fn measured<F: Fn(i32, i32) -> i32>(angle: F, a: Iq, b: Iq, first: i32) -> bool {
    call_ensures(
        angle,
        (complex::cross_im(a, b) as i32, complex::cross_re(a, b) as i32),
        first,
    )
}

// ---------------------------------------------------------------------------
// Properties of the stages
// ---------------------------------------------------------------------------

/// The parts of a sum of samples.
proof fn lemma_parts_concat(a: Seq<Iq>, b: Seq<Iq>)
    ensures
        re_parts(a + b) == re_parts(a) + re_parts(b),
        im_parts(a + b) == im_parts(a) + im_parts(b),
{
    assert(re_parts(a + b) =~= re_parts(a) + re_parts(b));
    assert(im_parts(a + b) =~= im_parts(a) + im_parts(b));
}

/// The low-pass filter does not see where the stream is cut: two blocks give
/// the same samples and leave the same state as their concatenation.
pub proof fn lemma_low_pass_streams(st: ReceiverState, a: Seq<Iq>, b: Seq<Iq>)
    requires
        state_wf(st),
        st.config.downsample <= MAX_DOWNSAMPLE,
        forall|k: int| 0 <= k < a.len() ==> complex::within(#[trigger] a[k], MAX_SAMPLE as int),
    ensures
        low_passed(st, a + b) == low_passed(st, a) + low_passed(after_low_pass(st, a), b),
        after_low_pass(st, a + b) == after_low_pass(after_low_pass(st, a), b),
{
    let d = factor(st.config);
    let (re0, im0) = (st.partial.re as int, st.partial.im as int);
    let (n, m) = (a.len() as int, b.len() as int);
    let c = decimate::blocks_after(st.pending, 1, d, n);
    let st2 = after_low_pass(st, a);
    lemma_parts_concat(a, b);
    lemma_low_pass_rest(st, a);
    decimate::lemma_step(st.pending, 1, d, n);
    decimate::lemma_step(st2.pending, 1, d, m);
    decimate::lemma_split(st.pending, 1, d, n, m, 0);
    let whole = low_passed(st, a + b);
    let parts = low_passed(st, a) + low_passed(st2, b);
    assert forall|k: int| 0 <= k < whole.len() implies #[trigger] whole[k] == parts[k] by {
        let j = if k < c {
            k
        } else {
            k - c
        };
        decimate::lemma_sums_split(re0, re_parts(a), re_parts(b), st.pending, 1, d, j);
        decimate::lemma_sums_split(im0, im_parts(a), im_parts(b), st.pending, 1, d, j);
    }
    assert(whole =~= parts);
    decimate::lemma_sums_split(re0, re_parts(a), re_parts(b), st.pending, 1, d, 0);
    decimate::lemma_sums_split(im0, im_parts(a), im_parts(b), st.pending, 1, d, 0);
}

/// What the low-pass filter keeps is exact: it is not cut to 32 bits.
proof fn lemma_low_pass_rest(st: ReceiverState, a: Seq<Iq>)
    requires
        state_wf(st),
        st.config.downsample <= MAX_DOWNSAMPLE,
        forall|k: int| 0 <= k < a.len() ==> complex::within(#[trigger] a[k], MAX_SAMPLE as int),
    ensures
        ({
            let d = factor(st.config);
            let n = a.len() as int;
            let re = decimate::rest_sum(
                st.partial.re as int,
                re_parts(a),
                st.pending,
                1,
                d,
                n,
            );
            let im = decimate::rest_sum(
                st.partial.im as int,
                im_parts(a),
                st.pending,
                1,
                d,
                n,
            );
            let p = decimate::phase_after(st.pending, 1, d, n);
            &&& -(MAX_SAMPLE * p) <= re <= MAX_SAMPLE * p
            &&& -(MAX_SAMPLE * p) <= im <= MAX_SAMPLE * p
            &&& after_low_pass(st, a).partial.re == re
            &&& after_low_pass(st, a).partial.im == im
            &&& state_wf(after_low_pass(st, a))
        }),
{
    let d = factor(st.config);
    lemma_rest_bound(st.partial.re as int, re_parts(a), st.pending, d, a.len() as int);
    lemma_rest_bound(st.partial.im as int, im_parts(a), st.pending, d, a.len() as int);
    decimate::lemma_step(st.pending, 1, d, a.len() as int);
}

proof fn lemma_rest_bound(carry: int, s: Seq<int>, pending: int, d: int, n: int)
    requires
        decimate::valid_phase(pending, 1, d),
        -(MAX_SAMPLE * pending) <= carry <= MAX_SAMPLE * pending,
        0 <= n <= s.len(),
        forall|k: int| 0 <= k < s.len() ==> -MAX_SAMPLE <= #[trigger] s[k] <= MAX_SAMPLE,
    ensures
        ({
            let p = decimate::phase_after(pending, 1, d, n);
            -(MAX_SAMPLE * p) <= decimate::rest_sum(carry, s, pending, 1, d, n) <= MAX_SAMPLE * p
        }),
    decreases n,
{
    if n == 0 {
        decimate::lemma_sum_start(carry, s, pending, 1, d);
    } else {
        lemma_rest_bound(carry, s, pending, d, n - 1);
        decimate::lemma_step(pending, 1, d, n - 1);
        decimate::lemma_sum_step(carry, s, pending, 1, d, n - 1);
        assert(-MAX_SAMPLE <= s[n - 1] <= MAX_SAMPLE);
    }
}

/// Bytes can be cut into blocks at multiples of eight without changing the
/// samples.
pub proof fn lemma_samples_stream(a: Seq<u8>, b: Seq<u8>, rotate: bool)
    requires
        a.len() % 8 == 0,
    ensures
        samples_of(a + b, rotate) == samples_of(a, rotate) + samples_of(b, rotate),
{
    let whole = if rotate {
        rotated(a + b)
    } else {
        a + b
    };
    let parts = if rotate {
        rotated(a) + rotated(b)
    } else {
        a + b
    };
    if rotate {
        assert forall|i: int| 0 <= i < whole.len() implies #[trigger] whole[i] == parts[i] by {
            if i < a.len() {
                assert(i - i % 8 + 8 <= a.len());
            } else {
                let j = i - a.len();
                assert(j % 8 == i % 8);
            }
        }
    }
    assert(whole =~= parts);
    assert(samples_of(a + b, rotate) =~= samples_of(a, rotate) + samples_of(b, rotate));
}

/// The front end streams: bytes may arrive in blocks of any multiple of eight.
pub proof fn lemma_front_end_streams(st: ReceiverState, a: Seq<u8>, b: Seq<u8>)
    requires
        state_wf(st),
        st.config.downsample <= MAX_DOWNSAMPLE,
        a.len() % 8 == 0,
    ensures
        front_end(st, a + b) == front_end(st, a) + front_end(after_front_end(st, a), b),
        after_front_end(st, a + b) == after_front_end(after_front_end(st, a), b),
{
    lemma_samples_stream(a, b, st.config.rtl_rotate);
    lemma_low_pass_streams(
        st,
        samples_of(a, st.config.rtl_rotate),
        samples_of(b, st.config.rtl_rotate),
    );
}

/// The audio decimator streams: two blocks of turns give the same audio, and
/// leave the same state, as their concatenation.
pub proof fn lemma_decimate_streams(st: ReceiverState, a: Seq<i32>, b: Seq<i32>)
    requires
        state_wf(st),
        audio_fits(st.config),
    ensures
        decimated(st, a + b) == decimated(st, a) + decimated(after_decimate(st, a), b),
        after_decimate(st, a + b) == after_decimate(after_decimate(st, a), b),
{
    let (slow, fast) = (st.config.rate_resample as int, st.config.rate_out as int);
    let (n, m) = (a.len() as int, b.len() as int);
    let c = decimate::blocks_after(st.audio_phase, slow, fast, n);
    let st2 = after_decimate(st, a);
    assert(as_ints(a + b) =~= as_ints(a) + as_ints(b));
    decimate::lemma_step(st.audio_phase, slow, fast, n);
    decimate::lemma_step(st2.audio_phase, slow, fast, m);
    decimate::lemma_split(st.audio_phase, slow, fast, n, m, 0);
    let whole = decimated(st, a + b);
    let parts = decimated(st, a) + decimated(st2, b);
    assert forall|k: int| 0 <= k < whole.len() implies #[trigger] whole[k] == parts[k] by {
        let j = if k < c {
            k
        } else {
            k - c
        };
        decimate::lemma_sums_split(
            st.audio_sum,
            as_ints(a),
            as_ints(b),
            st.audio_phase,
            slow,
            fast,
            j,
        );
    }
    assert(whole =~= parts);
    decimate::lemma_sums_split(
        st.audio_sum,
        as_ints(a),
        as_ints(b),
        st.audio_phase,
        slow,
        fast,
        0,
    );
}

/// The demodulator streams up to the way in which the first turn of a block is
/// found: with the turn from the last sample of one block to the first of the
/// next, two blocks give the same as their concatenation.
pub proof fn lemma_demod_streams(st: ReceiverState, a: Seq<Iq>, b: Seq<Iq>, first: i32)
    requires
        a.len() > 0,
        b.len() > 0,
    ensures
        demodulated(a + b, first) == demodulated(a, first) + demodulated(
            b,
            turn(b[0], a.last()) as i32,
        ),
        after_demod(st, a + b) == after_demod(after_demod(st, a), b),
{
    assert(demodulated(a + b, first) =~= demodulated(a, first) + demodulated(
        b,
        turn(b[0], a.last()) as i32,
    ));
}

/// Every sample of the multiplex signal lies between minus and plus full scale,
/// if the measured turn does.
pub proof fn lemma_mpx_bounded(buf: Seq<Iq>, first: i32)
    requires
        -HALF_TURN <= first <= HALF_TURN,
    ensures
        turns_bounded(demodulated(buf, first)),
{
    assert forall|i: int| 0 <= i < buf.len() implies -HALF_TURN <= #[trigger] demodulated(
        buf,
        first,
    )[i] <= HALF_TURN by {
        if i > 0 {
            angle::lemma_fast_angle_range(
                complex::cross_im(buf[i], buf[i - 1]),
                complex::cross_re(buf[i], buf[i - 1]),
            );
        }
    }
}

/// The rates leave audio samples enough room: no average of a block of turns
/// leaves 16 bits.
pub open spec fn averages_fit(config: DemodConfig) -> bool {
    HALF_TURN * (config.rate_out + config.rate_resample - 1) <= i16::MAX * (config.rate_resample * (
    config.rate_out as int / config.rate_resample as int))
}

/// The rates that the settings of this library give leave enough room.
pub proof fn lemma_standard_rates(config: DemodConfig)
    requires
        config.rate_out == MPX_SAMPLE_RATE,
        config.rate_resample == AUDIO_SAMPLE_RATE,
    ensures
        audio_fits(config),
        averages_fit(config),
{
}

/// Where the rates leave enough room, an audio sample is the average of its
/// block: nothing is cut off.
pub proof fn lemma_audio_exact(st: ReceiverState, s: Seq<i32>, k: int)
    requires
        state_wf(st),
        audio_fits(st.config),
        averages_fit(st.config),
        turns_bounded(s),
        0 <= k < decimated(st, s).len(),
    ensures
        decimated(st, s)[k] == angle::trunc_div(
            decimate::block_sum(
                st.audio_sum,
                as_ints(s),
                st.audio_phase,
                st.config.rate_resample as int,
                st.config.rate_out as int,
                k,
            ),
            st.config.rate_out as int / st.config.rate_resample as int,
        ),
{
    let (slow, fast) = (st.config.rate_resample as int, st.config.rate_out as int);
    let t = as_ints(s);
    let (sum0, phase0) = (st.audio_sum, st.audio_phase);
    let end = decimate::block_end(phase0, slow, fast, k);
    let n = end - 1;
    decimate::lemma_block_nonempty(phase0, slow, fast, k);
    decimate::lemma_ends_within(phase0, slow, fast, s.len() as int, k);
    decimate::lemma_ends_within(phase0, slow, fast, n, k);
    decimate::lemma_ends_within(phase0, slow, fast, n + 1, k);
    decimate::lemma_step(phase0, slow, fast, n);
    decimate::lemma_sum_step(sum0, t, phase0, slow, fast, n);
    lemma_audio_rest_bound(st, s, n);
    let before = decimate::rest_sum(sum0, t, phase0, slow, fast, n);
    let phase = decimate::phase_after(phase0, slow, fast, n);
    lemma_audio_sum_fits(before, t[n], phase, slow, fast);
    let sum = decimate::block_sum(sum0, t, phase0, slow, fast, k);
    let ratio = fast / slow;
    vstd::arithmetic::div_mod::lemma_div_is_ordered(slow, fast, slow);
    vstd::arithmetic::div_mod::lemma_div_by_self(slow);
    assert(-(i16::MAX * ratio) <= sum <= i16::MAX * ratio) by (nonlinear_arith)
        requires
            -(HALF_TURN * (fast + slow - 1)) <= sum * slow <= HALF_TURN * (fast + slow - 1),
            HALF_TURN * (fast + slow - 1) <= i16::MAX * (slow * ratio),
            0 < slow,
    ;
    angle::lemma_trunc_div_bound(sum, ratio, i16::MAX as int);
}

/// The sum of an incomplete block of turns is bounded by the phase.
proof fn lemma_audio_rest_bound(st: ReceiverState, s: Seq<i32>, n: int)
    requires
        state_wf(st),
        audio_fits(st.config),
        turns_bounded(s),
        0 <= n <= s.len(),
    ensures
        ({
            let (slow, fast) = (st.config.rate_resample as int, st.config.rate_out as int);
            let p = decimate::phase_after(st.audio_phase, slow, fast, n);
            -(HALF_TURN * p) <= decimate::rest_sum(
                st.audio_sum,
                as_ints(s),
                st.audio_phase,
                slow,
                fast,
                n,
            ) * slow <= HALF_TURN * p
        }),
    decreases n,
{
    let (slow, fast) = (st.config.rate_resample as int, st.config.rate_out as int);
    let t = as_ints(s);
    if n == 0 {
        decimate::lemma_sum_start(st.audio_sum, t, st.audio_phase, slow, fast);
    } else {
        lemma_audio_rest_bound(st, s, n - 1);
        decimate::lemma_step(st.audio_phase, slow, fast, n - 1);
        decimate::lemma_sum_step(st.audio_sum, t, st.audio_phase, slow, fast, n - 1);
        lemma_audio_sum_fits(
            decimate::rest_sum(st.audio_sum, t, st.audio_phase, slow, fast, n - 1),
            t[n - 1],
            decimate::phase_after(st.audio_phase, slow, fast, n - 1),
            slow,
            fast,
        );
        assert(0 * slow == 0) by (nonlinear_arith);
    }
}

/// One more turn keeps the sum of a block within its bound, and within 32 bits.
proof fn lemma_audio_sum_fits(sum: int, turn: int, phase: int, slow: int, fast: int)
    requires
        -(HALF_TURN * phase) <= sum * slow <= HALF_TURN * phase,
        -HALF_TURN <= turn <= HALF_TURN,
        0 <= phase < fast,
        0 < slow,
        HALF_TURN * (fast + slow - 1) <= i32::MAX * slow,
    ensures
        -(HALF_TURN * (phase + slow)) <= (sum + turn) * slow <= HALF_TURN * (phase + slow),
        -i32::MAX <= sum + turn <= i32::MAX,
{
    assert((sum + turn) * slow == sum * slow + turn * slow) by (nonlinear_arith);
    assert(-(HALF_TURN * slow) <= turn * slow <= HALF_TURN * slow) by (nonlinear_arith)
        requires
            -HALF_TURN <= turn <= HALF_TURN,
            0 < slow,
    ;
    let total = sum + turn;
    assert(total <= i32::MAX) by (nonlinear_arith)
        requires
            total * slow <= i32::MAX * slow,
            0 < slow,
    ;
    assert(total >= -i32::MAX) by (nonlinear_arith)
        requires
            total * slow >= -(i32::MAX * slow),
            0 < slow,
    ;
}

// ---------------------------------------------------------------------------
// What the stages do
// ---------------------------------------------------------------------------

/// The rotation turns sample `k` of each group of four by `k` quarter turns. A
/// byte `b` stands for the value `2 * b - 255`, which takes the other sign in
/// `255 - b`. Bytes of an incomplete group stay.
pub proof fn lemma_rotation_turns(b: Seq<u8>, g: int)
    requires
        0 <= g,
        g % 8 == 0,
    ensures
        rotated(b).len() == b.len(),
        g + 8 <= b.len() ==> {
            let r = rotated(b);
            let v = |i: int| 2 * r[g + i] - 255;
            let w = |i: int| 2 * b[g + i] - 255;
            &&& v(0) == w(0) && v(1) == w(1)
            &&& v(2) == -w(3) && v(3) == w(2)
            &&& v(4) == -w(4) && v(5) == -w(5)
            &&& v(6) == w(7) && v(7) == -w(6)
        },
        g + 8 > b.len() ==> forall|i: int| g <= i < b.len() ==> rotated(b)[i] == b[i],
{
    if g + 8 <= b.len() {
        assert forall|i: int| 0 <= i < 8 implies #[trigger] ((g + i) % 8) == i by {}
        assert(g % 8 == 0);
        assert((g + 1) % 8 == 1);
        assert((g + 2) % 8 == 2);
        assert((g + 3) % 8 == 3);
        assert((g + 4) % 8 == 4);
        assert((g + 5) % 8 == 5);
        assert((g + 6) % 8 == 6);
        assert((g + 7) % 8 == 7);
    }
}

/// A sample is made of two neighbouring bytes, of which 127 stands for zero. With
/// rotation the bytes are the rotated ones. No whole pair is lost.
pub proof fn lemma_samples_from_bytes(iq: Seq<u8>, rotate: bool, k: int)
    ensures
        samples_of(iq, rotate).len() == iq.len() / 2,
        0 <= k < iq.len() / 2 ==> {
            let b = if rotate {
                rotated(iq)
            } else {
                iq
            };
            &&& samples_of(iq, rotate)[k].re == b[2 * k] - 127
            &&& samples_of(iq, rotate)[k].im == b[2 * k + 1] - 127
        },
{
}

/// One more sample is added to the sum that waits, part by part. The sum goes out
/// when it is made of as many samples as the downsampling factor says, and the
/// next one starts at zero. Nothing else of the state changes.
pub proof fn lemma_low_pass_one_sample(st: ReceiverState, x: Iq)
    requires
        state_wf(st),
        st.config.downsample <= 255,
        -128 <= x.re <= 128,
        -128 <= x.im <= 128,
    ensures
        ({
            let out = low_passed(st, seq![x]);
            let after = after_low_pass(st, seq![x]);
            &&& after.config == st.config
            &&& after.last == st.last
            &&& after.audio_phase == st.audio_phase
            &&& after.audio_sum == st.audio_sum
            &&& if st.pending + 1 < st.config.downsample {
                &&& out.len() == 0
                &&& after.pending == st.pending + 1
                &&& after.partial.re == st.partial.re + x.re
                &&& after.partial.im == st.partial.im + x.im
            } else {
                &&& out.len() == 1
                &&& out[0].re == st.partial.re + x.re
                &&& out[0].im == st.partial.im + x.im
                &&& after.pending == 0
                &&& after.partial.re == 0
                &&& after.partial.im == 0
            }
        }),
{
    let d = factor(st.config);
    let s = seq![x];
    let (re, im) = (re_parts(s), im_parts(s));
    let (re0, im0) = (st.partial.re as int, st.partial.im as int);
    decimate::lemma_sum_start(re0, re, st.pending, 1, d);
    decimate::lemma_sum_start(im0, im, st.pending, 1, d);
    decimate::lemma_step(st.pending, 1, d, 0);
    decimate::lemma_sum_step(re0, re, st.pending, 1, d, 0);
    decimate::lemma_sum_step(im0, im, st.pending, 1, d, 0);
    assert(re[0] == x.re && im[0] == x.im);
}

/// Without samples nothing goes out and nothing changes.
pub proof fn lemma_low_pass_nothing(st: ReceiverState)
    requires
        state_wf(st),
    ensures
        low_passed(st, Seq::empty()).len() == 0,
        after_low_pass(st, Seq::empty()) == st,
{
    let d = factor(st.config);
    let none = Seq::<Iq>::empty();
    decimate::lemma_sum_start(st.partial.re as int, re_parts(none), st.pending, 1, d);
    decimate::lemma_sum_start(st.partial.im as int, im_parts(none), st.pending, 1, d);
}

/// A sample turned by a quarter turn.
pub open spec fn quarter(x: Iq) -> Iq {
    Iq { re: (-x.im) as i32, im: x.re }
}

/// The low-pass filter keeps what belongs together: turning all that goes in by a
/// quarter turn turns all that comes out by a quarter turn.
pub proof fn lemma_low_pass_turns(st: ReceiverState, turned: ReceiverState, s: Seq<Iq>, t: Seq<Iq>)
    requires
        state_wf(st),
        st.config.downsample <= 255,
        turned == (ReceiverState { partial: quarter(st.partial), ..st }),
        t.len() == s.len(),
        forall|i: int| 0 <= i < s.len() ==> complex::within(#[trigger] s[i], 128),
        forall|i: int| 0 <= i < s.len() ==> #[trigger] t[i] == quarter(s[i]),
    ensures
        low_passed(turned, t).len() == low_passed(st, s).len(),
        forall|k: int|
            0 <= k < low_passed(st, s).len() ==> #[trigger] low_passed(turned, t)[k] == quarter(
                low_passed(st, s)[k],
            ),
        after_low_pass(turned, t) == (ReceiverState {
            partial: quarter(after_low_pass(st, s).partial),
            ..after_low_pass(st, s)
        }),
    decreases s.len(),
{
    lemma_max_sum(st);
    if s.len() == 0 {
        assert(s =~= Seq::empty());
        assert(t =~= Seq::empty());
        lemma_low_pass_nothing(st);
        lemma_low_pass_nothing(turned);
    } else {
        let (a, x) = (s.drop_last(), s.last());
        let (b, y) = (t.drop_last(), t.last());
        assert(s =~= a + seq![x]);
        assert(t =~= b + seq![y]);
        assert(complex::within(s[s.len() - 1], 128));
        assert(t[t.len() - 1] == quarter(s[s.len() - 1]));
        assert forall|i: int| 0 <= i < a.len() implies complex::within(#[trigger] a[i], 128) by {
            assert(complex::within(s[i], 128));
        }
        assert forall|i: int| 0 <= i < b.len() implies #[trigger] b[i] == quarter(a[i]) by {
            assert(t[i] == quarter(s[i]));
        }
        assert forall|i: int| 0 <= i < b.len() implies complex::within(#[trigger] b[i], 128) by {
            assert(complex::within(a[i], 128));
        }
        lemma_low_pass_turns(st, turned, a, b);
        lemma_low_pass_streams(st, a, seq![x]);
        lemma_low_pass_streams(turned, b, seq![y]);
        lemma_low_pass_rest(st, a);
        lemma_low_pass_rest(turned, b);
        let (st2, turned2) = (after_low_pass(st, a), after_low_pass(turned, b));
        lemma_low_pass_one_sample(st2, x);
        lemma_low_pass_one_sample(turned2, y);
        lemma_max_sum(st2);
        let (low, low_turned) = (low_passed(st, a), low_passed(turned, b));
        let (one, one_turned) = (low_passed(st2, seq![x]), low_passed(turned2, seq![y]));
        assert forall|k: int| 0 <= k < low_passed(st, s).len() implies #[trigger] low_passed(
            turned,
            t,
        )[k] == quarter(low_passed(st, s)[k]) by {
            if k < low.len() {
                assert(low_turned[k] == quarter(low[k]));
            } else {
                assert(low_passed(st, s)[k] == one[k - low.len()]);
                assert(low_passed(turned, t)[k] == one_turned[k - low.len()]);
            }
        }
    }
}

/// The sum that waits is far from the ends of 32 bits.
proof fn lemma_max_sum(st: ReceiverState)
    requires
        state_wf(st),
        st.config.downsample <= 255,
    ensures
        complex::within(st.partial, 32640),
{
}

/// Samples without quadrature part come out without quadrature part.
pub proof fn lemma_low_pass_keeps_real(st: ReceiverState, s: Seq<Iq>, k: int)
    requires
        state_wf(st),
        st.config.downsample <= 255,
        st.partial.im == 0,
        forall|i: int| 0 <= i < s.len() ==> -128 <= (#[trigger] s[i]).re <= 128 && s[i].im == 0,
        0 <= k < low_passed(st, s).len(),
    ensures
        low_passed(st, s)[k].im == 0,
    decreases s.len(),
{
    if s.len() == 0 {
        assert(s =~= Seq::empty());
        lemma_low_pass_nothing(st);
    } else {
        let (a, x) = (s.drop_last(), s.last());
        assert(s =~= a + seq![x]);
        assert(s[s.len() - 1].im == 0);
        assert forall|i: int| 0 <= i < a.len() implies -128 <= (#[trigger] a[i]).re <= 128
            && a[i].im == 0 by {
            assert(s[i].im == 0);
        }
        assert forall|i: int| 0 <= i < a.len() implies complex::within(#[trigger] a[i], 128) by {
            assert(a[i].im == 0);
        }
        lemma_low_pass_streams(st, a, seq![x]);
        lemma_low_pass_rest(st, a);
        lemma_real_rest(st, a);
        lemma_low_pass_one_sample(after_low_pass(st, a), x);
        if k < low_passed(st, a).len() {
            lemma_low_pass_keeps_real(st, a, k);
        }
    }
}

proof fn lemma_real_rest(st: ReceiverState, s: Seq<Iq>)
    requires
        state_wf(st),
        st.config.downsample <= 255,
        st.partial.im == 0,
        forall|i: int| 0 <= i < s.len() ==> -128 <= (#[trigger] s[i]).re <= 128 && s[i].im == 0,
    ensures
        after_low_pass(st, s).partial.im == 0,
    decreases s.len(),
{
    if s.len() == 0 {
        assert(s =~= Seq::empty());
        lemma_low_pass_nothing(st);
    } else {
        let (a, x) = (s.drop_last(), s.last());
        assert(s =~= a + seq![x]);
        assert(s[s.len() - 1].im == 0);
        assert forall|i: int| 0 <= i < a.len() implies -128 <= (#[trigger] a[i]).re <= 128
            && a[i].im == 0 by {
            assert(s[i].im == 0);
        }
        assert forall|i: int| 0 <= i < a.len() implies complex::within(#[trigger] a[i], 128) by {
            assert(a[i].im == 0);
        }
        lemma_low_pass_streams(st, a, seq![x]);
        lemma_low_pass_rest(st, a);
        lemma_real_rest(st, a);
        lemma_low_pass_one_sample(after_low_pass(st, a), x);
    }
}

/// What bytes give after the low-pass filter is what their samples give: those of
/// `lemma_samples_from_bytes`, all of them, in their order.
pub proof fn lemma_front_end_filters(st: ReceiverState, iq: Seq<u8>, x: Seq<Iq>)
    requires
        x.len() == iq.len() / 2,
        forall|k: int|
            0 <= k < x.len() ==> {
                let b = if st.config.rtl_rotate {
                    rotated(iq)
                } else {
                    iq
                };
                (#[trigger] x[k]).re == b[2 * k] - 127 && x[k].im == b[2 * k + 1] - 127
            },
    ensures
        front_end(st, iq) == low_passed(st, x),
        after_front_end(st, iq) == after_low_pass(st, x),
{
    assert(x =~= samples_of(iq, st.config.rtl_rotate));
}

/// There is one turn for each sample. The first is the measured one, each other
/// one leads from the sample before to its sample.
pub proof fn lemma_demodulated_turns(st: ReceiverState, buf: Seq<Iq>, first: i32, i: int)
    requires
        0 <= i < buf.len(),
    ensures
        demodulated(buf, first).len() == buf.len(),
        demodulated(buf, first)[0] == first,
        i > 0 ==> demodulated(buf, first)[i] == angle::fast_angle(
            buf[i].im * buf[i - 1].re - buf[i].re * buf[i - 1].im,
            buf[i].re * buf[i - 1].re + buf[i].im * buf[i - 1].im,
        ),
        after_demod(st, buf) == (ReceiverState { last: buf[buf.len() - 1], ..st }),
{
    if i > 0 {
        angle::lemma_fast_angle_range(
            complex::cross_im(buf[i], buf[i - 1]),
            complex::cross_re(buf[i], buf[i - 1]),
        );
    }
}

/// Going back turns the other way.
pub proof fn lemma_turn_back(a: Iq, b: Iq)
    requires
        a.im * b.re != a.re * b.im,
    ensures
        turn(b, a) == -turn(a, b),
{
    let (y, x) = (complex::cross_im(a, b), complex::cross_re(a, b));
    assert(complex::cross_im(b, a) == -y) by (nonlinear_arith)
        requires
            complex::cross_im(b, a) == b.im * a.re - b.re * a.im,
            y == a.im * b.re - a.re * b.im,
    ;
    assert(complex::cross_re(b, a) == x) by (nonlinear_arith)
        requires
            complex::cross_re(b, a) == b.re * a.re + b.im * a.im,
            x == a.re * b.re + a.im * b.im,
    ;
    angle::lemma_fast_angle_odd(y, x);
}

/// A sample that was turned by a quarter turn is seen as a quarter turn, one that
/// was not turned as none, whatever its direction. The square of its length has
/// to leave room for the scaled difference.
pub proof fn lemma_turn_of_quarter(b: Iq)
    requires
        b.im != i32::MIN,
        0 < b.re * b.re + b.im * b.im < 524_288,
    ensures
        turn(quarter(b), b) == 8192,
        turn(b, quarter(b)) == -8192,
        turn(b, b) == 0,
{
    let q = quarter(b);
    let n = b.re * b.re + b.im * b.im;
    assert(complex::cross_im(q, b) == n && complex::cross_re(q, b) == 0 && complex::cross_im(b, q)
        == -n && complex::cross_re(b, q) == 0 && complex::cross_im(b, b) == 0 && complex::cross_re(
        b,
        b,
    ) == n) by (nonlinear_arith)
        requires
            q.re == -b.im,
            q.im == b.re,
            n == b.re * b.re + b.im * b.im,
            complex::cross_im(q, b) == q.im * b.re - q.re * b.im,
            complex::cross_re(q, b) == q.re * b.re + q.im * b.im,
            complex::cross_im(b, q) == b.im * q.re - b.re * q.im,
            complex::cross_re(b, q) == b.re * q.re + b.im * q.im,
            complex::cross_im(b, b) == b.im * b.re - b.re * b.im,
            complex::cross_re(b, b) == b.re * b.re + b.im * b.im,
    ;
    angle::lemma_fast_angle_ratio(n, 0);
    angle::lemma_fast_angle_ratio(0, n);
    angle::lemma_fast_angle_odd(n, 0);
    let (up, flat) = (angle::fast_angle(n, 0), angle::fast_angle(0, n));
    assert(up == 8192) by (nonlinear_arith)
        requires
            -n < up * n - 8192 * n < n,
            n > 0,
    ;
    assert(flat == 0) by (nonlinear_arith)
        requires
            -n < flat * n < n,
            n > 0,
    ;
}

/// What is measured is the angle of the product with the conjugate: first its
/// imaginary, then its real part.
pub proof fn lemma_measured<F: Fn(i32, i32) -> i32>(angle: F, a: Iq, b: Iq, first: i32)
    ensures
        measured(angle, a, b, first) == call_ensures(
            angle,
            ((a.im * b.re - a.re * b.im) as i32, (a.re * b.re + a.im * b.im) as i32),
            first,
        ),
{
}

/// One more turn is added to the sum of its block. An audio sample goes out when
/// the phase, which each turn moves by the audio rate, reaches the multiplex rate:
/// the sum divided by the ratio of the rates, rounded towards zero and kept to 16
/// bits. Nothing else of the state changes.
pub proof fn lemma_decimate_one_turn(st: ReceiverState, t: i32)
    requires
        state_wf(st),
        audio_fits(st.config),
    ensures
        ({
            let (slow, fast) = (st.config.rate_resample as int, st.config.rate_out as int);
            let out = decimated(st, seq![t]);
            let after = after_decimate(st, seq![t]);
            let sum = st.audio_sum + t;
            let ratio = fast / slow;
            &&& after.config == st.config
            &&& after.pending == st.pending
            &&& after.partial == st.partial
            &&& after.last == st.last
            &&& if st.audio_phase + slow < fast {
                &&& out.len() == 0
                &&& after.audio_phase == st.audio_phase + slow
                &&& after.audio_sum == sum
            } else {
                &&& out.len() == 1
                &&& after.audio_phase == st.audio_phase + slow - fast
                &&& after.audio_sum == 0
                &&& exists|q: int|
                    #![trigger q * ratio]
                    {
                        &&& (q - out[0]) % 65536 == 0
                        &&& sum >= 0 ==> 0 <= sum - q * ratio < ratio
                        &&& sum < 0 ==> -ratio < sum - q * ratio <= 0
                    }
            }
        }),
{
    let (slow, fast) = (st.config.rate_resample as int, st.config.rate_out as int);
    let s = as_ints(seq![t]);
    decimate::lemma_sum_start(st.audio_sum, s, st.audio_phase, slow, fast);
    decimate::lemma_step(st.audio_phase, slow, fast, 0);
    decimate::lemma_sum_step(st.audio_sum, s, st.audio_phase, slow, fast, 0);
    assert(s[0] == t);
    vstd::arithmetic::div_mod::lemma_div_is_ordered(slow, fast, slow);
    vstd::arithmetic::div_mod::lemma_div_by_self(slow);
    if st.audio_phase + slow >= fast {
        let sum = st.audio_sum + t;
        let ratio = fast / slow;
        let q = angle::trunc_div(sum, ratio);
        angle::lemma_trunc_div(sum, ratio);
        angle::lemma_wrap16(q);
        assert(decimated(st, seq![t])[0] == angle::wrap16(q));
        assert((q - decimated(st, seq![t])[0]) % 65536 == 0);
        assert(sum >= 0 ==> 0 <= sum - q * ratio < ratio);
    }
}

/// The low 16 bits of `v`.
fn low_half(v: i32) -> (r: i16)
    ensures
        r == angle::wrap16(v as int),
{
    let r: i64 = (v as i64 + 0x8000_8000) % 0x1_0000 - 0x8000;
    r as i16
}

/// The turn from `b` to `a` by the integer approximation.
fn polar_discriminant_fast(a: Iq, b: Iq) -> (r: i32)
    requires
        complex::within(a, complex::max_part()),
        complex::within(b, complex::max_part()),
    ensures
        r == turn(a, b),
        -HALF_TURN <= r <= HALF_TURN,
{
    let c: Iq = cross(a, b);
    proof {
        complex::lemma_cross_bounds(a, b, complex::max_part());
        assert(complex::max_part() * complex::max_part() == 1073676289) by (nonlinear_arith);
    }
    fast_atan2(c.im, c.re)
}

/// The receiver works at all rates that the decimators take and at which the longest
/// block of turns, each of them half a turn at most, can be added up in 32 bits. It
/// adds up samples in groups of the downsampling factor, or singly without one.
pub proof fn lemma_workable(config: DemodConfig)
    ensures
        audio_fits(config) <==> {
            &&& 1 <= config.rate_resample <= config.rate_out
            &&& config.rate_resample + config.rate_out <= 0x8000_0000
            &&& 16_384 * (config.rate_out + config.rate_resample - 1) <= 0x7fff_ffff
                * config.rate_resample
        },
        config.downsample == 0 ==> factor(config) == 1,
        config.downsample > 0 ==> factor(config) == config.downsample,
        MAX_DOWNSAMPLE == 255,
{
}

/// The multiplex signal has one turn for each sum of the low-pass filter: the first is
/// measured from the last sum of the block before, the others lead from each sum to
/// the next.
pub proof fn lemma_multiplexed<F: Fn(i32, i32) -> i32>(
    iq: &[u8],
    angle: F,
    mpx: Vec<i32>,
    i: int,
)
    requires
        0 <= i < mpx@.len(),
    ensures
        forall|s: &mut RtlFmReceiver| #[trigger]
            call_ensures(RtlFmReceiver::process_mpx::<F>, (s, iq, angle), mpx) ==> {
                let low = front_end((*s)@, iq@);
                &&& mpx@.len() == low.len()
                &&& i == 0 ==> measured(angle, low[0], (*s)@.last, mpx@[0])
                &&& i > 0 ==> mpx@[i] == turn(low[i], low[i - 1]) as i32
                &&& (*final(s))@.last == low.last()
                &&& (*final(s))@.config == (*s)@.config
            },
{
}

} // verus!
