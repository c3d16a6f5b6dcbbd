//! FM demodulation in integer arithmetic, after the `rtl_fm` algorithm.

use vstd::prelude::*;

verus! {

/// Rate of the multiplex signal that the discriminator delivers, in Hz.
pub const MPX_SAMPLE_RATE: u32 = 170_000;

/// Rate of the demodulated audio, in Hz.
pub const AUDIO_SAMPLE_RATE: u32 = 48_000;

/// The tuner is sampled at the first multiple of the multiplex rate above this
/// rate, in Hz.
pub const MIN_CAPTURE_RATE: u32 = 1_000_000;

/// Downsampling factors that are tried against the rates of a tuner.
pub const MAX_RATE_DIVISOR: u32 = 32;

/// What the tuner is set to.
#[derive(Clone, Copy, Debug, PartialEq, Eq, Structural)]
pub struct RadioConfig {
    pub capture_freq: u32,
    pub capture_rate: u32,
}

/// What the demodulator is set to.
#[derive(Clone, Copy, Debug, PartialEq, Eq, Structural)]
pub struct DemodConfig {
    pub downsample: u32,
    pub rate_out: u32,
    pub rate_resample: u32,
    /// RTL dongles deliver I/Q with an offset that `rotate_90` takes out; native
    /// I/Q sources do not.
    pub rtl_rotate: bool,
}

/// The factor between the capture rate and the multiplex rate.
pub open spec fn capture_factor(mpx_rate: int) -> int {
    MIN_CAPTURE_RATE as int / mpx_rate + 1
}

/// The rate at which an RTL dongle is sampled for a multiplex rate.
pub open spec fn capture_rate_for(mpx_rate: int) -> int {
    capture_factor(mpx_rate) * mpx_rate
}

/// The settings of an RTL dongle for a station can be held in 32 bits.
pub open spec fn settings_fit(freq_hz: int, mpx_rate: int) -> bool {
    &&& mpx_rate > 0
    &&& capture_rate_for(mpx_rate) <= u32::MAX
    &&& freq_hz + capture_rate_for(mpx_rate) / 4 <= u32::MAX
}

/// The settings of an RTL dongle: it is tuned a quarter of its sample rate above
/// the station.
pub open spec fn is_offset(freq_hz: u32, mpx_rate: u32, r: (RadioConfig, DemodConfig)) -> bool {
    &&& r.0.capture_rate == capture_rate_for(mpx_rate as int)
    &&& r.0.capture_freq == freq_hz + capture_rate_for(mpx_rate as int) / 4
    &&& r.1.downsample == capture_factor(mpx_rate as int)
    &&& r.1.rate_out == mpx_rate
    &&& r.1.rate_resample == AUDIO_SAMPLE_RATE
    &&& r.1.rtl_rotate
}

/// The settings of a source with samples centred on the station.
pub open spec fn is_centered(freq_hz: u32, mpx_rate: u32, r: (RadioConfig, DemodConfig)) -> bool {
    &&& r.0.capture_rate == capture_rate_for(mpx_rate as int)
    &&& r.0.capture_freq == freq_hz
    &&& r.1.downsample == capture_factor(mpx_rate as int)
    &&& r.1.rate_out == mpx_rate
    &&& r.1.rate_resample == AUDIO_SAMPLE_RATE
    &&& !r.1.rtl_rotate
}

/// Settings of an RTL dongle.
pub fn optimal_settings(freq_hz: u32, mpx_rate: u32) -> (r: (RadioConfig, DemodConfig))
    requires
        settings_fit(freq_hz as int, mpx_rate as int),
    ensures
        is_offset(freq_hz, mpx_rate, r),
{
    proof {
        lemma_capture_rate(mpx_rate as int);
    }
    let downsample: u32 = MIN_CAPTURE_RATE / mpx_rate + 1;
    let capture_rate: u32 = downsample * mpx_rate;
    let capture_freq: u32 = freq_hz + capture_rate / 4;
    (
        RadioConfig { capture_freq, capture_rate },
        DemodConfig {
            downsample,
            rate_out: mpx_rate,
            rate_resample: AUDIO_SAMPLE_RATE,
            rtl_rotate: true,
        },
    )
}

/// The capture rate is the first multiple of the multiplex rate above
/// `MIN_CAPTURE_RATE`.
pub proof fn lemma_capture_rate(mpx_rate: int)
    requires
        mpx_rate > 0,
    ensures
        1 <= capture_factor(mpx_rate) <= MIN_CAPTURE_RATE + 1,
        MIN_CAPTURE_RATE < capture_rate_for(mpx_rate) <= MIN_CAPTURE_RATE + mpx_rate,
        capture_rate_for(mpx_rate) % mpx_rate == 0,
{
    let q = MIN_CAPTURE_RATE as int / mpx_rate;
    vstd::arithmetic::div_mod::lemma_fundamental_div_mod(MIN_CAPTURE_RATE as int, mpx_rate);
    vstd::arithmetic::div_mod::lemma_mod_bound(MIN_CAPTURE_RATE as int, mpx_rate);
    vstd::arithmetic::div_mod::lemma_div_pos_is_pos(MIN_CAPTURE_RATE as int, mpx_rate);
    vstd::arithmetic::div_mod::lemma_div_is_ordered_by_denominator(
        MIN_CAPTURE_RATE as int,
        1,
        mpx_rate,
    );
    assert((q + 1) * mpx_rate == mpx_rate * q + mpx_rate) by (nonlinear_arith);
    vstd::arithmetic::div_mod::lemma_mod_multiples_basic(q + 1, mpx_rate);
}

/// Settings of a source that delivers complex samples centred on the station.
pub fn centered_iq_settings(freq_hz: u32, mpx_rate: u32) -> (r: (RadioConfig, DemodConfig))
    requires
        settings_fit(freq_hz as int, mpx_rate as int),
    ensures
        is_centered(freq_hz, mpx_rate, r),
{
    let (mut radio, mut demod) = optimal_settings(freq_hz, mpx_rate);
    radio.capture_freq = freq_hz;
    demod.rtl_rotate = false;
    (radio, demod)
}

/// How far the rate `rate / divisor` lies from the wanted one.
pub open spec fn rate_error(rate: int, divisor: int, mpx_rate: int) -> int {
    let out = rate / divisor;
    if out < mpx_rate {
        mpx_rate - out
    } else {
        out - mpx_rate
    }
}

/// `i` is the place of a supported rate and `d` a divisor that is tried.
pub open spec fn is_candidate(supported: Seq<u32>, i: int, d: int) -> bool {
    0 <= i < supported.len() && 1 <= d <= MAX_RATE_DIVISOR
}

/// Candidates are taken rate by rate, and for one rate by growing divisor.
pub open spec fn is_earlier(j: int, e: int, i: int, d: int) -> bool {
    j < i || (j == i && e < d)
}

/// The first candidate that comes closest to the wanted rate.
pub open spec fn is_first_closest(supported: Seq<u32>, mpx_rate: int, i: int, d: int) -> bool {
    &&& is_candidate(supported, i, d)
    &&& forall|j: int, e: int| #[trigger]
        is_candidate(supported, j, e) ==> rate_error(supported[i] as int, d, mpx_rate)
            <= rate_error(supported[j] as int, e, mpx_rate)
    &&& forall|j: int, e: int| #[trigger]
        is_candidate(supported, j, e) && is_earlier(j, e, i, d) ==> rate_error(
            supported[i] as int,
            d,
            mpx_rate,
        ) < rate_error(supported[j] as int, e, mpx_rate)
}

/// The settings of a source with samples centred on the station and a given list
/// of sample rates.
pub open spec fn is_closest(
    freq_hz: u32,
    mpx_rate: u32,
    supported: Seq<u32>,
    r: (RadioConfig, DemodConfig),
) -> bool {
    if supported.len() == 0 {
        is_centered(freq_hz, mpx_rate, r)
    } else {
        &&& r.0.capture_freq == freq_hz
        &&& exists|i: int|
            supported[i] == r.0.capture_rate && #[trigger] is_first_closest(
                supported,
                mpx_rate as int,
                i,
                r.1.downsample as int,
            )
        &&& r.1.rate_out == r.0.capture_rate as int / r.1.downsample as int
        &&& r.1.rate_resample == AUDIO_SAMPLE_RATE
        &&& !r.1.rtl_rotate
    }
}

/// The rates leave no choice: there is one setting for a station and a list of
/// rates.
pub proof fn lemma_closest_unique(
    freq_hz: u32,
    mpx_rate: u32,
    supported: Seq<u32>,
    r: (RadioConfig, DemodConfig),
    s: (RadioConfig, DemodConfig),
)
    requires
        is_closest(freq_hz, mpx_rate, supported, r),
        is_closest(freq_hz, mpx_rate, supported, s),
    ensures
        r == s,
{
    if supported.len() > 0 {
        let i = choose|i: int|
            supported[i] == r.0.capture_rate && #[trigger] is_first_closest(
                supported,
                mpx_rate as int,
                i,
                r.1.downsample as int,
            );
        let j = choose|j: int|
            supported[j] == s.0.capture_rate && #[trigger] is_first_closest(
                supported,
                mpx_rate as int,
                j,
                s.1.downsample as int,
            );
        assert(is_candidate(supported, i, r.1.downsample as int));
        assert(is_candidate(supported, j, s.1.downsample as int));
    }
}

/// No rate of the list and no divisor come closer to the wanted rate than the
/// chosen ones, and the chosen rate is one of the list.
pub proof fn lemma_closest_is_best(
    freq_hz: u32,
    mpx_rate: u32,
    supported: Seq<u32>,
    r: (RadioConfig, DemodConfig),
    j: int,
    d: int,
)
    requires
        is_closest(freq_hz, mpx_rate, supported, r),
        is_candidate(supported, j, d),
    ensures
        supported.contains(r.0.capture_rate),
        1 <= r.1.downsample <= MAX_RATE_DIVISOR,
        rate_error(r.0.capture_rate as int, r.1.downsample as int, mpx_rate as int) <= rate_error(
            supported[j] as int,
            d,
            mpx_rate as int,
        ),
{
}

/// The settings of an RTL dongle: the capture rate is the first multiple of the
/// multiplex rate above 1 MHz and is divided down to it again; the dongle is tuned
/// a quarter of the capture rate above the station; audio has 48 kHz.
pub proof fn lemma_offset_settings(freq_hz: u32, mpx_rate: u32, r: (RadioConfig, DemodConfig))
    requires
        mpx_rate > 0,
        is_offset(freq_hz, mpx_rate, r),
    ensures
        r.0.capture_rate == r.1.downsample * mpx_rate,
        r.0.capture_rate - mpx_rate <= 1_000_000 < r.0.capture_rate,
        4 * (r.0.capture_freq - freq_hz) <= r.0.capture_rate < 4 * (r.0.capture_freq - freq_hz) + 4,
        r.1.rate_out == mpx_rate,
        r.1.rate_resample == 48_000,
        r.1.rtl_rotate,
{
    lemma_capture_rate(mpx_rate as int);
}

/// The settings of a source with samples centred on the station: those of a
/// dongle, but tuned to the station itself and without rotation.
pub proof fn lemma_centered_settings(freq_hz: u32, mpx_rate: u32, r: (RadioConfig, DemodConfig))
    requires
        mpx_rate > 0,
        is_centered(freq_hz, mpx_rate, r),
    ensures
        r.0.capture_rate == r.1.downsample * mpx_rate,
        r.0.capture_rate - mpx_rate <= 1_000_000 < r.0.capture_rate,
        r.0.capture_freq == freq_hz,
        r.1.rate_out == mpx_rate,
        r.1.rate_resample == 48_000,
        !r.1.rtl_rotate,
{
    lemma_capture_rate(mpx_rate as int);
}

/// The distance of two numbers.
pub open spec fn distance(a: int, b: int) -> int {
    if a < b {
        b - a
    } else {
        a - b
    }
}

/// The settings for a list of rates: rate and divisor come from the list and from
/// 1 to 32, the quotient is the output rate, and no other rate `supported[j]` and
/// divisor `d` give a quotient that is closer to the wanted rate. The station is
/// tuned to itself.
pub proof fn lemma_closest_settings(
    freq_hz: u32,
    mpx_rate: u32,
    supported: Seq<u32>,
    r: (RadioConfig, DemodConfig),
    j: int,
    d: int,
)
    requires
        is_closest(freq_hz, mpx_rate, supported, r),
        0 <= j < supported.len(),
        1 <= d <= 32,
    ensures
        supported.contains(r.0.capture_rate),
        1 <= r.1.downsample <= 32,
        r.1.rate_out == r.0.capture_rate as int / r.1.downsample as int,
        distance(r.1.rate_out as int, mpx_rate as int) <= distance(
            supported[j] as int / d,
            mpx_rate as int,
        ),
        r.0.capture_freq == freq_hz,
        r.1.rate_resample == 48_000,
        !r.1.rtl_rotate,
{
    assert(is_candidate(supported, j, d));
}

/// Of equally close quotients the first one counts: rate by rate, and for one rate
/// by growing divisor. `i` is the place of the chosen rate.
pub proof fn lemma_closest_is_first(
    freq_hz: u32,
    mpx_rate: u32,
    supported: Seq<u32>,
    r: (RadioConfig, DemodConfig),
) -> (i: int)
    requires
        is_closest(freq_hz, mpx_rate, supported, r),
        supported.len() > 0,
    ensures
        0 <= i < supported.len(),
        supported[i] == r.0.capture_rate,
        forall|j: int, d: int|
            #![trigger supported[j] as int / d]
            0 <= j < supported.len() && 1 <= d <= 32 && (j < i || (j == i && d < r.1.downsample))
                ==> distance(r.1.rate_out as int, mpx_rate as int) < distance(
                supported[j] as int / d,
                mpx_rate as int,
            ),
{
    let i = choose|i: int|
        supported[i] == r.0.capture_rate && #[trigger] is_first_closest(
            supported,
            mpx_rate as int,
            i,
            r.1.downsample as int,
        );
    assert forall|j: int, d: int|
        #![trigger supported[j] as int / d]
        0 <= j < supported.len() && 1 <= d <= 32 && (j < i || (j == i && d
            < r.1.downsample)) implies distance(r.1.rate_out as int, mpx_rate as int) < distance(
        supported[j] as int / d,
        mpx_rate as int,
    ) by {
        assert(is_candidate(supported, j, d));
    }
    i
}

/// Like `centered_iq_settings`, for a source with a given list of sample rates:
/// the rate and the downsampling factor that come closest to the multiplex rate.
pub fn centered_iq_settings_with_rates(freq_hz: u32, mpx_rate: u32, supported: &[u32]) -> (r: (
    RadioConfig,
    DemodConfig,
))
    requires
        supported@.len() == 0 ==> settings_fit(freq_hz as int, mpx_rate as int),
    ensures
        is_closest(freq_hz, mpx_rate, supported@, r),
{
    if supported.len() == 0 {
        return centered_iq_settings(freq_hz, mpx_rate);
    }
    let mut best_rate: u32 = supported[0];
    let mut best_ds: u32 = 1;
    let mut best_err: u32 = u32::MAX;
    let ghost mut best: int = 0;
    let mut i: usize = 0;
    while i < supported.len()
        invariant
            supported@.len() > 0,
            i <= supported@.len(),
            closest_so_far(supported@, mpx_rate, i as int, 1, best, best_ds, best_err),
            best_rate == supported@[best],
        decreases supported@.len() - i,
    {
        let rate: u32 = supported[i];
        let mut ds: u32 = 1;
        while ds <= MAX_RATE_DIVISOR
            invariant
                i < supported@.len(),
                rate == supported@[i as int],
                1 <= ds <= MAX_RATE_DIVISOR + 1,
                closest_so_far(supported@, mpx_rate, i as int, ds as int, best, best_ds, best_err),
                best_rate == supported@[best],
            decreases MAX_RATE_DIVISOR + 1 - ds,
        {
            let out: u32 = rate / ds;
            let err: u32 = if out < mpx_rate {
                mpx_rate - out
            } else {
                out - mpx_rate
            };
            assert(err == rate_error(rate as int, ds as int, mpx_rate as int));
            if err < best_err {
                best_err = err;
                best_rate = rate;
                best_ds = ds;
                proof {
                    best = i as int;
                }
            }
            ds = ds + 1;
        }
        i = i + 1;
    }
    proof {
        assert(is_first_closest(supported@, mpx_rate as int, best, best_ds as int));
    }
    let rate_out: u32 = best_rate / best_ds;
    (
        RadioConfig { capture_freq: freq_hz, capture_rate: best_rate },
        DemodConfig {
            downsample: best_ds,
            rate_out,
            rate_resample: AUDIO_SAMPLE_RATE,
            rtl_rotate: false,
        },
    )
}

/// What the search knows when all candidates before rate `n`, divisor `m` have
/// been tried.
spec fn closest_so_far(
    supported: Seq<u32>,
    mpx_rate: u32,
    n: int,
    m: int,
    best: int,
    best_ds: u32,
    best_err: u32,
) -> bool {
    &&& is_candidate(supported, best, best_ds as int)
    &&& best_err <= u32::MAX
    &&& best_err == rate_error(supported[best] as int, best_ds as int, mpx_rate as int) || (best_err
        == u32::MAX && best == 0 && best_ds == 1)
    &&& forall|j: int, e: int| #[trigger]
        is_candidate(supported, j, e) && is_earlier(j, e, n, m) ==> best_err <= rate_error(
            supported[j] as int,
            e,
            mpx_rate as int,
        )
    &&& forall|j: int, e: int| #[trigger]
        is_candidate(supported, j, e) && is_earlier(j, e, best, best_ds as int) ==> best_err
            < rate_error(supported[j] as int, e, mpx_rate as int)
}

} // verus!
