//! Rate reduction by a ratio of two integers.
//!
//! Each input sample moves a phase forward by the slow rate. Whenever the phase
//! reaches the fast rate, the samples since the last output form a block, and
//! the fast rate is taken off the phase.

use super::fm::DemodConfig;
use vstd::prelude::*;

verus! {

/// The number of blocks that `n` samples complete.
pub open spec fn blocks_after(phase: int, slow: int, fast: int, n: int) -> int {
    (phase + n * slow) / fast
}

/// The phase after `n` samples.
pub open spec fn phase_after(phase: int, slow: int, fast: int, n: int) -> int {
    (phase + n * slow) % fast
}

/// The number of samples after which block `k` is complete: the least `n` with
/// `phase + n * slow >= (k + 1) * fast`.
pub open spec fn block_end(phase: int, slow: int, fast: int, k: int) -> int {
    ((k + 1) * fast - phase + slow - 1) / slow
}

/// The number of samples before block `k`.
pub open spec fn block_start(phase: int, slow: int, fast: int, k: int) -> int {
    if k <= 0 {
        0
    } else {
        block_end(phase, slow, fast, k - 1)
    }
}

/// The rates of a decimator, and a phase between two samples.
pub open spec fn valid_phase(phase: int, slow: int, fast: int) -> bool {
    &&& 0 < slow <= fast
    &&& 0 <= phase < fast
}

/// `block_end` is the least number of samples that completes the block.
pub proof fn lemma_block_end(phase: int, slow: int, fast: int, k: int, n: int)
    requires
        valid_phase(phase, slow, fast),
    ensures
        n >= block_end(phase, slow, fast, k) <==> phase + n * slow >= (k + 1) * fast,
{
    let a = (k + 1) * fast - phase + slow - 1;
    let q = a / slow;
    vstd::arithmetic::div_mod::lemma_fundamental_div_mod(a, slow);
    vstd::arithmetic::div_mod::lemma_mod_bound(a, slow);
    assert(slow * q <= a < slow * q + slow);
    if n >= q {
        assert(n * slow >= slow * q) by (nonlinear_arith)
            requires
                n >= q,
                slow > 0,
        ;
    } else {
        assert(n * slow <= slow * q - slow) by (nonlinear_arith)
            requires
                n + 1 <= q,
                slow > 0,
        ;
    }
}

/// What one more sample does.
pub proof fn lemma_step(phase: int, slow: int, fast: int, n: int)
    requires
        valid_phase(phase, slow, fast),
        0 <= n,
    ensures
        0 <= blocks_after(phase, slow, fast, n),
        valid_phase(phase_after(phase, slow, fast, n), slow, fast),
        phase_after(phase, slow, fast, n) + slow < fast ==> {
            &&& blocks_after(phase, slow, fast, n + 1) == blocks_after(phase, slow, fast, n)
            &&& phase_after(phase, slow, fast, n + 1) == phase_after(phase, slow, fast, n) + slow
        },
        phase_after(phase, slow, fast, n) + slow >= fast ==> {
            &&& blocks_after(phase, slow, fast, n + 1) == blocks_after(phase, slow, fast, n) + 1
            &&& phase_after(phase, slow, fast, n + 1) == phase_after(phase, slow, fast, n) + slow
                - fast
            &&& block_end(phase, slow, fast, blocks_after(phase, slow, fast, n)) == n + 1
        },
{
    let t = phase + n * slow;
    let c = blocks_after(phase, slow, fast, n);
    let p = phase_after(phase, slow, fast, n);
    assert((n + 1) * slow == n * slow + slow) by (nonlinear_arith);
    assert(n * slow >= 0) by (nonlinear_arith)
        requires
            n >= 0,
            slow > 0,
    ;
    vstd::arithmetic::div_mod::lemma_fundamental_div_mod(t, fast);
    vstd::arithmetic::div_mod::lemma_mod_bound(t, fast);
    vstd::arithmetic::div_mod::lemma_div_pos_is_pos(t, fast);
    assert(fast * c == c * fast) by (nonlinear_arith);
    if p + slow < fast {
        vstd::arithmetic::div_mod::lemma_fundamental_div_mod_converse(t + slow, fast, c, p + slow);
    } else {
        assert((c + 1) * fast == c * fast + fast) by (nonlinear_arith);
        vstd::arithmetic::div_mod::lemma_fundamental_div_mod_converse(
            t + slow,
            fast,
            c + 1,
            p + slow - fast,
        );
        lemma_block_end(phase, slow, fast, c, n);
        lemma_block_end(phase, slow, fast, c, n + 1);
    }
}

/// The blocks that `n` samples complete end within them, the next one does not.
pub proof fn lemma_ends_within(phase: int, slow: int, fast: int, n: int, k: int)
    requires
        valid_phase(phase, slow, fast),
        0 <= n,
    ensures
        k < blocks_after(phase, slow, fast, n) <==> block_end(phase, slow, fast, k) <= n,
{
    let t = phase + n * slow;
    let c = blocks_after(phase, slow, fast, n);
    lemma_block_end(phase, slow, fast, k, n);
    vstd::arithmetic::div_mod::lemma_fundamental_div_mod(t, fast);
    vstd::arithmetic::div_mod::lemma_mod_bound(t, fast);
    if k < c {
        assert((k + 1) * fast <= fast * c) by (nonlinear_arith)
            requires
                k + 1 <= c,
                fast > 0,
        ;
    } else {
        assert((k + 1) * fast >= fast * c + fast) by (nonlinear_arith)
            requires
                k >= c,
                fast > 0,
        ;
    }
}

/// Blocks follow each other without gap or overlap, and none is empty.
pub proof fn lemma_block_nonempty(phase: int, slow: int, fast: int, k: int)
    requires
        valid_phase(phase, slow, fast),
        0 <= k,
    ensures
        0 <= block_start(phase, slow, fast, k) < block_end(phase, slow, fast, k),
{
    let s = block_start(phase, slow, fast, k);
    assert((k + 1) * fast == k * fast + fast) by (nonlinear_arith);
    assert(k * fast >= 0) by (nonlinear_arith)
        requires
            k >= 0,
            fast > 0,
    ;
    if k == 0 {
        lemma_block_end(phase, slow, fast, 0, 0);
    } else {
        let j = k - 1;
        assert((j + 1) * fast == k * fast);
        assert(k * fast >= fast) by (nonlinear_arith)
            requires
                k >= 1,
                fast > 0,
        ;
        // The start is the least count that reaches `k * fast`, so it stays
        // below `k * fast + slow`.
        lemma_block_end(phase, slow, fast, j, 0);
        lemma_block_end(phase, slow, fast, j, s);
        lemma_block_end(phase, slow, fast, j, s - 1);
        assert((s - 1) * slow == s * slow - slow) by (nonlinear_arith);
        lemma_block_end(phase, slow, fast, k, s);
    }
}

/// The number of blocks, and with it the number of output samples, is the
/// number of input samples times the ratio of the rates, to within one.
pub proof fn lemma_block_count(phase: int, slow: int, fast: int, n: int)
    requires
        valid_phase(phase, slow, fast),
        0 <= n,
    ensures
        n * slow / fast <= blocks_after(phase, slow, fast, n) <= n * slow / fast + 1,
        blocks_after(0, slow, fast, n) == n * slow / fast,
        blocks_after(phase, slow, fast, n) <= n,
{
    assert(0 <= n * slow <= n * fast) by (nonlinear_arith)
        requires
            n >= 0,
            0 < slow <= fast,
    ;
    vstd::arithmetic::div_mod::lemma_div_is_ordered(n * slow, phase + n * slow, fast);
    vstd::arithmetic::div_mod::lemma_div_is_ordered(phase + n * slow, n * slow + fast, fast);
    vstd::arithmetic::div_mod::lemma_div_plus_one(n * slow, fast);
    vstd::arithmetic::div_mod::lemma_fundamental_div_mod(phase + n * slow, fast);
    vstd::arithmetic::div_mod::lemma_mod_bound(phase + n * slow, fast);
    let c = blocks_after(phase, slow, fast, n);
    if c > n {
        assert(fast * c >= n * fast + fast) by (nonlinear_arith)
            requires
                c >= n + 1,
                fast > 0,
        ;
    }
}

/// Cutting the input in two does not change the blocks: those of the second
/// part continue those of the first.
pub proof fn lemma_split(phase: int, slow: int, fast: int, n: int, m: int, k: int)
    requires
        valid_phase(phase, slow, fast),
        0 <= n,
        0 <= m,
    ensures
        ({
            let c = blocks_after(phase, slow, fast, n);
            let p = phase_after(phase, slow, fast, n);
            &&& valid_phase(p, slow, fast)
            &&& blocks_after(phase, slow, fast, n + m) == c + blocks_after(p, slow, fast, m)
            &&& phase_after(phase, slow, fast, n + m) == phase_after(p, slow, fast, m)
            &&& block_end(phase, slow, fast, c + k) == n + block_end(p, slow, fast, k)
        }),
{
    let c = blocks_after(phase, slow, fast, n);
    let p = phase_after(phase, slow, fast, n);
    let t = phase + n * slow;
    vstd::arithmetic::div_mod::lemma_fundamental_div_mod(t, fast);
    vstd::arithmetic::div_mod::lemma_mod_bound(t, fast);
    assert((n + m) * slow == n * slow + m * slow) by (nonlinear_arith);
    let u = p + m * slow;
    vstd::arithmetic::div_mod::lemma_fundamental_div_mod(u, fast);
    vstd::arithmetic::div_mod::lemma_mod_bound(u, fast);
    assert(fast * (c + u / fast) == fast * c + fast * (u / fast)) by (nonlinear_arith);
    assert((c + u / fast) * fast == fast * (c + u / fast)) by (nonlinear_arith);
    vstd::arithmetic::div_mod::lemma_fundamental_div_mod_converse(
        t + m * slow,
        fast,
        c + u / fast,
        u % fast,
    );
    // (c + k + 1) * fast - phase == (k + 1) * fast - p + n * slow
    assert((c + k + 1) * fast == fast * c + (k + 1) * fast) by (nonlinear_arith);
    let a = (k + 1) * fast - p + slow - 1;
    vstd::arithmetic::div_mod::lemma_hoist_over_denominator(a, n, slow as nat);
}

/// The sum of `s[lo]`, ..., `s[hi - 1]`.
pub open spec fn sum_range(s: Seq<int>, lo: int, hi: int) -> int
    decreases hi - lo,
{
    if hi <= lo {
        0
    } else {
        sum_range(s, lo, hi - 1) + s[hi - 1]
    }
}

/// The sum of block `k` of the samples `s`, when samples that came before add up
/// to `carry` and belong to the first block.
pub open spec fn block_sum(
    carry: int,
    s: Seq<int>,
    phase: int,
    slow: int,
    fast: int,
    k: int,
) -> int {
    (if k == 0 {
        carry
    } else {
        0
    }) + sum_range(s, block_start(phase, slow, fast, k), block_end(phase, slow, fast, k))
}

/// The sum of those of the first `n` samples that belong to no complete block.
pub open spec fn rest_sum(
    carry: int,
    s: Seq<int>,
    phase: int,
    slow: int,
    fast: int,
    n: int,
) -> int {
    let c = blocks_after(phase, slow, fast, n);
    (if c == 0 {
        carry
    } else {
        0
    }) + sum_range(s, block_start(phase, slow, fast, c), n)
}

/// Before the first sample there are no blocks and nothing is summed up.
pub proof fn lemma_sum_start(carry: int, s: Seq<int>, phase: int, slow: int, fast: int)
    requires
        valid_phase(phase, slow, fast),
    ensures
        blocks_after(phase, slow, fast, 0) == 0,
        phase_after(phase, slow, fast, 0) == phase,
        rest_sum(carry, s, phase, slow, fast, 0) == carry,
{
    assert(0 * slow == 0) by (nonlinear_arith);
    vstd::arithmetic::div_mod::lemma_small_mod(phase as nat, fast as nat);
    vstd::arithmetic::div_mod::lemma_basic_div(phase, fast);
}

/// What one more sample does to the sums.
pub proof fn lemma_sum_step(carry: int, s: Seq<int>, phase: int, slow: int, fast: int, n: int)
    requires
        valid_phase(phase, slow, fast),
        0 <= n < s.len(),
    ensures
        ({
            let c = blocks_after(phase, slow, fast, n);
            let p = phase_after(phase, slow, fast, n);
            let total = rest_sum(carry, s, phase, slow, fast, n) + s[n];
            &&& p + slow < fast ==> rest_sum(carry, s, phase, slow, fast, n + 1) == total
            &&& p + slow >= fast ==> {
                &&& block_sum(carry, s, phase, slow, fast, c) == total
                &&& rest_sum(carry, s, phase, slow, fast, n + 1) == 0
            }
        }),
{
    lemma_step(phase, slow, fast, n);
    let c = blocks_after(phase, slow, fast, n);
    let start = block_start(phase, slow, fast, c);
    if c > 0 {
        lemma_ends_within(phase, slow, fast, n, c - 1);
    }
    assert(start <= n);
    assert(sum_range(s, start, n + 1) == sum_range(s, start, n) + s[n]);
}

/// A sum over a part of a concatenation lies in its first half.
proof fn lemma_sum_first(a: Seq<int>, b: Seq<int>, lo: int, hi: int)
    requires
        0 <= lo,
        hi <= a.len(),
    ensures
        sum_range(a + b, lo, hi) == sum_range(a, lo, hi),
    decreases hi - lo,
{
    if lo < hi {
        lemma_sum_first(a, b, lo, hi - 1);
    }
}

/// A sum over a part of a concatenation lies in its second half.
proof fn lemma_sum_second(a: Seq<int>, b: Seq<int>, lo: int, hi: int)
    requires
        0 <= lo,
        hi <= b.len(),
    ensures
        sum_range(a + b, a.len() + lo, a.len() + hi) == sum_range(b, lo, hi),
    decreases hi - lo,
{
    if lo < hi {
        lemma_sum_second(a, b, lo, hi - 1);
    }
}

proof fn lemma_sum_join(s: Seq<int>, lo: int, mid: int, hi: int)
    requires
        lo <= mid <= hi,
    ensures
        sum_range(s, lo, hi) == sum_range(s, lo, mid) + sum_range(s, mid, hi),
    decreases hi - mid,
{
    if mid < hi {
        lemma_sum_join(s, lo, mid, hi - 1);
    }
}

/// Cutting the input in two does not change the sums of the blocks: what the
/// first part leaves over is the carry of the second.
pub proof fn lemma_sums_split(
    carry: int,
    a: Seq<int>,
    b: Seq<int>,
    phase: int,
    slow: int,
    fast: int,
    k: int,
)
    requires
        valid_phase(phase, slow, fast),
        0 <= k,
    ensures
        ({
            let c = blocks_after(phase, slow, fast, a.len() as int);
            let p = phase_after(phase, slow, fast, a.len() as int);
            let left = rest_sum(carry, a, phase, slow, fast, a.len() as int);
            &&& k < c ==> block_sum(carry, a + b, phase, slow, fast, k) == block_sum(
                carry,
                a,
                phase,
                slow,
                fast,
                k,
            )
            &&& k < blocks_after(p, slow, fast, b.len() as int) ==> block_sum(
                carry,
                a + b,
                phase,
                slow,
                fast,
                c + k,
            ) == block_sum(left, b, p, slow, fast, k)
            &&& rest_sum(carry, a + b, phase, slow, fast, (a + b).len() as int) == rest_sum(
                left,
                b,
                p,
                slow,
                fast,
                b.len() as int,
            )
        }),
{
    let n = a.len() as int;
    let m = b.len() as int;
    let c = blocks_after(phase, slow, fast, n);
    let p = phase_after(phase, slow, fast, n);
    let d = blocks_after(p, slow, fast, m);
    lemma_step(phase, slow, fast, n);
    lemma_split(phase, slow, fast, n, m, k);
    lemma_step(p, slow, fast, m);
    if k < c {
        lemma_ends_within(phase, slow, fast, n, k);
        lemma_block_nonempty(phase, slow, fast, k);
        lemma_sum_first(
            a,
            b,
            block_start(phase, slow, fast, k),
            block_end(phase, slow, fast, k),
        );
    }
    lemma_start_split(phase, slow, fast, n, m, k);
    if k < d {
        lemma_ends_within(p, slow, fast, m, k);
        lemma_block_nonempty(p, slow, fast, k);
        lemma_sum_second_from(
            a,
            b,
            block_start(phase, slow, fast, c + k),
            block_start(p, slow, fast, k),
            block_end(p, slow, fast, k),
            k,
        );
    }
    lemma_start_split(phase, slow, fast, n, m, d);
    lemma_split(phase, slow, fast, n, m, d);
    lemma_block_nonempty(p, slow, fast, d);
    if d > 0 {
        lemma_ends_within(p, slow, fast, m, d - 1);
    }
    lemma_sum_second_from(
        a,
        b,
        block_start(phase, slow, fast, c + d),
        block_start(p, slow, fast, d),
        m,
        d,
    );
}

/// Where block `c + k` of a concatenation starts, seen from its second half.
proof fn lemma_start_split(phase: int, slow: int, fast: int, n: int, m: int, k: int)
    requires
        valid_phase(phase, slow, fast),
        0 <= n,
        0 <= m,
        0 <= k,
    ensures
        ({
            let c = blocks_after(phase, slow, fast, n);
            let p = phase_after(phase, slow, fast, n);
            &&& k > 0 ==> block_start(phase, slow, fast, c + k) == n + block_start(p, slow, fast, k)
            &&& 0 <= block_start(phase, slow, fast, c) <= n
        }),
{
    let c = blocks_after(phase, slow, fast, n);
    lemma_step(phase, slow, fast, n);
    if k > 0 {
        lemma_split(phase, slow, fast, n, m, k - 1);
    }
    if c > 0 {
        lemma_ends_within(phase, slow, fast, n, c - 1);
    }
    lemma_block_nonempty(phase, slow, fast, c);
}

/// The sum over a block of a concatenation that ends in its second half.
proof fn lemma_sum_second_from(
    a: Seq<int>,
    b: Seq<int>,
    start: int,
    lo: int,
    hi: int,
    k: int,
)
    requires
        0 <= k,
        0 <= lo <= hi <= b.len(),
        k > 0 ==> start == a.len() + lo,
        k == 0 ==> lo == 0 && 0 <= start <= a.len(),
    ensures
        sum_range(a + b, start, a.len() + hi) == (if k == 0 {
            sum_range(a, start, a.len() as int)
        } else {
            0
        }) + sum_range(b, lo, hi),
{
    let n = a.len() as int;
    lemma_sum_second(a, b, lo, hi);
    if k == 0 {
        lemma_sum_join(a + b, start, n, n + hi);
        lemma_sum_first(a, b, start, n);
    }
}

/// The rates of a configuration fit the decimators: the output rate is not above
/// the input rate, and the phase can be held in 32 bits.
pub open spec fn rates_valid(config: DemodConfig) -> bool {
    &&& 0 < config.rate_resample <= config.rate_out
    &&& config.rate_resample + config.rate_out <= i32::MAX + 1
}

/// Whether the rates of a configuration fit the decimators.
pub fn are_rates_valid(config: &DemodConfig) -> (r: bool)
    ensures
        r == rates_valid(*config),
{
    0 < config.rate_resample && config.rate_resample <= config.rate_out
        && config.rate_resample as u64 + config.rate_out as u64 <= i32::MAX as u64 + 1
}

/// Cuts a stereo stream at the multiplex rate into the blocks whose averages are
/// the samples at the audio rate (170 kHz to 48 kHz).
pub struct StereoAudioDecimator {
    prev_index: i32,
    slow: i32,
    fast: i32,
    ratio: i32,
}

impl StereoAudioDecimator {
    pub closed spec fn phase(&self) -> int {
        self.prev_index as int
    }

    pub closed spec fn slow(&self) -> int {
        self.slow as int
    }

    pub closed spec fn fast(&self) -> int {
        self.fast as int
    }

    pub closed spec fn spec_ratio(&self) -> int {
        self.ratio as int
    }

    pub closed spec fn wf(&self) -> bool {
        &&& valid_phase(self.prev_index as int, self.slow as int, self.fast as int)
        &&& self.slow + self.fast <= i32::MAX + 1
        &&& self.ratio == self.fast as int / self.slow as int
        &&& self.ratio > 0
    }

    pub fn new(config: &DemodConfig) -> (r: Self)
        requires
            rates_valid(*config),
        ensures
            r.wf(),
            r.phase() == 0,
            r.slow() == config.rate_resample,
            r.fast() == config.rate_out,
            r.spec_ratio() == config.rate_out as int / config.rate_resample as int,
    {
        proof {
            vstd::arithmetic::div_mod::lemma_div_is_ordered(
                config.rate_resample as int,
                config.rate_out as int,
                config.rate_resample as int,
            );
            vstd::arithmetic::div_mod::lemma_div_by_self(config.rate_resample as int);
            vstd::arithmetic::div_mod::lemma_div_is_ordered_by_denominator(
                config.rate_out as int,
                1,
                config.rate_resample as int,
            );
        }
        StereoAudioDecimator {
            prev_index: 0,
            slow: config.rate_resample as i32,
            fast: config.rate_out as i32,
            ratio: (config.rate_out / config.rate_resample) as i32,
        }
    }

    /// The number by which the sum of a block is divided.
    pub fn ratio(&self) -> (r: i32)
        requires
            self.wf(),
        ensures
            r == self.spec_ratio(),
            r > 0,
    {
        self.ratio
    }

    /// Takes the frames of two channels, as many as the shorter one has, and
    /// returns for each block that they complete the number of frames up to its
    /// end. The frames after the last end belong to the next block.
    pub fn process<T>(&mut self, left: &[T], right: &[T]) -> (ends: Vec<usize>)
        requires
            old(self).wf(),
        ensures
            final(self).wf(),
            final(self).slow() == old(self).slow(),
            final(self).fast() == old(self).fast(),
            final(self).spec_ratio() == old(self).spec_ratio(),
            ({
                let n = if left@.len() < right@.len() {
                    left@.len() as int
                } else {
                    right@.len() as int
                };
                let (p, s, f) = (old(self).phase(), old(self).slow(), old(self).fast());
                &&& final(self).phase() == phase_after(p, s, f, n)
                &&& ends@.len() == blocks_after(p, s, f, n)
                &&& forall|k: int|
                    0 <= k < ends@.len() ==> #[trigger] ends@[k] == block_end(p, s, f, k)
            }),
    {
        let n: usize = if left.len() < right.len() {
            left.len()
        } else {
            right.len()
        };
        let mut ends: Vec<usize> = Vec::new();
        let ghost (p, s, f) = (self.phase(), self.slow(), self.fast());
        let mut i: usize = 0;
        proof {
            assert(0 * s == 0) by (nonlinear_arith);
            vstd::arithmetic::div_mod::lemma_small_mod(p as nat, f as nat);
            vstd::arithmetic::div_mod::lemma_basic_div(p, f);
        }
        while i < n
            invariant
                i <= n,
                self.wf(),
                self.slow == s,
                self.fast == f,
                self.ratio == old(self).ratio,
                valid_phase(p, s, f),
                self.prev_index == phase_after(p, s, f, i as int),
                ends@.len() == blocks_after(p, s, f, i as int),
                forall|k: int| 0 <= k < ends@.len() ==> #[trigger] ends@[k] == block_end(p, s, f, k),
            decreases n - i,
        {
            proof {
                lemma_step(p, s, f, i as int);
            }
            i = i + 1;
            let index: i32 = self.prev_index + self.slow;
            if index < self.fast {
                self.prev_index = index;
            } else {
                ends.push(i);
                self.prev_index = index - self.fast;
            }
        }
        ends
    }
}

/// The decimators take every pair of rates of which the lower one is not zero and
/// the sum is at most 2^31.
pub proof fn lemma_rates(config: DemodConfig)
    ensures
        rates_valid(config) <==> 1 <= config.rate_resample && config.rate_resample
            <= config.rate_out && config.rate_resample + config.rate_out <= 0x8000_0000,
{
}

/// One block ends for each full turn of the phase, which every frame of both
/// channels moves on by the lower rate; ends grow and stay within the frames, and what
/// only one channel has is left out.
pub proof fn lemma_decimated<T>(left: &[T], right: &[T], ends: Vec<usize>, k: int)
    requires
        0 <= k < ends@.len(),
    ensures
        forall|d: &mut StereoAudioDecimator| #[trigger]
            call_ensures(StereoAudioDecimator::process::<T>, (d, left, right), ends)
                && valid_phase((*d).phase(), (*d).slow(), (*d).fast()) ==> {
                let (p, s, f) = ((*d).phase(), (*d).slow(), (*d).fast());
                let e = ends@[k] as int;
                &&& e <= left@.len() && e <= right@.len()
                &&& p + e * s >= (k + 1) * f > p + (e - 1) * s
                &&& k > 0 ==> ends@[k - 1] < e
                &&& (*final(d)).slow() == s && (*final(d)).fast() == f
            },
{
    assert forall|d: &mut StereoAudioDecimator| #[trigger]
        call_ensures(StereoAudioDecimator::process::<T>, (d, left, right), ends) && valid_phase(
            (*d).phase(),
            (*d).slow(),
            (*d).fast(),
        ) implies {
        let (p, s, f) = ((*d).phase(), (*d).slow(), (*d).fast());
        let e = ends@[k] as int;
        &&& e <= left@.len() && e <= right@.len()
        &&& p + e * s >= (k + 1) * f > p + (e - 1) * s
        &&& k > 0 ==> ends@[k - 1] < e
        &&& (*final(d)).slow() == s && (*final(d)).fast() == f
    } by {
        let (p, s, f) = ((*d).phase(), (*d).slow(), (*d).fast());
        let n = if left@.len() < right@.len() {
            left@.len() as int
        } else {
            right@.len() as int
        };
        assert(ends@[k] == block_end(p, s, f, k));
        lemma_block_end(p, s, f, k, block_end(p, s, f, k));
        lemma_block_end(p, s, f, k, block_end(p, s, f, k) - 1);
        lemma_ends_within(p, s, f, n, k);
        lemma_block_nonempty(p, s, f, k);
        if k > 0 {
            assert(ends@[k - 1] == block_end(p, s, f, k - 1));
        }
    }
}

} // verus!
