//! The buffer between demodulation and audio output.

use vstd::prelude::*;

verus! {

/// The number of frames that wait at most: about 200 ms of stereo audio at
/// 48 kHz.
pub const MAX_RING_SAMPLES: usize = 9_600;

/// The frames that wait: one sequence for each channel.
#[verifier::ext_equal]
pub struct Waiting<T> {
    pub left: Seq<T>,
    pub right: Seq<T>,
}

/// The number of frames that a buffer with `n` waiting frames gives up.
pub open spec fn surplus(n: int) -> int {
    if n > MAX_RING_SAMPLES {
        n - MAX_RING_SAMPLES
    } else {
        0
    }
}

/// Frames are appended; the oldest ones beyond the limit are dropped.
pub open spec fn after_push<T>(w: Waiting<T>, left: Seq<T>, right: Seq<T>) -> Waiting<T> {
    let drop = surplus((w.left + left).len() as int);
    Waiting { left: (w.left + left).skip(drop), right: (w.right + right).skip(drop) }
}

/// The right channel has the frames that are to be dropped.
pub open spec fn push_allowed<T>(w: Waiting<T>, left: Seq<T>, right: Seq<T>) -> bool {
    surplus((w.left + left).len() as int) <= (w.right + right).len()
}

/// The number of frames that fit into `room` samples.
pub open spec fn frames_read<T>(w: Waiting<T>, room: int) -> int {
    if w.left.len() < room / 2 {
        w.left.len() as int
    } else {
        room / 2
    }
}

/// The first `n` frames are taken out.
pub open spec fn after_read<T>(w: Waiting<T>, n: int) -> Waiting<T> {
    Waiting { left: w.left.skip(n), right: w.right.skip(n) }
}

/// Both channels hold the same number of frames.
pub open spec fn balanced<T>(w: Waiting<T>) -> bool {
    w.left.len() == w.right.len()
}

/// A buffer of stereo frames that keeps the newest.
pub struct SampleRing<T> {
    left: Vec<T>,
    right: Vec<T>,
    read_pos: usize,
}

impl<T> View for SampleRing<T> {
    type V = Waiting<T>;

    closed spec fn view(&self) -> Waiting<T> {
        Waiting {
            left: self.left@.skip(self.read_pos as int),
            right: self.right@.skip(self.read_pos as int),
        }
    }
}

impl<T: Copy> SampleRing<T> {
    pub closed spec fn wf(&self) -> bool {
        self.read_pos <= self.left@.len() && self.read_pos <= self.right@.len()
    }

    pub fn new() -> (r: Self)
        ensures
            r.wf(),
            r@ == (Waiting { left: Seq::<T>::empty(), right: Seq::<T>::empty() }),
    {
        let r = SampleRing { left: Vec::new(), right: Vec::new(), read_pos: 0 };
        assert(r@ =~= (Waiting { left: Seq::<T>::empty(), right: Seq::<T>::empty() }));
        r
    }

    pub fn clear(&mut self)
        ensures
            final(self).wf(),
            final(self)@ == (Waiting { left: Seq::<T>::empty(), right: Seq::<T>::empty() }),
    {
        self.left.clear();
        self.right.clear();
        self.read_pos = 0;
        assert(self@ =~= (Waiting { left: Seq::<T>::empty(), right: Seq::<T>::empty() }));
    }

    pub fn push_frame(&mut self, left: &[T], right: &[T])
        requires
            old(self).wf(),
            push_allowed(old(self)@, left@, right@),
        ensures
            final(self).wf(),
            final(self)@ == after_push(old(self)@, left@, right@),
    {
        let ghost w = self@;
        append(&mut self.left, left);
        append(&mut self.right, right);
        assert(self@ =~= (Waiting { left: w.left + left@, right: w.right + right@ }));
        if self.left.len() > MAX_RING_SAMPLES {
            let drop: usize = self.left.len() - MAX_RING_SAMPLES;
            drop_front(&mut self.left, drop);
            drop_front(&mut self.right, drop);
            self.read_pos = if self.read_pos > drop {
                self.read_pos - drop
            } else {
                0
            };
        }
        assert(self@ =~= after_push(w, left@, right@));
    }

    /// Writes waiting frames into `out`, left and right by turns, and returns
    /// their number.
    pub fn read_interleaved(&mut self, out: &mut [T]) -> (frames: usize)
        requires
            old(self).wf(),
            frames_read(old(self)@, old(out)@.len() as int) <= old(self)@.right.len(),
        ensures
            final(self).wf(),
            frames == frames_read(old(self)@, old(out)@.len() as int),
            final(self)@ == after_read(old(self)@, frames as int),
            final(out)@.len() == old(out)@.len(),
            forall|i: int|
                0 <= i < frames ==> final(out)@[2 * i] == #[trigger] old(self)@.left[i]
                    && final(out)@[2 * i + 1] == old(self)@.right[i],
            forall|j: int|
                2 * frames <= j < old(out)@.len() ==> #[trigger] final(out)@[j] == old(out)@[j],
    {
        let ghost w = self@;
        let stored: usize = self.left.len();
        let available: usize = stored - self.read_pos;
        let room: usize = out.len();
        let frames: usize = if available < room / 2 {
            available
        } else {
            room / 2
        };
        let mut i: usize = 0;
        while i < frames
            invariant
                i <= frames,
                frames <= room / 2,
                room == out@.len(),
                room == old(out)@.len(),
                self@ == w,
                self.wf(),
                stored == self.left@.len(),
                self.read_pos + frames <= stored,
                frames <= w.left.len(),
                frames <= w.right.len(),
                forall|k: int|
                    0 <= k < i ==> out@[2 * k] == #[trigger] w.left[k] && out@[2 * k + 1]
                        == w.right[k],
                forall|j: int| 2 * i <= j < room ==> #[trigger] out@[j] == old(out)@[j],
            decreases frames - i,
        {
            assert(w.left[i as int] == self.left@[self.read_pos + i]);
            assert(w.right[i as int] == self.right@[self.read_pos + i]);
            let ghost before = out@;
            out[i * 2] = self.left[self.read_pos + i];
            out[i * 2 + 1] = self.right[self.read_pos + i];
            let ghost now = out@;
            assert(now == before.update(2 * i, w.left[i as int]).update(
                2 * i + 1,
                w.right[i as int],
            ));
            i = i + 1;
            assert forall|k: int| 0 <= k < i implies now[2 * k] == #[trigger] w.left[k] && now[2 * k
                + 1] == w.right[k] by {
                if k < i - 1 {
                    assert(before[2 * k] == w.left[k]);
                    assert(now[2 * k] == before[2 * k]);
                    assert(now[2 * k + 1] == before[2 * k + 1]);
                } else {
                    assert(now[2 * k] == w.left[k]);
                    assert(now[2 * k + 1] == w.right[k]);
                }
            }
            assert(out@ == now);
        }
        self.read_pos = self.read_pos + frames;
        if self.read_pos > self.left.len() / 2 {
            let drop: usize = self.read_pos;
            drop_front(&mut self.left, drop);
            drop_front(&mut self.right, drop);
            self.read_pos = 0;
        }
        assert(self@ =~= after_read(w, frames as int));
        frames
    }
}

/// Appends `more` to `v`.
pub(crate) fn append<T: Copy>(v: &mut Vec<T>, more: &[T])
    ensures
        final(v)@ == old(v)@ + more@,
{
    let mut i: usize = 0;
    while i < more.len()
        invariant
            i <= more@.len(),
            v@ == old(v)@ + more@.take(i as int),
        decreases more@.len() - i,
    {
        v.push(more[i]);
        i = i + 1;
        assert(more@.take(i as int) =~= more@.take(i - 1).push(more@[i - 1]));
    }
    assert(more@.take(i as int) =~= more@);
}

/// Takes the first `n` items off.
pub(crate) fn drop_front<T>(v: &mut Vec<T>, n: usize)
    requires
        n <= old(v)@.len(),
    ensures
        final(v)@ == old(v)@.skip(n as int),
{
    let rest: Vec<T> = v.split_off(n);
    *v = rest;
}

/// Step `k` of size `c` lies within `n` samples exactly if it is one of the steps
/// that are counted.
pub(crate) proof fn lemma_steps_within(n: int, c: int, k: int)
    requires
        c > 0,
        n >= 0,
    ensures
        k * c < n <==> k < (n + c - 1) / c,
{
    let q = (n + c - 1) / c;
    vstd::arithmetic::div_mod::lemma_fundamental_div_mod(n + c - 1, c);
    vstd::arithmetic::div_mod::lemma_mod_bound(n + c - 1, c);
    assert(c * q <= n + c - 1 < c * q + c);
    if k < q {
        assert(k * c <= c * q - c) by (nonlinear_arith)
            requires
                k + 1 <= q,
                c > 0,
        ;
    } else {
        assert(k * c >= c * q) by (nonlinear_arith)
            requires
                k >= q,
                c > 0,
        ;
    }
}

// ---------------------------------------------------------------------------
// Properties of the buffer
// ---------------------------------------------------------------------------

/// Never more than the limit waits.
pub proof fn lemma_push_bounded<T>(w: Waiting<T>, left: Seq<T>, right: Seq<T>)
    requires
        push_allowed(w, left, right),
    ensures
        after_push(w, left, right).left.len() <= MAX_RING_SAMPLES,
{
}

/// Channels of equal length stay so, and frames of equal length can always be
/// appended and read.
pub proof fn lemma_stays_balanced<T>(w: Waiting<T>, left: Seq<T>, right: Seq<T>, n: int)
    requires
        balanced(w),
        left.len() == right.len(),
        0 <= n <= w.left.len(),
    ensures
        push_allowed(w, left, right),
        balanced(after_push(w, left, right)),
        balanced(after_read(w, n)),
{
}

/// Frames come out in the order in which they went in: what is read after
/// appending continues what was waiting, as long as the limit is not reached.
pub proof fn lemma_first_in_first_out<T>(w: Waiting<T>, left: Seq<T>, right: Seq<T>)
    requires
        (w.left + left).len() <= MAX_RING_SAMPLES,
        balanced(w),
    ensures
        after_push(w, left, right).left == w.left + left,
        after_push(w, left, right).right == w.right + right,
        after_read(after_push(w, left, right), w.left.len() as int).left == left,
        after_read(after_push(w, left, right), w.left.len() as int).right == right,
{
    assert(after_push(w, left, right).left =~= w.left + left);
    assert(after_push(w, left, right).right =~= w.right + right);
    assert((w.left + left).skip(w.left.len() as int) =~= left);
    assert((w.right + right).skip(w.right.len() as int) =~= right);
}

/// The newest frames stay: after any append the buffer holds the end of all that
/// was waiting and appended.
pub proof fn lemma_newest_stay<T>(w: Waiting<T>, left: Seq<T>, right: Seq<T>)
    requires
        balanced(w),
        left.len() == right.len(),
    ensures
        ({
            let all = w.left + left;
            let kept = after_push(w, left, right);
            &&& kept.left == all.skip(all.len() - kept.left.len())
            &&& kept.left.len() == (if all.len() < MAX_RING_SAMPLES {
                all.len()
            } else {
                MAX_RING_SAMPLES as nat
            })
            &&& kept.right == (w.right + right).skip(all.len() - kept.left.len())
        }),
{
}

/// It makes no difference whether frames are appended at once or in two parts.
pub proof fn lemma_push_in_parts<T>(
    w: Waiting<T>,
    left1: Seq<T>,
    right1: Seq<T>,
    left2: Seq<T>,
    right2: Seq<T>,
)
    requires
        balanced(w),
        left1.len() == right1.len(),
        left2.len() == right2.len(),
    ensures
        after_push(after_push(w, left1, right1), left2, right2) == after_push(
            w,
            left1 + left2,
            right1 + right2,
        ),
{
    let twice = after_push(after_push(w, left1, right1), left2, right2);
    let once = after_push(w, left1 + left2, right1 + right2);
    assert(twice.left =~= once.left);
    assert(twice.right =~= once.right);
}

/// It makes no difference whether frames are read at once or in two parts.
pub proof fn lemma_read_in_parts<T>(w: Waiting<T>, n: int, m: int)
    requires
        balanced(w),
        0 <= n,
        0 <= m,
        n + m <= w.left.len(),
    ensures
        after_read(after_read(w, n), m) == after_read(w, n + m),
{
    assert(after_read(after_read(w, n), m).left =~= after_read(w, n + m).left);
    assert(after_read(after_read(w, n), m).right =~= after_read(w, n + m).right);
}

/// As many frames are read as wait and as there is room for two samples each.
pub proof fn lemma_frames_read<T>(w: Waiting<T>, room: int)
    requires
        0 <= room,
    ensures
        ({
            let n = frames_read(w, room);
            &&& 0 <= n <= w.left.len()
            &&& 2 * n <= room
            &&& n == w.left.len() || 2 * n + 2 > room
        }),
{
}

/// What is read is gone from the front, in both channels, and the rest moves up.
pub proof fn lemma_read_moves_up<T>(w: Waiting<T>, n: int, i: int)
    requires
        0 <= n <= w.left.len(),
        n <= w.right.len(),
        0 <= i,
    ensures
        after_read(w, n).left.len() == w.left.len() - n,
        after_read(w, n).right.len() == w.right.len() - n,
        n + i < w.left.len() ==> after_read(w, n).left[i] == w.left[n + i],
        n + i < w.right.len() ==> after_read(w, n).right[i] == w.right[n + i],
        after_read(w, 0) == w,
{
    assert(after_read(w, 0) =~= w);
}

/// One frame more joins at the end. Where 9600 frames wait already, which is a
/// fifth of a second at 48 kHz, the oldest one goes.
pub proof fn lemma_push_one<T>(w: Waiting<T>, l: T, r: T)
    requires
        balanced(w),
        w.left.len() <= 9_600,
    ensures
        w.left.len() < 9_600 ==> after_push(w, seq![l], seq![r]) == (Waiting {
            left: w.left.push(l),
            right: w.right.push(r),
        }),
        w.left.len() == 9_600 ==> after_push(w, seq![l], seq![r]) == (Waiting {
            left: w.left.drop_first().push(l),
            right: w.right.drop_first().push(r),
        }),
        after_push(w, seq![], seq![]) == w,
        5 * MAX_RING_SAMPLES == 48_000,
{
    let more = after_push(w, seq![l], seq![r]);
    if w.left.len() < 9_600 {
        assert(more.left =~= w.left.push(l));
        assert(more.right =~= w.right.push(r));
    } else {
        assert(more.left =~= w.left.drop_first().push(l));
        assert(more.right =~= w.right.drop_first().push(r));
    }
    assert(after_push(w, seq![], seq![]) =~= w);
}

/// However much is appended, each place from the end holds what was there last.
pub proof fn lemma_push_from_the_end<T>(w: Waiting<T>, left: Seq<T>, right: Seq<T>, back: int)
    requires
        balanced(w),
        left.len() == right.len(),
        0 < back <= 9_600,
        back <= w.left.len() + left.len(),
    ensures
        ({
            let kept = after_push(w, left, right);
            let n = kept.left.len();
            &&& n == kept.right.len()
            &&& back <= n <= 9_600
            &&& kept.left[n - back] == (if back <= left.len() {
                left[left.len() - back]
            } else {
                w.left[w.left.len() + left.len() - back]
            })
            &&& kept.right[n - back] == (if back <= right.len() {
                right[right.len() - back]
            } else {
                w.right[w.right.len() + right.len() - back]
            })
        }),
{
}

/// Whatever the two channels hold, the same number of frames leaves both at the
/// front: as many as the left one then has above 9600.
pub proof fn lemma_push_places<T>(w: Waiting<T>, left: Seq<T>, right: Seq<T>, i: int)
    requires
        w.left.len() + left.len() - 9_600 <= w.right.len() + right.len(),
        0 <= i,
    ensures
        push_allowed(w, left, right),
        ({
            let (m, n) = (w.left.len() + left.len(), w.right.len() + right.len());
            let gone = if m > 9_600 {
                m - 9_600
            } else {
                0
            };
            let kept = after_push(w, left, right);
            &&& kept.left.len() == m - gone
            &&& kept.right.len() == n - gone
            &&& gone + i < w.left.len() ==> kept.left[i] == w.left[gone + i]
            &&& gone + i < w.right.len() ==> kept.right[i] == w.right[gone + i]
            &&& w.left.len() <= gone + i < m ==> kept.left[i] == left[gone + i - w.left.len()]
            &&& w.right.len() <= gone + i < n ==> kept.right[i] == right[gone + i - w.right.len()]
        }),
{
}

} // verus!
