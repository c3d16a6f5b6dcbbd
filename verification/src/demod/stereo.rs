//! Which of the two subcarrier phases carries the difference signal.

use vstd::prelude::*;

verus! {

/// The number of multiplex samples after which the phase is chosen.
pub const CARRIER_SETTLE_SAMPLES: u32 = 8_000;

/// Chooses once, after the loop had time to settle, between the sine and the
/// cosine of the doubled pilot.
pub struct CarrierChoice {
    pilot_lock_count: u32,
    use_cos_carrier: Option<bool>,
}

impl CarrierChoice {
    /// The number of samples seen, which stops at the largest number.
    pub closed spec fn seen(&self) -> int {
        self.pilot_lock_count as int
    }

    /// The choice: `Some(true)` stands for the cosine.
    pub closed spec fn choice(&self) -> Option<bool> {
        self.use_cos_carrier
    }

    pub fn new() -> (r: Self)
        ensures
            r.seen() == 0,
            r.choice() == None::<bool>,
    {
        CarrierChoice { pilot_lock_count: 0, use_cos_carrier: None }
    }

    /// Takes note of one more sample. `cos_stronger` says which phase has shown
    /// more energy so far. Returns whether the cosine is to be used.
    pub fn observe(&mut self, cos_stronger: bool) -> (use_cos: bool)
        ensures
            final(self).seen() == next_seen(old(self).seen()),
            final(self).choice() == next_choice(
                old(self).seen(),
                old(self).choice(),
                cos_stronger,
            ),
            use_cos == (final(self).choice() == Some(true)),
    {
        if self.pilot_lock_count < u32::MAX {
            self.pilot_lock_count = self.pilot_lock_count + 1;
        }
        if self.use_cos_carrier.is_none() && self.pilot_lock_count >= CARRIER_SETTLE_SAMPLES {
            self.use_cos_carrier = Some(cos_stronger);
        }
        match self.use_cos_carrier {
            Some(c) => c,
            None => false,
        }
    }
}

pub open spec fn next_seen(seen: int) -> int {
    if seen < u32::MAX {
        seen + 1
    } else {
        seen
    }
}

pub open spec fn next_choice(seen: int, choice: Option<bool>, cos_stronger: bool) -> Option<bool> {
    if choice is Some {
        choice
    } else if next_seen(seen) >= CARRIER_SETTLE_SAMPLES {
        Some(cos_stronger)
    } else {
        None
    }
}

/// The choice after a series of samples.
pub open spec fn choice_after(energies: Seq<bool>, n: int) -> Option<bool>
    decreases n,
{
    if n <= 0 {
        None
    } else {
        next_choice(n - 1, choice_after(energies, n - 1), energies[n - 1])
    }
}

/// The choice is made by the sample at which the loop counts as settled, and
/// stays: what comes before or after has no influence on it.
pub proof fn lemma_choice_is_final(energies: Seq<bool>, n: int)
    requires
        0 <= n <= energies.len(),
        n <= u32::MAX,
    ensures
        choice_after(energies, n) == (if n < CARRIER_SETTLE_SAMPLES {
            None
        } else {
            Some(energies[CARRIER_SETTLE_SAMPLES - 1])
        }),
    decreases n,
{
    if n > 0 {
        lemma_choice_is_final(energies, n - 1);
    }
}

/// One more sample: a choice that was made stays; otherwise the sample decides if
/// it is the eight thousandth or a later one. Samples are counted up to the
/// largest number.
pub proof fn lemma_one_more_sample(seen: int, choice: Option<bool>, cos_stronger: bool)
    requires
        0 <= seen <= u32::MAX,
    ensures
        seen < u32::MAX ==> next_seen(seen) == seen + 1,
        next_seen(u32::MAX as int) == u32::MAX,
        choice is Some ==> next_choice(seen, choice, cos_stronger) == choice,
        choice is None && seen < 7_999 ==> next_choice(seen, choice, cos_stronger) is None,
        choice is None && seen >= 7_999 ==> next_choice(seen, choice, cos_stronger) == Some(
            cos_stronger,
        ),
{
}

} // verus!
