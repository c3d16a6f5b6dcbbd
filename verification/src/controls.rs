//! Keys, and the filter that drops key repeats.
//!
//! Points in time are nanoseconds since some start of counting.

use vstd::prelude::*;

verus! {

/// A key of the terminal, as far as this program tells keys apart.
#[derive(Clone, Copy, Debug, PartialEq, Eq, Structural)]
pub enum Key {
    Char(char),
    Up,
    Down,
    Left,
    Right,
    Enter,
    Esc,
    Backspace,
    Other,
}

/// A key counts as released when it was silent for longer than this.
pub const RELEASE_GAP_NANOS: u64 = 150_000_000;

/// Keys of which a held one acts only once.
pub open spec fn repeat_filtered(key: Key) -> bool {
    match key {
        Key::Up | Key::Down | Key::Left | Key::Right => true,
        Key::Char(c) => c == '+' || c == '=' || c == '-' || c == '_' || c == '.' || c == ',' || c
            == '>' || c == '<',
        _ => false,
    }
}

/// The time from `earlier` to `later`, nothing if they are the wrong way round.
pub open spec fn elapsed(earlier: int, later: int) -> int {
    if later < earlier {
        0
    } else {
        later - earlier
    }
}

/// What the filter knows.
pub struct FilterState {
    /// The key that acted last and was not released since.
    pub held: Option<Key>,
    /// When a filtered key was last heard of.
    pub last_seen: int,
}

/// Time goes by: the held key is released when it was silent for too long.
pub open spec fn after_tick(st: FilterState, now: int) -> FilterState {
    if st.held is Some && elapsed(st.last_seen, now) > RELEASE_GAP_NANOS {
        FilterState { held: None, ..st }
    } else {
        st
    }
}

/// A key is released.
pub open spec fn after_release(st: FilterState, key: Key) -> FilterState {
    if st.held == Some(key) {
        FilterState { held: None, ..st }
    } else {
        st
    }
}

/// A repeat of a key is heard that is not to act.
pub open spec fn after_observe(st: FilterState, key: Key, now: int) -> FilterState {
    if repeat_filtered(key) {
        FilterState { last_seen: now, ..st }
    } else {
        st
    }
}

/// Whether a press is to act.
pub open spec fn allowed(st: FilterState, key: Key) -> bool {
    !repeat_filtered(key) || st.held != Some(key)
}

/// A key is pressed.
pub open spec fn after_allow(st: FilterState, key: Key, now: int) -> FilterState {
    if repeat_filtered(key) {
        FilterState { held: Some(key), last_seen: now }
    } else {
        FilterState { held: None, ..st }
    }
}

/// Only filtered keys are ever held.
pub open spec fn filter_wf(st: FilterState) -> bool {
    st.held matches Some(key) ==> repeat_filtered(key)
}

/// Drops the repeats of a held key, so that it acts once per press.
///
/// Terminals often report a held key as a series of presses without a release.
/// The filter keeps the last key that acted and the time of the latest event of
/// a filtered key. The key is let go on its release, or when no event came for a
/// while (`tick`).
pub struct RepeatFilter {
    held_key: Option<Key>,
    last_seen: u64,
}

impl View for RepeatFilter {
    type V = FilterState;

    closed spec fn view(&self) -> FilterState {
        FilterState { held: self.held_key, last_seen: self.last_seen as int }
    }
}

impl RepeatFilter {
    pub closed spec fn wf(&self) -> bool {
        filter_wf(self@)
    }

    pub fn new(now: u64) -> (r: Self)
        ensures
            r.wf(),
            r@ == (FilterState { held: None, last_seen: now as int }),
    {
        RepeatFilter { held_key: None, last_seen: now }
    }

    /// To be called in each turn of the main loop, so that a released key can be
    /// pressed again.
    pub fn tick(&mut self, now: u64)
        requires
            old(self).wf(),
        ensures
            final(self).wf(),
            final(self)@ == after_tick(old(self)@, now as int),
    {
        if self.held_key.is_some() && now >= self.last_seen && now - self.last_seen
            > RELEASE_GAP_NANOS {
            self.held_key = None;
        }
    }

    pub fn release(&mut self, code: Key)
        requires
            old(self).wf(),
        ensures
            final(self).wf(),
            final(self)@ == after_release(old(self)@, code),
    {
        if self.is_held(code) {
            self.held_key = None;
        }
    }

    /// Takes note of a key event that is not to act, such as a repeat.
    pub fn observe(&mut self, code: Key, now: u64)
        requires
            old(self).wf(),
        ensures
            final(self).wf(),
            final(self)@ == after_observe(old(self)@, code, now as int),
    {
        if Self::is_repeat_filtered(code) {
            self.last_seen = now;
        }
    }

    /// Whether this press is to act.
    pub fn allow(&mut self, code: Key, now: u64) -> (r: bool)
        requires
            old(self).wf(),
        ensures
            final(self).wf(),
            r == allowed(old(self)@, code),
            final(self)@ == after_allow(old(self)@, code, now as int),
    {
        if !Self::is_repeat_filtered(code) {
            self.held_key = None;
            return true;
        }
        self.last_seen = now;
        if self.is_held(code) {
            return false;
        }
        self.held_key = Some(code);
        true
    }

    fn is_held(&self, code: Key) -> (r: bool)
        ensures
            r == (self@.held == Some(code)),
    {
        match self.held_key {
            Some(key) => key == code,
            None => false,
        }
    }

    fn is_repeat_filtered(code: Key) -> (r: bool)
        ensures
            r == repeat_filtered(code),
    {
        match code {
            Key::Up | Key::Down | Key::Left | Key::Right => true,
            Key::Char(c) => c == '+' || c == '=' || c == '-' || c == '_' || c == '.' || c == ','
                || c == '>' || c == '<',
            _ => false,
        }
    }
}

pub fn is_volume_up(c: char) -> (r: bool)
    ensures
        r == (c == '+' || c == '='),
{
    c == '+' || c == '='
}

pub fn is_volume_down(c: char) -> (r: bool)
    ensures
        r == (c == '-' || c == '_'),
{
    c == '-' || c == '_'
}

/// The time between two frames of the display.
pub const FRAME_NANOS: u64 = 16_000_000;

/// The number of events that are taken between two frames.
pub const MAX_EVENTS_PER_FRAME: usize = 2;

/// How many milliseconds the main loop waits for a key when the last frame was
/// drawn `elapsed` ago: up to the next frame, but at least one.
pub fn poll_millis(elapsed: u64) -> (r: u64)
    ensures
        elapsed > FRAME_NANOS - 2_000_000 ==> r == 1,
        elapsed <= FRAME_NANOS - 2_000_000 ==> r == (FRAME_NANOS - elapsed) / 1_000_000,
{
    if elapsed > FRAME_NANOS - 2_000_000 {
        1
    } else {
        (FRAME_NANOS - elapsed) / 1_000_000
    }
}

// ---------------------------------------------------------------------------
// Properties of the filter
// ---------------------------------------------------------------------------

/// An event of the terminal or a turn of the main loop.
pub enum FilterEvent {
    Tick(int),
    Press(Key, int),
    Repeat(Key, int),
    Release(Key),
}

pub open spec fn after_event(st: FilterState, e: FilterEvent) -> FilterState {
    match e {
        FilterEvent::Tick(now) => after_tick(st, now),
        FilterEvent::Press(key, now) => after_allow(st, key, now),
        FilterEvent::Repeat(key, now) => after_observe(st, key, now),
        FilterEvent::Release(key) => after_release(st, key),
    }
}

pub open spec fn after_events(st: FilterState, events: Seq<FilterEvent>) -> FilterState
    decreases events.len(),
{
    if events.len() == 0 {
        st
    } else {
        after_event(after_events(st, events.drop_last()), events.last())
    }
}

/// The latest time at which a filtered key was heard of.
pub open spec fn last_heard(st: FilterState, events: Seq<FilterEvent>) -> int
    decreases events.len(),
{
    if events.len() == 0 {
        st.last_seen
    } else {
        let before = last_heard(st, events.drop_last());
        match events.last() {
            FilterEvent::Press(key, now) => if repeat_filtered(key) {
                now
            } else {
                before
            },
            FilterEvent::Repeat(key, now) => if repeat_filtered(key) {
                now
            } else {
                before
            },
            _ => before,
        }
    }
}

/// Event `i` keeps a held key held: it is a press of that key, a repeat of any
/// key, a release of another key, or a tick within the gap since the key was
/// last heard of.
pub open spec fn keeps_held(st: FilterState, events: Seq<FilterEvent>, i: int, key: Key) -> bool {
    match events[i] {
        FilterEvent::Press(k, now) => k == key,
        FilterEvent::Repeat(k, now) => true,
        FilterEvent::Release(k) => k != key,
        FilterEvent::Tick(now) => elapsed(last_heard(st, events.take(i)), now)
            <= RELEASE_GAP_NANOS,
    }
}

/// A held key acts once: after it acted, no further press of it acts as long as
/// it is not released, no other key is pressed, and its repeats leave no gap.
pub proof fn lemma_held_key_acts_once(st: FilterState, events: Seq<FilterEvent>, key: Key)
    requires
        st.held == Some(key),
        repeat_filtered(key),
        forall|i: int| 0 <= i < events.len() ==> #[trigger] keeps_held(st, events, i, key),
    ensures
        after_events(st, events).held == Some(key),
        after_events(st, events).last_seen == last_heard(st, events),
        !allowed(after_events(st, events), key),
    decreases events.len(),
{
    if events.len() > 0 {
        let before = events.drop_last();
        assert forall|i: int| 0 <= i < before.len() implies #[trigger] keeps_held(
            st,
            before,
            i,
            key,
        ) by {
            assert(keeps_held(st, events, i, key));
            assert(before.take(i) =~= events.take(i));
        }
        lemma_held_key_acts_once(st, before, key);
        assert(keeps_held(st, events, events.len() - 1, key));
        assert(events.take(events.len() - 1) =~= before);
    }
}

/// A key that was released can act again, whatever was held.
pub proof fn lemma_release_rearms(st: FilterState, key: Key)
    ensures
        allowed(after_release(st, key), key),
{
}

/// A key that was silent for longer than the gap can act again.
pub proof fn lemma_idle_rearms(st: FilterState, key: Key, now: int)
    requires
        now - st.last_seen > RELEASE_GAP_NANOS,
    ensures
        allowed(after_tick(st, now), key),
{
}

/// A press of one key lets every other key act.
pub proof fn lemma_other_key_rearms(st: FilterState, pressed: Key, key: Key, now: int)
    requires
        pressed != key,
    ensures
        allowed(after_allow(st, pressed, now), key),
{
}

/// Keys outside the filter always act.
pub proof fn lemma_unfiltered_always_acts(st: FilterState, key: Key)
    requires
        !repeat_filtered(key),
    ensures
        allowed(st, key),
{
}

/// The keys that act once while they are held: the arrows, and those for the volume
/// and for tuning. No other key is filtered.
pub proof fn lemma_filtered_keys(key: Key)
    ensures
        repeat_filtered(key) <==> seq![
            Key::Up,
            Key::Down,
            Key::Left,
            Key::Right,
            Key::Char('+'),
            Key::Char('='),
            Key::Char('-'),
            Key::Char('_'),
            Key::Char('.'),
            Key::Char(','),
            Key::Char('>'),
            Key::Char('<'),
        ].contains(key),
{
    let keys = seq![
        Key::Up,
        Key::Down,
        Key::Left,
        Key::Right,
        Key::Char('+'),
        Key::Char('='),
        Key::Char('-'),
        Key::Char('_'),
        Key::Char('.'),
        Key::Char(','),
        Key::Char('>'),
        Key::Char('<'),
    ];
    assert(keys[0] == Key::Up && keys[1] == Key::Down && keys[2] == Key::Left && keys[3]
        == Key::Right && keys[4] == Key::Char('+') && keys[5] == Key::Char('=') && keys[6]
        == Key::Char('-') && keys[7] == Key::Char('_') && keys[8] == Key::Char('.') && keys[9]
        == Key::Char(',') && keys[10] == Key::Char('>') && keys[11] == Key::Char('<'));
    if keys.contains(key) {
        let i = choose|i: int| 0 <= i < keys.len() && keys[i] == key;
        assert(i == 0 || i == 1 || i == 2 || i == 3 || i == 4 || i == 5 || i == 6 || i == 7 || i
            == 8 || i == 9 || i == 10 || i == 11);
    }
}

/// A turn of the main loop lets the held key go when more than 150 ms went by since
/// a filtered key was heard of, and not before; it changes nothing else.
pub proof fn lemma_tick(st: FilterState, now: int)
    ensures
        after_tick(st, now).last_seen == st.last_seen,
        now - st.last_seen > 150_000_000 ==> after_tick(st, now).held is None,
        now - st.last_seen <= 150_000_000 ==> after_tick(st, now) == st,
{
}

/// A release lets the key go that is held, and no other.
pub proof fn lemma_release(st: FilterState, key: Key)
    ensures
        after_release(st, key).last_seen == st.last_seen,
        st.held == Some(key) ==> after_release(st, key).held is None,
        st.held != Some(key) ==> after_release(st, key) == st,
{
}

/// A repeat does not change which key is held. Only one of a filtered key counts as
/// heard of.
pub proof fn lemma_observe(st: FilterState, key: Key, now: int)
    ensures
        after_observe(st, key, now).held == st.held,
        repeat_filtered(key) ==> after_observe(st, key, now).last_seen == now,
        !repeat_filtered(key) ==> after_observe(st, key, now).last_seen == st.last_seen,
{
}

/// A press of a filtered key holds it from now on, and acts unless the key was held
/// before. A press of another key acts, lets go of what is held, and leaves the
/// time.
pub proof fn lemma_press(st: FilterState, key: Key, now: int)
    ensures
        repeat_filtered(key) ==> {
            &&& after_allow(st, key, now).held == Some(key)
            &&& after_allow(st, key, now).last_seen == now
            &&& allowed(st, key) <==> st.held != Some(key)
        },
        !repeat_filtered(key) ==> {
            &&& after_allow(st, key, now).held is None
            &&& after_allow(st, key, now).last_seen == st.last_seen
            &&& allowed(st, key)
        },
{
}

/// The display is drawn about sixty times a second, two events are taken between two
/// frames, and 150 ms let a key go.
pub proof fn lemma_pace()
    ensures
        FRAME_NANOS == 16_000_000,
        MAX_EVENTS_PER_FRAME == 2,
        RELEASE_GAP_NANOS == 150_000_000,
{
}

/// The main loop waits for whole milliseconds, at least one; otherwise the wait ends
/// before the next frame, and less than a millisecond before it.
pub proof fn lemma_poll(elapsed: u64, r: u64)
    requires
        call_ensures(poll_millis, (elapsed,), r),
    ensures
        1 <= r <= 16,
        r > 1 ==> elapsed + 1_000_000 * r <= 16_000_000,
        elapsed + 1_000_000 * (r + 1) > 16_000_000,
{
}

/// The keys for the volume are two in each direction, and none is for both.
pub proof fn lemma_volume_chars(c: char, up: bool, down: bool)
    requires
        call_ensures(is_volume_up, (c,), up),
        call_ensures(is_volume_down, (c,), down),
    ensures
        !(up && down),
        up || down <==> c == '+' || c == '=' || c == '-' || c == '_',
        c == '+' || c == '=' ==> up,
{
}

} // verus!
