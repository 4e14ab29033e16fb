//! Time-driven effects: blinking and fading.

use vstd::prelude::*;

use crate::clock::{elapsed_millis, instant_now};

verus! {

/// Opacity of a fully shown color, in percent.
pub const FULL_OPACITY_PERCENT: u8 = 100;
/// Opacity lost at each fading tick, in percent.
pub const FADE_PERCENT_PER_TICK: u8 = 5;
/// Shortest time between two fading ticks, in milliseconds (one frame).
pub const FRAME_DURATION_MS: u64 = 33;

/// Which phase of `phase_duration_ms` milliseconds `elapsed_ms` falls in.
pub open spec fn phase_at(elapsed_ms: u64, phase_duration_ms: u64) -> u64 {
    elapsed_ms / phase_duration_ms
}

/// Which phase of `phase_duration_ms` milliseconds `elapsed_ms` falls in.
pub fn phase_of(elapsed_ms: u64, phase_duration_ms: u64) -> (phase: u64)
    requires
        phase_duration_ms > 0,
    ensures
        phase == phase_at(elapsed_ms, phase_duration_ms),
{
    elapsed_ms / phase_duration_ms
}

/// The phase of `phase_duration_ms` milliseconds that the time elapsed since
/// `start_time` falls in. The clock's reading is not stated: the phase is that
/// of some elapsed time.
pub fn elapsed_phase(start_time: &std::time::Instant, phase_duration_ms: u64) -> (phase: u64)
    requires
        phase_duration_ms > 0,
    ensures
        exists|elapsed_ms: u64| phase == #[trigger] phase_at(elapsed_ms, phase_duration_ms),
{
    let elapsed_ms = elapsed_millis(start_time);
    phase_of(elapsed_ms, phase_duration_ms)
}

// =============================================================================
// Blinking
// =============================================================================

/// Length of a blinking phase, in milliseconds.
pub const BLINKING_PHASE_DURATION_MS: u64 = 475;

/// Whether a blink is in a visible phase `elapsed_ms` after its start: the
/// odd phases are visible.
pub open spec fn blinking_visible(elapsed_ms: u64) -> bool {
    phase_at(elapsed_ms, BLINKING_PHASE_DURATION_MS) % 2 == 1
}

/// Whether a blink has gone through its three phases `elapsed_ms` after its
/// start.
pub open spec fn blinking_finished(elapsed_ms: u64) -> bool {
    phase_at(elapsed_ms, BLINKING_PHASE_DURATION_MS) >= 3
}

/// A blink: hidden and shown in turns of 475 ms from its start.
#[derive(Copy, Clone)]
pub struct Blinking {
    start_time: std::time::Instant,
}

impl Blinking {
    /// The instant the blink started at.
    pub closed spec fn spec_start_time(&self) -> std::time::Instant {
        self.start_time
    }

    /// A blink starting now.
    pub fn new() -> Blinking {
        Blinking { start_time: instant_now() }
    }

    /// A blink that started at `start_time`.
    pub fn started_at(start_time: std::time::Instant) -> (blinking: Blinking)
        ensures
            blinking.spec_start_time() == start_time,
    {
        Blinking { start_time }
    }

    /// Whether the blink is in a visible phase `elapsed_ms` after its start.
    pub fn is_visible_after(elapsed_ms: u64) -> (visible: bool)
        ensures
            visible == blinking_visible(elapsed_ms),
    {
        phase_of(elapsed_ms, BLINKING_PHASE_DURATION_MS) % 2 != 0
    }

    /// Whether the blink's three phases are over `elapsed_ms` after its start.
    pub fn is_finished_after(elapsed_ms: u64) -> (finished: bool)
        ensures
            finished == blinking_finished(elapsed_ms),
    {
        phase_of(elapsed_ms, BLINKING_PHASE_DURATION_MS) >= 3
    }

    /// The milliseconds since the blink started, read from the clock. The
    /// clock's reading is not stated.
    pub fn elapsed_ms(&self) -> u64 {
        elapsed_millis(&self.start_time)
    }

    /// Whether the blink is in a visible phase now. The clock's reading is not
    /// stated: the answer is that for some elapsed time.
    pub fn is_visible_phase(&self) -> (visible: bool)
        ensures
            exists|elapsed_ms: u64| visible == #[trigger] blinking_visible(elapsed_ms),
    {
        Self::is_visible_after(elapsed_millis(&self.start_time))
    }

    /// Whether the blink's three phases are over now. The clock's reading is
    /// not stated: the answer is that for some elapsed time.
    pub fn is_finished(&self) -> (finished: bool)
        ensures
            exists|elapsed_ms: u64| finished == #[trigger] blinking_finished(elapsed_ms),
    {
        Self::is_finished_after(elapsed_millis(&self.start_time))
    }
}

// =============================================================================
// Fading
// =============================================================================

/// Number of ticks over which a color fades out.
pub const NUM_FADE_TICKS: u8 = 20;

/// Opacity, in percent, with `ticks_remaining` ticks to go.
pub open spec fn opacity_with(ticks_remaining: u8) -> u8 {
    let fade_ticks = if ticks_remaining < NUM_FADE_TICKS {
        ticks_remaining
    } else {
        NUM_FADE_TICKS
    };
    (fade_ticks * FADE_PERCENT_PER_TICK) as u8
}

/// A color that stays opaque for some ticks and then fades out by 5 percent
/// per tick, at most one tick per frame.
pub struct Fading {
    ticks_remaining: u8,
    last_update_time: Option<std::time::Instant>,
}

impl Fading {
    /// Every fading keeps at least its last tick.
    #[verifier::type_invariant]
    spec fn keeps_last_tick(self) -> bool {
        self.ticks_remaining >= 1
    }

    /// Ticks still to go.
    pub closed spec fn spec_ticks_remaining(&self) -> u8 {
        self.ticks_remaining
    }

    /// Whether a tick has been taken yet.
    pub closed spec fn has_ticked(&self) -> bool {
        self.last_update_time.is_some()
    }

    /// A fading that stays opaque for `num_ticks_while_opaque` ticks, then
    /// fades over 20 ticks.
    pub fn new(num_ticks_while_opaque: u8) -> (fading: Fading)
        requires
            num_ticks_while_opaque + NUM_FADE_TICKS <= u8::MAX,
        ensures
            fading.spec_ticks_remaining() == num_ticks_while_opaque + NUM_FADE_TICKS,
            !fading.has_ticked(),
    {
        Fading { ticks_remaining: num_ticks_while_opaque + NUM_FADE_TICKS, last_update_time: None }
    }

    /// The opacity, in percent: full while more than 20 ticks remain, then 5
    /// percent per remaining tick; so between 5 and 100, in steps of 5.
    pub fn opacity_percent(&self) -> (opacity: u8)
        ensures
            opacity == opacity_with(self.spec_ticks_remaining()),
            opacity == 5 * (if self.spec_ticks_remaining() < 20 {
                self.spec_ticks_remaining() as int
            } else {
                20
            }),
            5 <= opacity <= 100,
            opacity % 5 == 0,
    {
        proof {
            use_type_invariant(self);
        }
        let fade_ticks = if self.ticks_remaining < NUM_FADE_TICKS {
            self.ticks_remaining
        } else {
            NUM_FADE_TICKS
        };
        if FULL_OPACITY_PERCENT / FADE_PERCENT_PER_TICK * FADE_PERCENT_PER_TICK == FULL_OPACITY_PERCENT {
            fade_ticks * FADE_PERCENT_PER_TICK
        } else {
            FULL_OPACITY_PERCENT - (NUM_FADE_TICKS - fade_ticks) * FADE_PERCENT_PER_TICK
        }
    }

    /// Takes one tick at `now`: one tick fewer remains, unless only the last
    /// one is left, where the fading reports that it is over.
    pub fn advance(&mut self, now: std::time::Instant) -> (going_on: bool)
        ensures
            going_on == (old(self).spec_ticks_remaining() > 1),
            final(self).spec_ticks_remaining() == (if going_on {
                (old(self).spec_ticks_remaining() - 1) as u8
            } else {
                old(self).spec_ticks_remaining()
            }),
            final(self).has_ticked(),
    {
        proof {
            use_type_invariant(&*self);
        }
        self.last_update_time = Some(now);
        if self.ticks_remaining <= 1 {
            return false;
        }
        self.ticks_remaining = self.ticks_remaining - 1;
        true
    }

    /// The milliseconds since the last tick, read from the clock; `None`
    /// before the first tick. The clock's reading is not stated.
    pub fn since_last_update(&self) -> (since: Option<u64>)
        ensures
            since is Some == self.has_ticked(),
    {
        match &self.last_update_time {
            Some(last_update_time) => Some(elapsed_millis(last_update_time)),
            None => None,
        }
    }

    /// Takes one tick, unless the last one was taken less than a frame
    /// (33 ms) ago, `since_last` being the time since it (`None` where none
    /// was taken yet): then nothing changes and the fading goes on. Reports
    /// whether the fading goes on.
    pub fn update_after(&mut self, since_last: Option<u64>) -> (going_on: bool)
        ensures
            fading_stepped(*old(self), *final(self), since_last, going_on),
            opacity_with(final(self).spec_ticks_remaining()) <= opacity_with(old(self).spec_ticks_remaining()),
    {
        proof {
            use_type_invariant(&*self);
        }
        let within_frame = match since_last {
            Some(d) => d < FRAME_DURATION_MS,
            None => false,
        };
        if within_frame {
            return true;
        }
        self.advance(instant_now())
    }

    /// Takes one tick, unless one was taken less than a frame ago, as
    /// [`Fading::update_after`] does with the time since the last tick read
    /// from the clock; the first tick is always taken. The clock's reading is
    /// not stated.
    pub fn update(&mut self) -> (going_on: bool)
        ensures
            exists|since_last: Option<u64>|
                since_last is Some == old(self).has_ticked() && #[trigger] fading_stepped(
                    *old(self),
                    *final(self),
                    since_last,
                    going_on,
                ),
            opacity_with(final(self).spec_ticks_remaining()) <= opacity_with(old(self).spec_ticks_remaining()),
    {
        let since_last = self.since_last_update();
        self.update_after(since_last)
    }
}

/// What a step of a fading does, `since_last` being the time since its last
/// tick (`None` before the first) and `going_on` its result: within a frame of
/// the last tick nothing changes and the fading goes on; else a tick is taken
/// (one tick fewer remains, unless only the last is left, where the fading is
/// over).
pub open spec fn fading_stepped(before: Fading, after: Fading, since_last: Option<u64>, going_on: bool) -> bool {
    if since_last matches Some(d) && d < FRAME_DURATION_MS {
        going_on && after == before
    } else {
        &&& going_on == (before.spec_ticks_remaining() > 1)
        &&& after.spec_ticks_remaining() == (if going_on {
            (before.spec_ticks_remaining() - 1) as u8
        } else {
            before.spec_ticks_remaining()
        })
        &&& after.has_ticked()
    }
}

/// A fading's opacity never rises as its ticks pass: fewer remaining ticks
/// never give a higher opacity. It is full while 20 or more ticks remain, and
/// 5 percent with the last tick, which a fading never passes.
pub proof fn lemma_opacity_never_rises(fewer: u8, more: u8)
    requires
        fewer <= more,
    ensures
        opacity_with(fewer) <= opacity_with(more),
        more >= NUM_FADE_TICKS ==> opacity_with(more) == FULL_OPACITY_PERCENT,
        opacity_with(1) == FADE_PERCENT_PER_TICK,
{
}

/// A fading keeps at least its last tick, and each step never raises its
/// opacity, which stays five percent per remaining tick, at most 20 of them:
/// between 5 and 100 percent, in steps of 5. Every [`Fading`] keeps its last
/// tick (it starts with at least 20), so this holds of each of its steps.
pub proof fn lemma_fading_step_keeps_opacity(before: Fading, after: Fading, since_last: Option<u64>, going_on: bool)
    requires
        before.spec_ticks_remaining() >= 1,
        fading_stepped(before, after, since_last, going_on),
    ensures
        after.spec_ticks_remaining() >= 1,
        opacity_with(after.spec_ticks_remaining()) <= opacity_with(before.spec_ticks_remaining()),
        opacity_with(after.spec_ticks_remaining()) == 5 * (if after.spec_ticks_remaining() < 20 {
            after.spec_ticks_remaining() as int
        } else {
            20
        }),
        5 <= opacity_with(after.spec_ticks_remaining()) <= 100,
        opacity_with(after.spec_ticks_remaining()) % 5 == 0,
{
    lemma_opacity_never_rises(after.spec_ticks_remaining(), before.spec_ticks_remaining());
}

/// Whether each step of a run of fading steps came at least a frame after the
/// tick before it (or before any tick).
pub open spec fn unthrottled(since: Seq<Option<u64>>) -> bool {
    forall|i: int| 0 <= i < since.len() ==> !(#[trigger] since[i] matches Some(d) && d < FRAME_DURATION_MS)
}

/// A run of steps of a fading, each a frame or more after the last tick: with
/// `t` ticks at the start, the first `t - 1` steps go on, every later one
/// reports the fading over, and after `i` steps `t - i` ticks remain, never
/// fewer than one.
pub proof fn lemma_unthrottled_fading_run(fadings: Seq<Fading>, since: Seq<Option<u64>>, going_on: Seq<bool>)
    requires
        fadings.len() == going_on.len() + 1,
        since.len() == going_on.len(),
        fadings[0].spec_ticks_remaining() >= 1,
        unthrottled(since),
        forall|i: int|
            0 <= i < going_on.len() ==> #[trigger] fading_stepped(fadings[i], fadings[i + 1], since[i], going_on[i]),
    ensures
        forall|i: int|
            0 <= i < going_on.len() ==> #[trigger] going_on[i] == (i < fadings[0].spec_ticks_remaining() - 1),
        forall|i: int|
            0 <= i < fadings.len() ==> (#[trigger] fadings[i]).spec_ticks_remaining() == (if i
                < fadings[0].spec_ticks_remaining() {
                fadings[0].spec_ticks_remaining() - i
            } else {
                1
            }),
    decreases going_on.len(),
{
    if going_on.len() > 0 {
        let k = going_on.len() - 1;
        let shorter = fadings.subrange(0, fadings.len() - 1);
        lemma_unthrottled_fading_run(shorter, since.subrange(0, k), going_on.subrange(0, k));
        let t0 = fadings[0].spec_ticks_remaining() as int;
        assert forall|i: int| 0 <= i < fadings.len() - 1 implies (#[trigger] fadings[i]).spec_ticks_remaining() == (if i
            < t0 {
            t0 - i
        } else {
            1
        }) by {
            assert(fadings[i] == shorter[i]);
        }
        assert(!(since[k] matches Some(d) && d < FRAME_DURATION_MS));
        assert(fading_stepped(fadings[k], fadings[k + 1], since[k], going_on[k]));
        assert forall|i: int| 0 <= i < going_on.len() implies #[trigger] going_on[i] == (i < t0 - 1) by {
            if i < k {
                assert(going_on[i] == going_on.subrange(0, k)[i]);
            }
        }
    }
}

} // verus!
