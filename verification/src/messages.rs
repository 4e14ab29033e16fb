//! The messages shown above the board.

use vstd::prelude::*;

use crate::palette::{GAME_OVER_COLOR_SOURCE, GET_READY_COLOR_SOURCE, LEVEL_UP_COLOR_SOURCE, PAUSED_COLOR_SOURCE};
use crate::visual_effects::{fading_stepped, lemma_unthrottled_fading_run, unthrottled, opacity_with, Blinking, Fading, FADE_PERCENT_PER_TICK, FULL_OPACITY_PERCENT};

verus! {

/// The kinds of message.
#[derive(Copy, Clone, Debug, PartialEq, Eq, Structural)]
pub enum MessageVariant {
    GetReady,
    LevelUp,
    Paused,
    GameOver,
}

enum MessageKind {
    GetReady(Fading),
    LevelUp(Fading),
    Paused,
    GameOver(Blinking),
}

/// A message with its effect: "Get ready!" and "Level up!" fade out,
/// "Game over!" blinks, "Paused..." stays.
pub struct Message {
    kind: MessageKind,
}

/// The text of each kind of message.
pub open spec fn message_text(v: MessageVariant) -> Seq<char> {
    match v {
        MessageVariant::GetReady => "Get ready!"@,
        MessageVariant::LevelUp => "Level up!"@,
        MessageVariant::Paused => "Paused..."@,
        MessageVariant::GameOver => "Game over!"@,
    }
}

/// The full-opacity color of each kind of message.
pub open spec fn message_color_source(v: MessageVariant) -> Seq<u8> {
    match v {
        MessageVariant::GetReady => GET_READY_COLOR_SOURCE@,
        MessageVariant::LevelUp => LEVEL_UP_COLOR_SOURCE@,
        MessageVariant::Paused => PAUSED_COLOR_SOURCE@,
        MessageVariant::GameOver => GAME_OVER_COLOR_SOURCE@,
    }
}

/// What a step of a message's effect does, `since_last` being the time since
/// the last tick of a fading message (`None` before its first) and `shown`
/// whether the message is still to be shown: "Paused..." and "Game over!" stay
/// as they are and are shown; the fading of "Get ready!" and "Level up!" steps
/// as [`crate::visual_effects::Fading::update_after`] does, and the message
/// is over once its fading is.
pub open spec fn message_stepped(before: Message, after: Message, since_last: Option<u64>, shown: bool) -> bool {
    &&& after.variant() == before.variant()
    &&& !before.is_fading() ==> shown && after == before
    &&& before.is_fading() ==> fading_stepped(before.spec_fading(), after.spec_fading(), since_last, shown)
}

/// What a tick does to a message, the time since its last tick being read
/// from the clock: a step as [`message_stepped`] has it, the first tick of a
/// fading message always taken.
pub open spec fn message_ticked(before: Message, after: Message, shown: bool) -> bool {
    exists|since_last: Option<u64>|
        (before.is_fading() ==> (since_last is Some <==> before.fade_has_ticked())) && #[trigger] message_stepped(
            before,
            after,
            since_last,
            shown,
        )
}

impl Message {
    /// The kind of the message.
    pub closed spec fn variant(&self) -> MessageVariant {
        match self.kind {
            MessageKind::GetReady(_) => MessageVariant::GetReady,
            MessageKind::LevelUp(_) => MessageVariant::LevelUp,
            MessageKind::Paused => MessageVariant::Paused,
            MessageKind::GameOver(_) => MessageVariant::GameOver,
        }
    }

    /// The opacity of the message, in percent.
    pub closed spec fn spec_opacity(&self) -> u8 {
        match self.kind {
            MessageKind::GetReady(f) => opacity_with(f.spec_ticks_remaining()),
            MessageKind::LevelUp(f) => opacity_with(f.spec_ticks_remaining()),
            _ => FULL_OPACITY_PERCENT,
        }
    }

    /// Whether the message fades ("Get ready!" and "Level up!").
    pub open spec fn is_fading(&self) -> bool {
        self.variant() == MessageVariant::GetReady || self.variant() == MessageVariant::LevelUp
    }

    /// The fading of a fading message.
    pub closed spec fn spec_fading(&self) -> Fading {
        match self.kind {
            MessageKind::GetReady(f) => f,
            MessageKind::LevelUp(f) => f,
            _ => vstd::pervasive::arbitrary(),
        }
    }

    /// Whether the fading of a fading message has taken a tick yet.
    pub open spec fn fade_has_ticked(&self) -> bool {
        self.is_fading() && self.spec_fading().has_ticked()
    }

    /// Ticks left to the fading of a fading message.
    pub closed spec fn fade_ticks_remaining(&self) -> u8 {
        match self.kind {
            MessageKind::GetReady(f) => f.spec_ticks_remaining(),
            MessageKind::LevelUp(f) => f.spec_ticks_remaining(),
            _ => 0,
        }
    }

    /// "Get ready!", opaque for one tick and then fading.
    pub fn new_get_ready() -> (m: Message)
        ensures
            m.variant() == MessageVariant::GetReady,
            m.fade_ticks_remaining() == 21,
    {
        Message { kind: MessageKind::GetReady(Fading::new(1)) }
    }

    /// "Level up!", opaque for 28 ticks and then fading.
    pub fn new_level_up() -> (m: Message)
        ensures
            m.variant() == MessageVariant::LevelUp,
            m.fade_ticks_remaining() == 48,
    {
        Message { kind: MessageKind::LevelUp(Fading::new(28)) }
    }

    /// "Paused...".
    pub fn new_paused() -> (m: Message)
        ensures
            m.variant() == MessageVariant::Paused,
    {
        Message { kind: MessageKind::Paused }
    }

    /// "Game over!", blinking from now on.
    pub fn new_game_over() -> (m: Message)
        ensures
            m.variant() == MessageVariant::GameOver,
    {
        Message { kind: MessageKind::GameOver(Blinking::new()) }
    }

    /// The kind of the message.
    pub fn kind(&self) -> (v: MessageVariant)
        ensures
            v == self.variant(),
    {
        match self.kind {
            MessageKind::GetReady(_) => MessageVariant::GetReady,
            MessageKind::LevelUp(_) => MessageVariant::LevelUp,
            MessageKind::Paused => MessageVariant::Paused,
            MessageKind::GameOver(_) => MessageVariant::GameOver,
        }
    }

    /// The text of the message.
    pub fn text(&self) -> (t: &'static str)
        ensures
            t@ == message_text(self.variant()),
    {
        match self.kind {
            MessageKind::GetReady(_) => "Get ready!",
            MessageKind::LevelUp(_) => "Level up!",
            MessageKind::Paused => "Paused...",
            MessageKind::GameOver(_) => "Game over!",
        }
    }

    /// The opacity of the message, in percent.
    pub fn opacity_percent(&self) -> (opacity: u8)
        ensures
            opacity == self.spec_opacity(),
    {
        match &self.kind {
            MessageKind::GetReady(fading) => fading.opacity_percent(),
            MessageKind::LevelUp(fading) => fading.opacity_percent(),
            _ => FULL_OPACITY_PERCENT,
        }
    }

    /// The RGB color of the message: its color scaled by its opacity.
    pub fn color_rgb(&self) -> (rgb: [u8; 3])
        ensures
            rgb@ == seq![
                (message_color_source(self.variant())[0] * self.spec_opacity() / 100) as u8,
                (message_color_source(self.variant())[1] * self.spec_opacity() / 100) as u8,
                (message_color_source(self.variant())[2] * self.spec_opacity() / 100) as u8,
            ],
    {
        let source = match self.kind {
            MessageKind::GetReady(_) => GET_READY_COLOR_SOURCE,
            MessageKind::LevelUp(_) => LEVEL_UP_COLOR_SOURCE,
            MessageKind::Paused => PAUSED_COLOR_SOURCE,
            MessageKind::GameOver(_) => GAME_OVER_COLOR_SOURCE,
        };
        let opacity = self.opacity_percent();
        MessageColor::new(source).with_opacity(opacity)
    }

    /// The blink of "Game over!"; `None` for the other messages.
    pub fn blinking(&self) -> (b: Option<&Blinking>)
        ensures
            b.is_some() == (self.variant() == MessageVariant::GameOver),
    {
        match &self.kind {
            MessageKind::GameOver(blinking) => Some(blinking),
            _ => None,
        }
    }

    /// Lets the message's effect advance, `since_last` being the time since
    /// the last tick of a fading message (`None` before its first); reports
    /// whether the message is still to be shown. A fading message takes at
    /// most one tick per frame and is over after its last tick; the others
    /// stay.
    pub fn tick_after(&mut self, since_last: Option<u64>) -> (shown: bool)
        ensures
            message_stepped(*old(self), *final(self), since_last, shown),
    {
        match &mut self.kind {
            MessageKind::GetReady(fading) => fading.update_after(since_last),
            MessageKind::LevelUp(fading) => fading.update_after(since_last),
            MessageKind::Paused => true,
            MessageKind::GameOver(_) => true,
        }
    }

    /// The milliseconds since the last tick of a fading message, read from
    /// the clock; `None` before its first tick and for the other messages.
    fn since_last_tick(&self) -> (since: Option<u64>)
        ensures
            self.is_fading() ==> (since is Some <==> self.fade_has_ticked()),
    {
        match &self.kind {
            MessageKind::GetReady(fading) => fading.since_last_update(),
            MessageKind::LevelUp(fading) => fading.since_last_update(),
            _ => None,
        }
    }

    /// Lets the message's effect advance, as [`Message::tick_after`] does with
    /// the time since the last tick read from the clock; reports whether the
    /// message is still to be shown. The clock's reading is not stated.
    pub fn tick(&mut self) -> (shown: bool)
        ensures
            message_ticked(*old(self), *final(self), shown),
    {
        let since_last = self.since_last_tick();
        self.tick_after(since_last)
    }
}

// =============================================================================
// Opacity scaling
// =============================================================================

/// Greatest common divisor.
pub open spec fn gcd(a: nat, b: nat) -> nat
    decreases b,
{
    if b == 0 {
        a
    } else {
        gcd(b, a % b)
    }
}

/// The greatest common divisor of `a` and `b`.
pub fn greatest_common_divisor(a: u8, b: u8) -> (d: u8)
    ensures
        d == gcd(a as nat, b as nat),
{
    let ghost g = gcd(a as nat, b as nat);
    let mut x = a;
    let mut y = b;
    while y != 0
        invariant
            gcd(x as nat, y as nat) == g,
        decreases y,
    {
        let r = x % y;
        x = y;
        y = r;
    }
    x
}

/// The greatest common divisor of the three channels of a color.
fn rgb_greatest_common_divisor(rgb: [u8; 3]) -> (d: u8)
    ensures
        d == gcd(gcd(rgb@[0] as nat, rgb@[1] as nat), rgb@[2] as nat),
{
    greatest_common_divisor(greatest_common_divisor(rgb[0], rgb[1]), rgb[2])
}

/// The factor shared by every opacity a message can have: the greatest common
/// divisor of full opacity and the fading step.
fn opacity_reduction_factor() -> (f: u8)
    ensures
        f == 5,
{
    proof {
        reveal_with_fuel(gcd, 3);
    }
    greatest_common_divisor(FULL_OPACITY_PERCENT, FADE_PERCENT_PER_TICK)
}

/// The factor shared by every channel of every message color and by the
/// reduced full opacity.
fn color_reduction_factor() -> (f: u8)
    ensures
        f == 5,
{
    proof {
        reveal_with_fuel(gcd, 8);
        assert(gcd(gcd(0, 195), 0) == 195);
        assert(gcd(20, 195) == 5);
        assert(gcd(gcd(255, 135), 0) == 15);
        assert(gcd(5, 15) == 5);
        assert(gcd(gcd(170, 170), 170) == 170);
        assert(gcd(5, 170) == 5);
        assert(gcd(5, 0) == 5);
        assert(gcd(10, 5) == 5);
        assert(gcd(250, 15) == 5);
        assert(gcd(25, 5) == 5);
        assert(gcd(gcd(250, 15), 25) == 5);
        assert(gcd(5, 5) == 5);
    }
    let mut factor = FULL_OPACITY_PERCENT / opacity_reduction_factor();
    factor = greatest_common_divisor(factor, rgb_greatest_common_divisor(GET_READY_COLOR_SOURCE));
    factor = greatest_common_divisor(factor, rgb_greatest_common_divisor(LEVEL_UP_COLOR_SOURCE));
    factor = greatest_common_divisor(factor, rgb_greatest_common_divisor(PAUSED_COLOR_SOURCE));
    greatest_common_divisor(factor, rgb_greatest_common_divisor(GAME_OVER_COLOR_SOURCE))
}

/// A message color before its opacity is applied.
#[derive(Copy, Clone)]
struct MessageColor([u8; 3]);

impl MessageColor {
    fn new(source: [u8; 3]) -> (c: MessageColor)
        ensures
            c.0 == source,
    {
        MessageColor(source)
    }

    /// The color at `opacity_percent`, channel by channel.
    fn with_opacity(self, opacity_percent: u8) -> (rgb: [u8; 3])
        requires
            self.0@[0] % 5 == 0,
            self.0@[1] % 5 == 0,
            self.0@[2] % 5 == 0,
            opacity_percent % 5 == 0,
        ensures
            rgb@ == seq![
                (self.0@[0] * opacity_percent / 100) as u8,
                (self.0@[1] * opacity_percent / 100) as u8,
                (self.0@[2] * opacity_percent / 100) as u8,
            ],
    {
        let channels = self.0;
        [
            Self::scale(channels[0], opacity_percent),
            Self::scale(channels[1], opacity_percent),
            Self::scale(channels[2], opacity_percent),
        ]
    }

    /// `channel * opacity_percent / 100`, with the common factors cancelled
    /// before multiplying, so that the product stays small.
    fn scale(channel: u8, opacity_percent: u8) -> (scaled: u8)
        requires
            channel % 5 == 0,
            opacity_percent % 5 == 0,
        ensures
            scaled == (channel * opacity_percent / 100) as u8,
    {
        let color_factor = color_reduction_factor();
        let opacity_factor = opacity_reduction_factor();
        let denominator = FULL_OPACITY_PERCENT / opacity_factor / color_factor;
        let c = (channel / color_factor) as u16;
        let o = (opacity_percent / opacity_factor) as u16;
        assert(c * o <= 51 * 51) by (nonlinear_arith)
            requires
                c <= 51,
                o <= 51,
        ;
        assert(c * o / 4 == channel * opacity_percent / 100) by (nonlinear_arith)
            requires
                channel % 5 == 0,
                opacity_percent % 5 == 0,
                c == channel / 5,
                o == opacity_percent / 5,
        ;
        ((c * o) / denominator as u16) as u8
    }
}

proof fn lemma_message_run_keeps_variant(msgs: Seq<Message>, since: Seq<Option<u64>>, shown: Seq<bool>)
    requires
        msgs.len() == shown.len() + 1,
        since.len() == shown.len(),
        forall|i: int| 0 <= i < shown.len() ==> #[trigger] message_stepped(msgs[i], msgs[i + 1], since[i], shown[i]),
    ensures
        forall|i: int| 0 <= i < msgs.len() ==> (#[trigger] msgs[i]).variant() == msgs[0].variant(),
        !msgs[0].is_fading() ==> forall|i: int| 0 <= i < msgs.len() ==> #[trigger] msgs[i] == msgs[0],
    decreases shown.len(),
{
    if shown.len() > 0 {
        let k = shown.len() - 1;
        let shorter = msgs.subrange(0, msgs.len() - 1);
        assert forall|i: int| 0 <= i < k implies #[trigger] message_stepped(
            shorter[i],
            shorter[i + 1],
            since.subrange(0, k)[i],
            shown.subrange(0, k)[i],
        ) by {
            assert(message_stepped(msgs[i], msgs[i + 1], since[i], shown[i]));
        }
        lemma_message_run_keeps_variant(shorter, since.subrange(0, k), shown.subrange(0, k));
        assert(shorter[k] == msgs[k]);
        assert(message_stepped(msgs[k], msgs[k + 1], since[k], shown[k]));
        assert forall|i: int| 0 <= i < msgs.len() implies (#[trigger] msgs[i]).variant() == msgs[0].variant() by {
            if i < msgs.len() - 1 {
                assert(msgs[i] == shorter[i]);
            }
        }
        if !msgs[0].is_fading() {
            assert forall|i: int| 0 <= i < msgs.len() implies #[trigger] msgs[i] == msgs[0] by {
                if i < msgs.len() - 1 {
                    assert(msgs[i] == shorter[i]);
                }
            }
        }
    }
}

/// A run of ticks of a message, each a frame or more after the last: "Paused..."
/// and "Game over!" are shown on every tick and stay as they are; a fading
/// message with `t` ticks to go is shown for its first `t - 1` ticks and is
/// over from then on. "Get ready!" starts with 21 ticks and "Level up!" with
/// 48, so they are shown for 20 and 47 ticks.
pub proof fn lemma_unthrottled_message_run(msgs: Seq<Message>, since: Seq<Option<u64>>, shown: Seq<bool>)
    requires
        msgs.len() == shown.len() + 1,
        since.len() == shown.len(),
        unthrottled(since),
        msgs[0].is_fading() ==> msgs[0].fade_ticks_remaining() >= 1,
        forall|i: int| 0 <= i < shown.len() ==> #[trigger] message_stepped(msgs[i], msgs[i + 1], since[i], shown[i]),
    ensures
        !msgs[0].is_fading() ==> forall|i: int| 0 <= i < shown.len() ==> #[trigger] shown[i] && msgs[i + 1] == msgs[0],
        msgs[0].is_fading() ==> forall|i: int|
            0 <= i < shown.len() ==> #[trigger] shown[i] == (i < msgs[0].fade_ticks_remaining() - 1),
{
    lemma_message_run_keeps_variant(msgs, since, shown);
    if msgs[0].is_fading() {
        let fadings = Seq::new(msgs.len(), |i: int| msgs[i].spec_fading());
        assert forall|i: int| 0 <= i < shown.len() implies #[trigger] fading_stepped(
            fadings[i],
            fadings[i + 1],
            since[i],
            shown[i],
        ) by {
            assert(message_stepped(msgs[i], msgs[i + 1], since[i], shown[i]));
            assert(msgs[i].variant() == msgs[0].variant());
        }
        assert(fadings[0].spec_ticks_remaining() == msgs[0].fade_ticks_remaining());
        lemma_unthrottled_fading_run(fadings, since, shown);
    } else {
        assert forall|i: int| 0 <= i < shown.len() implies #[trigger] shown[i] && msgs[i + 1] == msgs[0] by {
            assert(message_stepped(msgs[i], msgs[i + 1], since[i], shown[i]));
            assert(msgs[i] == msgs[0]);
        }
    }
}

} // verus!
