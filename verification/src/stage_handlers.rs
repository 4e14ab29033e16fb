//! The stages of the program (ready, gameplay, paused, instructions, game
//! over): what each does on a key press and on a tick, and which stage comes
//! next.

use vstd::prelude::*;

use crate::clock::{elapsed_millis, instant_after_millis, instant_now};
use crate::errors::{contextual_error, Error};
use crate::blocks::pile::{empty_cells, no_marks};
use crate::game_state::{
    dropped, fresh_scoring, message_tick_outcome, ticked, ticked_through, moved_sideways, rotated, GameState, GameplayState, INITIAL_TICK_DURATION_MS,
};
use crate::messages::{Message, MessageVariant};
use crate::scoring::{highscore_from_storage, ScoringState};
use crate::visual_effects::{blinking_finished, blinking_visible, elapsed_phase, phase_at, Blinking, FRAME_DURATION_MS};

verus! {

/// The sentence put before an error of starting a game.
pub const ERROR_FAILED_TO_START_GAME: &'static str = "Failed to start the game";

/// How long to wait for a key where nothing moves on its own: one hour.
pub const FRAME_DURATION_IDLE_MS: u64 = 3_600_000;

/// The frame length while paused, which is also how often the gem colors are
/// scrambled.
pub const FRAME_DURATION_PAUSED_MS: u64 = 76;

/// The keys the stages react to.
#[derive(Copy, Clone, Debug, PartialEq, Eq, Structural)]
pub enum Key {
    Enter,
    F1,
    Left,
    Right,
    Up,
    Down,
    /// `0` or Insert: one tick at once.
    Accelerate,
    /// Space: drop the falling column.
    Space,
    Esc,
    Other,
}

// =============================================================================
// Blinking labels
// =============================================================================

/// A number shown on screen that blinks when it grows.
pub struct BlinkingLabel {
    value: u32,
    blinking: Option<Blinking>,
}

impl BlinkingLabel {
    /// The value last seen.
    pub closed spec fn spec_value(&self) -> u32 {
        self.value
    }

    /// Whether the label is blinking.
    pub closed spec fn spec_is_blinking(&self) -> bool {
        self.blinking is Some
    }

    /// The label's blink, where it blinks.
    pub closed spec fn spec_blink(&self) -> Option<Blinking> {
        self.blinking
    }

    /// A label showing `initial_value`, not blinking.
    pub fn new(initial_value: u32) -> (label: BlinkingLabel)
        ensures
            label.spec_value() == initial_value,
            !label.spec_is_blinking(),
    {
        BlinkingLabel { value: initial_value, blinking: None }
    }

    /// Whether the label is shown `elapsed_ms` after its blink started: always
    /// where it does not blink, else in the visible (odd) 475 ms phases of its
    /// blink.
    pub fn is_visible_after(&self, elapsed_ms: u64) -> (visible: bool)
        ensures
            visible == (!self.spec_is_blinking() || blinking_visible(elapsed_ms)),
    {
        match &self.blinking {
            Some(_) => Blinking::is_visible_after(elapsed_ms),
            None => true,
        }
    }

    /// Whether the label is shown now, as [`BlinkingLabel::is_visible_after`]
    /// says with the time since its blink started read from the clock. The
    /// clock's reading is not stated.
    pub fn is_visible(&self) -> (visible: bool)
        ensures
            !self.spec_is_blinking() ==> visible,
            self.spec_is_blinking() ==> exists|elapsed_ms: u64| visible == #[trigger] blinking_visible(elapsed_ms),
    {
        let elapsed_ms = match &self.blinking {
            Some(blinking) => blinking.elapsed_ms(),
            None => 0,
        };
        let visible = self.is_visible_after(elapsed_ms);
        assert(self.spec_is_blinking() ==> visible == blinking_visible(elapsed_ms));
        visible
    }

    /// Follows the shown number, `blink_elapsed` being the time since the
    /// label's blink started (`None` where it does not blink): where the number
    /// grew, the label takes it and starts blinking anew; else a blink whose
    /// phases are over stops, and the label stays as it is otherwise.
    pub fn update_after(&mut self, current_value: u32, blink_elapsed: Option<u64>)
        ensures
            label_stepped(*old(self), *final(self), current_value, blink_elapsed),
    {
        if current_value > self.value {
            self.value = current_value;
            self.blinking = Some(Blinking::new());
        } else {
            let finished = match blink_elapsed {
                Some(elapsed_ms) => self.blinking.is_some() && Blinking::is_finished_after(elapsed_ms),
                None => false,
            };
            if finished {
                self.blinking = None;
            }
        }
    }

    /// Follows the shown number, as [`BlinkingLabel::update_after`] does with
    /// the time since the blink started read from the clock. The clock's
    /// reading is not stated.
    pub fn update(&mut self, current_value: u32)
        ensures
            label_updated(*old(self), *final(self), current_value),
    {
        let blink_elapsed = match &self.blinking {
            Some(blinking) => Some(blinking.elapsed_ms()),
            None => None,
        };
        self.update_after(current_value, blink_elapsed);
    }
}

/// What a step of a label does, `blink_elapsed` being the time since its
/// blink started: a grown number is taken and a new blink starts; else the
/// value stays, and the blink stops only where its phases are over.
pub open spec fn label_stepped(
    before: BlinkingLabel,
    after: BlinkingLabel,
    current_value: u32,
    blink_elapsed: Option<u64>,
) -> bool {
    if current_value > before.spec_value() {
        after.spec_value() == current_value && after.spec_is_blinking()
    } else {
        &&& after.spec_value() == before.spec_value()
        &&& after.spec_is_blinking() == (before.spec_is_blinking() && !(blink_elapsed matches Some(e)
            && blinking_finished(e)))
        &&& after.spec_is_blinking() ==> after.spec_blink() == before.spec_blink()
    }
}

/// What an update of a label does, the time since its blink started being
/// read from the clock.
pub open spec fn label_updated(before: BlinkingLabel, after: BlinkingLabel, current_value: u32) -> bool {
    exists|blink_elapsed: Option<u64>|
        (blink_elapsed is Some <==> before.spec_is_blinking()) && #[trigger] label_stepped(
            before,
            after,
            current_value,
            blink_elapsed,
        )
}

/// What an update of the labels does with the numbers of `scoring`.
pub open spec fn labels_followed(before: BlinkingLabels, after: BlinkingLabels, scoring: ScoringState) -> bool {
    &&& label_updated(before.spec_level(), after.spec_level(), scoring.level)
    &&& label_updated(before.spec_max_combo(), after.spec_max_combo(), scoring.max_combo)
    &&& (before.spec_highscore() is None <==> after.spec_highscore() is None)
    &&& before.spec_highscore() matches Some(h) ==> label_updated(h, after.spec_highscore()->Some_0, scoring.highscore)
}

/// The level, max-combo and highscore labels of the gameplay stage.
pub struct BlinkingLabels {
    level: BlinkingLabel,
    max_combo: BlinkingLabel,
    highscore: Option<BlinkingLabel>,
}

impl BlinkingLabels {
    /// The level label.
    pub closed spec fn spec_level(&self) -> BlinkingLabel {
        self.level
    }

    /// The max-combo label.
    pub closed spec fn spec_max_combo(&self) -> BlinkingLabel {
        self.max_combo
    }

    /// The highscore label, which exists only where there was a highscore when
    /// the gameplay began.
    pub closed spec fn spec_highscore(&self) -> Option<BlinkingLabel> {
        self.highscore
    }

    /// Labels showing the game's level, max combo and highscore, none of them
    /// blinking; no highscore label where the highscore is 0.
    pub fn new(game: &GameState) -> (labels: BlinkingLabels)
        ensures
            labels.spec_level().spec_value() == game.spec_scoring().level,
            labels.spec_max_combo().spec_value() == game.spec_scoring().max_combo,
            !labels.spec_level().spec_is_blinking(),
            !labels.spec_max_combo().spec_is_blinking(),
            game.spec_scoring().highscore > 0 <==> labels.spec_highscore() is Some,
            labels.spec_highscore() matches Some(h) ==> h.spec_value() == game.spec_scoring().highscore
                && !h.spec_is_blinking(),
    {
        let scoring = game.scoring();
        let highscore = scoring.highscore();
        BlinkingLabels {
            level: BlinkingLabel::new(scoring.level()),
            max_combo: BlinkingLabel::new(scoring.max_combo()),
            highscore: if highscore > 0 {
                Some(BlinkingLabel::new(highscore))
            } else {
                None
            },
        }
    }

    /// Whether the level label is shown now.
    pub fn is_level_visible(&self) -> (visible: bool)
        ensures
            !self.spec_level().spec_is_blinking() ==> visible,
    {
        self.level.is_visible()
    }

    /// Whether the max-combo label is shown now.
    pub fn is_max_combo_visible(&self) -> (visible: bool)
        ensures
            !self.spec_max_combo().spec_is_blinking() ==> visible,
    {
        self.max_combo.is_visible()
    }

    /// Whether the highscore label is shown now; never where there is none.
    pub fn is_highscore_visible(&self) -> (visible: bool)
        ensures
            self.spec_highscore() is None ==> !visible,
            (self.spec_highscore() matches Some(h) && !h.spec_is_blinking()) ==> visible,
    {
        match &self.highscore {
            Some(highscore) => highscore.is_visible(),
            None => false,
        }
    }

    /// Lets each label follow its number in the game.
    pub fn update(&mut self, game: &GameState)
        ensures
            labels_followed(*old(self), *final(self), game.spec_scoring()),
    {
        let scoring = game.scoring();
        self.level.update(scoring.level());
        self.max_combo.update(scoring.max_combo());
        let highscore = scoring.highscore();
        match &mut self.highscore {
            Some(label) => label.update(highscore),
            None => {},
        }
    }
}

// =============================================================================
// Handlers
// =============================================================================

/// The stage before a game: "Get ready!".
pub struct ReadyHandler;

impl ReadyHandler {
    /// Enters the ready stage: the game shows "Get ready!".
    pub fn new(game: &mut GameState) -> (handler: ReadyHandler)
        requires
            old(game).wf(),
        ensures
            final(game).wf(),
            final(game).spec_message() == Some(MessageVariant::GetReady),
            final(game).spec_pile() == old(game).spec_pile(),
            final(game).spec_falling() == old(game).spec_falling(),
            final(game).spec_scoring() == old(game).spec_scoring(),
            final(game).spec_phase() == old(game).spec_phase(),
            final(game).spec_tick_ms() == old(game).spec_tick_ms(),
    {
        game.set_message(Some(Message::new_get_ready()));
        ReadyHandler
    }

    /// A key press in the ready stage: Enter starts a game, with the highscore
    /// read from `stored_highscore`; F1 shows the instructions.
    pub fn handle_key_pressed_event(
        &mut self,
        game: &mut GameState,
        key: Key,
        stored_highscore: Option<&str>,
    ) -> (r: Result<Option<Stage>, Error>)
        requires
            old(game).wf(),
        ensures
            final(game).wf(),
            key == Key::Enter ==> enters_gameplay(*old(game), *final(game), stored_highscore, true, false, r),
            key == Key::F1 ==> (r matches Ok(Some(Stage::Instructions(_)))) && *final(game) == *old(game),
            key != Key::Enter && key != Key::F1 ==> r == Ok::<Option<Stage>, Error>(None) && *final(game) == *old(game),
    {
        match key {
            Key::Enter => enter_gameplay(game, stored_highscore, true, false),
            Key::F1 => Ok(Some(Stage::Instructions(InstructionsHandler))),
            _ => Ok(None),
        }
    }
}

/// The stage of the instructions page.
pub struct InstructionsHandler;

impl InstructionsHandler {
    /// A key press on the instructions page: Enter goes back to the ready
    /// stage (the game is left as it is).
    pub fn handle_key_pressed_event(&mut self, game: &mut GameState, key: Key) -> (r: Result<Option<Stage>, Error>)
        ensures
            key == Key::Enter ==> (r matches Ok(Some(Stage::Ready(_)))),
            key != Key::Enter ==> r == Ok::<Option<Stage>, Error>(None),
            *final(game) == *old(game),
    {
        if key == Key::Enter {
            return Ok(Some(Stage::Ready(ReadyHandler)));
        }
        Ok(None)
    }
}

/// The stage after a game: "Game over!".
pub struct GameOverHandler;

impl GameOverHandler {
    /// Enters the game-over stage: the game shows "Game over!".
    pub fn new(game: &mut GameState) -> (handler: GameOverHandler)
        requires
            old(game).wf(),
        ensures
            final(game).wf(),
            final(game).spec_message() == Some(MessageVariant::GameOver),
            final(game).spec_pile() == old(game).spec_pile(),
            final(game).spec_falling() == old(game).spec_falling(),
            final(game).spec_scoring() == old(game).spec_scoring(),
            final(game).spec_phase() == old(game).spec_phase(),
            final(game).spec_tick_ms() == old(game).spec_tick_ms(),
    {
        game.set_message(Some(Message::new_game_over()));
        GameOverHandler
    }

    /// A key press after a game: Enter starts a new one, with the highscore
    /// read from `stored_highscore`, and takes the message away.
    pub fn handle_key_pressed_event(
        &mut self,
        game: &mut GameState,
        key: Key,
        stored_highscore: Option<&str>,
    ) -> (r: Result<Option<Stage>, Error>)
        requires
            old(game).wf(),
        ensures
            final(game).wf(),
            key == Key::Enter ==> enters_gameplay(*old(game), *final(game), stored_highscore, true, true, r),
            key != Key::Enter ==> r == Ok::<Option<Stage>, Error>(None) && *final(game) == *old(game),
    {
        if key != Key::Enter {
            return Ok(None);
        }
        enter_gameplay(game, stored_highscore, true, true)
    }
}

/// The paused stage, whose gem colors are scrambled every 76 ms.
#[derive(Copy, Clone)]
pub struct PausedHandler {
    start_time: std::time::Instant,
}

impl PausedHandler {
    /// Enters the paused stage: the game shows "Paused", and the scrambling
    /// starts now.
    pub fn new(game: &mut GameState) -> (handler: PausedHandler)
        requires
            old(game).wf(),
        ensures
            final(game).wf(),
            final(game).spec_message() == Some(MessageVariant::Paused),
            final(game).spec_pile() == old(game).spec_pile(),
            final(game).spec_falling() == old(game).spec_falling(),
            final(game).spec_scoring() == old(game).spec_scoring(),
            final(game).spec_phase() == old(game).spec_phase(),
            final(game).spec_tick_ms() == old(game).spec_tick_ms(),
    {
        game.set_message(Some(Message::new_paused()));
        PausedHandler { start_time: instant_now() }
    }

    /// How many 76 ms periods have passed since the pause began. The clock's
    /// reading is not stated.
    pub fn flicker_tick(&self) -> (tick: u64)
        ensures
            exists|elapsed_ms: u64| tick == #[trigger] phase_at(elapsed_ms, FRAME_DURATION_PAUSED_MS),
    {
        elapsed_phase(&self.start_time, FRAME_DURATION_PAUSED_MS)
    }

    /// A key press while paused: Enter resumes the gameplay and takes the
    /// message away.
    pub fn handle_key_pressed_event(&mut self, game: &mut GameState, key: Key) -> (r: Result<Option<Stage>, Error>)
        requires
            old(game).wf(),
        ensures
            final(game).wf(),
            key == Key::Enter ==> enters_gameplay(*old(game), *final(game), None, false, true, r),
            key != Key::Enter ==> r == Ok::<Option<Stage>, Error>(None) && *final(game) == *old(game),
    {
        if key != Key::Enter {
            return Ok(None);
        }
        enter_gameplay(game, None, false, true)
    }
}

/// The gameplay stage: the time of the last gravity tick, and the labels
/// that blink when their number grows.
pub struct GameplayHandler {
    gravity_time: std::time::Instant,
    blinking_labels: BlinkingLabels,
}

/// The time left before the next frame of the gameplay: a frame, or less where
/// the next gravity tick comes sooner.
pub open spec fn gameplay_wait(tick_ms: u64, elapsed_ms: u64) -> u64 {
    let until_tick = if elapsed_ms < tick_ms { (tick_ms - elapsed_ms) as u64 } else { 0 };
    if until_tick < FRAME_DURATION_MS { until_tick } else { FRAME_DURATION_MS }
}

/// Whether `after` is a game that a tick of `before` has ended: the tick
/// returned `false`, and the game then shows "Game over!".
pub open spec fn ended_by_tick(before: GameState, after: GameState) -> bool {
    &&& after.spec_message() == Some(MessageVariant::GameOver)
    &&& exists|ended: GameState| #[trigger] ticked(before, ended, false) && same_but_message(ended, after)
}

/// A frame of the gameplay through the games `games`: each one a running tick
/// of the one before, from `before` on, then the message of the last one
/// ticked, which gives `after`.
pub open spec fn gameplay_frame_through(before: GameState, after: GameState, games: Seq<GameState>) -> bool {
    &&& games.len() >= 1
    &&& games[0] == before
    &&& ticked_through(games)
    &&& same_but_message(games.last(), after)
    &&& message_tick_outcome(games.last().spec_message_state(), after.spec_message_state())
}

/// What a frame of the gameplay `elapsed_ms` after the last gravity tick
/// makes of a game and its labels, `next` being the stage it gives: where the
/// game goes on, exactly as many running ticks as whole tick durations have
/// passed, then the message's tick, with the labels following the numbers;
/// where it ends, fewer running ticks, then a tick that ended the game.
pub open spec fn frame_outcome(
    before: GameState,
    after: GameState,
    labels_before: BlinkingLabels,
    labels_after: BlinkingLabels,
    elapsed_ms: u64,
    next: Option<Stage>,
) -> bool {
    &&& next is None || (next matches Some(Stage::GameOver(_)))
    &&& next is None ==> {
        &&& exists|games: Seq<GameState>|
            #[trigger] gameplay_frame_through(before, after, games) && games.len() - 1 == elapsed_ms
                / before.spec_tick_ms()
        &&& labels_followed(labels_before, labels_after, after.spec_scoring())
    }
    &&& next is Some ==> exists|games: Seq<GameState>|
        #[trigger] ticked_through(games) && games.len() >= 1 && games[0] == before && games.len() - 1
            < elapsed_ms / before.spec_tick_ms() && ended_by_tick(games.last(), after)
}

impl GameplayHandler {
    /// The blinking labels.
    pub closed spec fn spec_labels(&self) -> BlinkingLabels {
        self.blinking_labels
    }

    /// Enters the gameplay: gravity counts from now, and the labels show the
    /// game's numbers without blinking.
    pub fn new(game: &GameState) -> (handler: GameplayHandler)
        ensures
            handler.spec_labels().spec_level().spec_value() == game.spec_scoring().level,
            handler.spec_labels().spec_max_combo().spec_value() == game.spec_scoring().max_combo,
            !handler.spec_labels().spec_level().spec_is_blinking(),
            !handler.spec_labels().spec_max_combo().spec_is_blinking(),
            game.spec_scoring().highscore > 0 <==> handler.spec_labels().spec_highscore() is Some,
    {
        GameplayHandler { gravity_time: instant_now(), blinking_labels: BlinkingLabels::new(game) }
    }

    /// The blinking labels.
    pub fn blinking_labels(&self) -> (labels: &BlinkingLabels)
        ensures
            *labels == self.spec_labels(),
    {
        &self.blinking_labels
    }

    /// The time left before the next frame, `elapsed_ms` after the last
    /// gravity tick.
    pub fn wait_after(tick_ms: u64, elapsed_ms: u64) -> (wait_ms: u64)
        ensures
            wait_ms == gameplay_wait(tick_ms, elapsed_ms),
    {
        let until_tick: u64 = if elapsed_ms < tick_ms {
            tick_ms - elapsed_ms
        } else {
            0
        };
        if until_tick < FRAME_DURATION_MS {
            until_tick
        } else {
            FRAME_DURATION_MS
        }
    }

    /// The time left before the next frame, in milliseconds. The clock's
    /// reading is not stated.
    pub fn time_before_next_tick(&self, game: &GameState) -> (wait_ms: u64)
        ensures
            exists|elapsed_ms: u64| wait_ms == #[trigger] gameplay_wait(game.spec_tick_ms(), elapsed_ms),
            wait_ms <= FRAME_DURATION_MS,
    {
        let elapsed_ms = elapsed_millis(&self.gravity_time);
        Self::wait_after(game.tick_rate(), elapsed_ms)
    }

    /// One gravity tick; the game-over stage where the game ends, else gravity
    /// counts from `next_tick`.
    fn try_updating_tick(&mut self, game: &mut GameState, next_tick: std::time::Instant) -> (next: Option<Stage>)
        requires
            old(game).wf(),
        ensures
            final(game).wf(),
            next is None || (next matches Some(Stage::GameOver(_))),
            next is Some ==> old(game).spec_phase() == GameplayState::FallingColumn && final(game).spec_message()
                == Some(MessageVariant::GameOver),
            next is None ==> ticked(*old(game), *final(game), true),
            next is Some ==> ended_by_tick(*old(game), *final(game)),
            final(self).spec_labels() == old(self).spec_labels(),
    {
        if !game.tick() {
            let ghost ended = *game;
            let stage = Stage::GameOver(GameOverHandler::new(game));
            assert(ticked(*old(game), ended, false) && same_but_message(ended, *game));
            return Some(stage);
        }
        self.gravity_time = next_tick;
        None
    }

    /// A key press during the gameplay: arrows move and rotate the falling
    /// column, `0` or Insert ticks at once, Space drops the column and ticks,
    /// and Esc pauses. The game-over stage comes where a tick ends the game.
    pub fn handle_key_pressed_event(&mut self, game: &mut GameState, key: Key) -> (next: Option<Stage>)
        requires
            old(game).wf(),
        ensures
            final(game).wf(),
            key == Key::Left ==> next is None && moved_sideways(*old(game), *final(game), -1),
            key == Key::Right ==> next is None && moved_sideways(*old(game), *final(game), 1),
            key == Key::Up ==> next is None && rotated(*old(game), *final(game), true),
            key == Key::Down ==> next is None && rotated(*old(game), *final(game), false),
            (key == Key::Accelerate || key == Key::Space) ==> (next is None || (next matches Some(
                Stage::GameOver(_),
            ))) && (next is Some ==> final(game).spec_message() == Some(MessageVariant::GameOver)),
            key == Key::Accelerate && next is Some ==> old(game).spec_phase() == GameplayState::FallingColumn,
            key == Key::Accelerate && next is None ==> ticked(*old(game), *final(game), true),
            key == Key::Space && next is None ==> exists|dropped_game: GameState|
                dropped(*old(game), dropped_game) && #[trigger] ticked(dropped_game, *final(game), true),
            key == Key::Accelerate && next is Some ==> ended_by_tick(*old(game), *final(game)),
            key == Key::Space && next is Some ==> exists|dropped_game: GameState|
                dropped(*old(game), dropped_game) && #[trigger] ended_by_tick(dropped_game, *final(game)),
            key == Key::Esc ==> (next matches Some(Stage::Paused(_))) && final(game).spec_message() == Some(
                MessageVariant::Paused,
            ) && same_but_message(*old(game), *final(game)),
            (key == Key::Enter || key == Key::F1 || key == Key::Other) ==> next is None && *final(game) == *old(game),
    {
        match key {
            Key::Left => game.move_left(),
            Key::Right => game.move_right(),
            Key::Up => game.rotate_up(),
            Key::Down => game.rotate_down(),
            Key::Accelerate => {
                let now = instant_now();
                let next = self.try_updating_tick(game, now);
                if next.is_some() {
                    return next;
                }
            },
            Key::Space => {
                game.drop();
                let ghost dropped_game = *game;
                let now = instant_now();
                let next = self.try_updating_tick(game, now);
                if next.is_some() {
                    return next;
                }
            },
            Key::Esc => {
                return Some(Stage::Paused(PausedHandler::new(game)));
            },
            _ => {},
        }
        None
    }

    /// A frame of the gameplay, `elapsed_ms` after the last gravity tick: as
    /// many gravity ticks as whole tick durations have passed (the game-over
    /// stage where a tick ends the game), then the labels follow their numbers
    /// and the message's effect advances.
    pub fn update_after(&mut self, game: &mut GameState, elapsed_ms: u64) -> (next: Option<Stage>)
        requires
            old(game).wf(),
        ensures
            final(game).wf(),
            frame_outcome(
                *old(game),
                *final(game),
                old(self).spec_labels(),
                final(self).spec_labels(),
                elapsed_ms,
                next,
            ),
    {
        let tick_ms = game.tick_rate();
        proof {
            game.lemma_wf_bounds();
        }
        let ghost mut games: Seq<GameState> = seq![*game];
        let mut remaining_ms = elapsed_ms;
        while remaining_ms >= tick_ms
            invariant
                game.wf(),
                tick_ms > 0,
                tick_ms == old(game).spec_tick_ms(),
                games.len() >= 1,
                games[0] == *old(game),
                games.last() == *game,
                ticked_through(games),
                (games.len() - 1) * tick_ms + remaining_ms == elapsed_ms,
                self.spec_labels() == old(self).spec_labels(),
            decreases remaining_ms,
        {
            let next_tick = match instant_after_millis(&self.gravity_time, tick_ms) {
                Some(t) => t,
                None => instant_now(),
            };
            let next = self.try_updating_tick(game, next_tick);
            if next.is_some() {
                proof {
                    let done = (games.len() - 1) as int;
                    assert(done < elapsed_ms / tick_ms) by (nonlinear_arith)
                        requires
                            done * tick_ms + remaining_ms == elapsed_ms,
                            remaining_ms >= tick_ms,
                            tick_ms > 0,
                            done >= 0,
                    ;
                    assert(ticked_through(games) && games.len() >= 1 && games[0] == *old(game)
                        && games.len() - 1 < elapsed_ms / old(game).spec_tick_ms() && ended_by_tick(
                        games.last(),
                        *game,
                    ));
                }
                return next;
            }
            proof {
                let done = (games.len() - 1) as int;
                assert((done + 1) * tick_ms + (remaining_ms - tick_ms) == elapsed_ms) by (nonlinear_arith)
                    requires
                        done * tick_ms + remaining_ms == elapsed_ms,
                ;
                let longer = games.push(*game);
                assert forall|i: int| 0 <= i < longer.len() - 1 implies #[trigger] ticked(longer[i], longer[i + 1], true) by {
                    if i < games.len() - 1 {
                        assert(ticked(games[i], games[i + 1], true));
                    }
                }
                games = longer;
            }
            remaining_ms = remaining_ms - tick_ms;
        }
        self.blinking_labels.update(game);
        game.tick_message();
        proof {
            let done = (games.len() - 1) as int;
            assert(done == elapsed_ms / tick_ms) by (nonlinear_arith)
                requires
                    done * tick_ms + remaining_ms == elapsed_ms,
                    remaining_ms < tick_ms,
                    tick_ms > 0,
                    done >= 0,
            ;
            assert(same_but_message(games.last(), *game));
            assert(gameplay_frame_through(*old(game), *game, games));
        }
        None
    }

    /// A frame of the gameplay, as [`GameplayHandler::update_after`] makes it
    /// with the time since the last gravity tick read from the clock. The
    /// clock's reading is not stated.
    pub fn update(&mut self, game: &mut GameState) -> (next: Option<Stage>)
        requires
            old(game).wf(),
        ensures
            final(game).wf(),
            exists|elapsed_ms: u64|
                #[trigger] frame_outcome(
                    *old(game),
                    *final(game),
                    old(self).spec_labels(),
                    final(self).spec_labels(),
                    elapsed_ms,
                    next,
                ),
    {
        let elapsed_ms = elapsed_millis(&self.gravity_time);
        self.update_after(game, elapsed_ms)
    }
}

// =============================================================================
// Stages
// =============================================================================

/// The stage the program is in, with its handler.
pub enum Stage {
    Ready(ReadyHandler),
    Gameplay(GameplayHandler),
    Paused(PausedHandler),
    Instructions(InstructionsHandler),
    GameOver(GameOverHandler),
}

/// What entering the gameplay leaves, `r` being its result: the gameplay
/// stage, or only where `restart`, the error of starting the game over with
/// its sentence; a game started over where `restart`, the game as it was but
/// for its message otherwise; no message where `clear_message`, the message
/// kept otherwise.
pub open spec fn enters_gameplay(
    before: GameState,
    after: GameState,
    stored_highscore: Option<&str>,
    restart: bool,
    clear_message: bool,
    r: Result<Option<Stage>, Error>,
) -> bool {
    &&& after.wf()
    &&& r is Ok ==> (r matches Ok(Some(Stage::Gameplay(_))))
    &&& !restart ==> r is Ok
    &&& restart && highscore_from_storage(stored_highscore) is Err ==> r == Err::<Option<Stage>, Error>(
        contextual_error_spec(highscore_from_storage(stored_highscore)->Err_0),
    )
    &&& restart && highscore_from_storage(stored_highscore) is Ok && r is Err ==> r == Err::<Option<Stage>, Error>(
        contextual_error_spec(Error::ClockBeforeUnixEpoch),
    )
    &&& !restart ==> same_but_message(before, after)
    &&& restart && r is Ok ==> {
        &&& after.spec_pile().cells() == empty_cells()
        &&& after.spec_pile().marked() == no_marks()
        &&& after.spec_scoring() == fresh_scoring(highscore_from_storage(stored_highscore)->Ok_0)
        &&& after.spec_tick_ms() == INITIAL_TICK_DURATION_MS
        &&& after.spec_phase() == GameplayState::FallingColumn
        &&& after.spec_falling().spec_y() == -3
        &&& after.spec_falling().spec_gems() == before.spec_next().spec_gems()
    }
    &&& r is Ok && clear_message ==> after.spec_message() is None
    &&& r is Ok && !clear_message ==> after.spec_message() == before.spec_message()
}

/// Enters the gameplay: where `restart`, the game starts over, with the
/// highscore read from `stored_highscore` (an error of that gets the sentence
/// "Failed to start the game"); where `clear_message`, the message goes away.
pub fn enter_gameplay(
    game: &mut GameState,
    stored_highscore: Option<&str>,
    restart: bool,
    clear_message: bool,
) -> (r: Result<Option<Stage>, Error>)
    requires
        old(game).wf(),
    ensures
        enters_gameplay(*old(game), *final(game), stored_highscore, restart, clear_message, r),

{
    if restart {
        match game.start(stored_highscore) {
            Ok(()) => {},
            Err(e) => {
                return Err(contextual_error(ERROR_FAILED_TO_START_GAME, e));
            },
        }
    }
    if clear_message {
        game.set_message(None);
    }
    Ok(Some(Stage::Gameplay(GameplayHandler::new(game))))
}

/// The error of a failed start, with its sentence.
pub open spec fn contextual_error_spec(e: Error) -> Error {
    Error::Context(Box::new((ERROR_FAILED_TO_START_GAME, e)))
}

/// Whether a game is as it was, but for its message.
pub open spec fn same_but_message(before: GameState, after: GameState) -> bool {
    &&& after.wf()
    &&& after.spec_pile() == before.spec_pile()
    &&& after.spec_falling() == before.spec_falling()
    &&& after.spec_scoring() == before.spec_scoring()
    &&& after.spec_phase() == before.spec_phase()
    &&& after.spec_tick_ms() == before.spec_tick_ms()
}

impl Stage {
    /// How long to wait for a key before the next frame, in milliseconds: an
    /// hour in the ready and instructions stages, 76 ms while paused, a frame
    /// after a game, and up to a frame during the gameplay.
    pub fn time_before_next_tick(&self, game: &GameState) -> (wait_ms: u64)
        ensures
            (self is Ready || self is Instructions) ==> wait_ms == FRAME_DURATION_IDLE_MS,
            self is Paused ==> wait_ms == FRAME_DURATION_PAUSED_MS,
            self is GameOver ==> wait_ms == FRAME_DURATION_MS,
            self is Gameplay ==> wait_ms <= FRAME_DURATION_MS && exists|elapsed_ms: u64|
                wait_ms == #[trigger] gameplay_wait(game.spec_tick_ms(), elapsed_ms),
    {
        match self {
            Stage::Ready(_) => FRAME_DURATION_IDLE_MS,
            Stage::Instructions(_) => FRAME_DURATION_IDLE_MS,
            Stage::Gameplay(handler) => handler.time_before_next_tick(game),
            Stage::Paused(_) => FRAME_DURATION_PAUSED_MS,
            Stage::GameOver(_) => FRAME_DURATION_MS,
        }
    }

    /// A key press in this stage; the next stage, if the stage changes. Ready:
    /// Enter starts a game (its highscore read from `stored_highscore`), F1
    /// shows the instructions. Paused: Enter resumes, without the message.
    /// Instructions: Enter goes back to the ready stage. Game over: Enter
    /// starts a new game, without the message. The gameplay keys are those of
    /// [`GameplayHandler::handle_key_pressed_event`]. Other keys do nothing.
    pub fn handle_key_pressed_event(
        &mut self,
        game: &mut GameState,
        key: Key,
        stored_highscore: Option<&str>,
    ) -> (r: Result<Option<Stage>, Error>)
        requires
            old(game).wf(),
        ensures
            final(game).wf(),
            *old(self) is Ready && key == Key::Enter ==> enters_gameplay(
                *old(game),
                *final(game),
                stored_highscore,
                true,
                false,
                r,
            ),
            *old(self) is Ready && key == Key::F1 ==> (r matches Ok(Some(Stage::Instructions(_)))) && *final(game)
                == *old(game),
            *old(self) is Paused && key == Key::Enter ==> enters_gameplay(*old(game), *final(game), None, false, true, r),
            *old(self) is Instructions && key == Key::Enter ==> (r matches Ok(Some(Stage::Ready(_)))) && *final(game)
                == *old(game),
            *old(self) is GameOver && key == Key::Enter ==> enters_gameplay(
                *old(game),
                *final(game),
                stored_highscore,
                true,
                true,
                r,
            ),
            !(*old(self) is Gameplay) && key != Key::Enter && !(*old(self) is Ready && key == Key::F1) ==> r
                == Ok::<Option<Stage>, Error>(None) && *final(game) == *old(game),
            *old(self) is Gameplay ==> r is Ok,
            *old(self) is Gameplay && key == Key::Esc ==> (r matches Ok(Some(Stage::Paused(_))))
                && final(game).spec_message() == Some(MessageVariant::Paused) && same_but_message(*old(game), *final(game)),
            *old(self) is Gameplay && key == Key::Left ==> r == Ok::<Option<Stage>, Error>(None) && moved_sideways(*old(game), *final(game), -1),
            *old(self) is Gameplay && key == Key::Right ==> r == Ok::<Option<Stage>, Error>(None) && moved_sideways(*old(game), *final(game), 1),
            *old(self) is Gameplay && key == Key::Up ==> r == Ok::<Option<Stage>, Error>(None) && rotated(*old(game), *final(game), true),
            *old(self) is Gameplay && key == Key::Down ==> r == Ok::<Option<Stage>, Error>(None) && rotated(*old(game), *final(game), false),
            *old(self) is Gameplay && (key == Key::Accelerate || key == Key::Space) ==> (r matches Ok(None) || (r matches Ok(Some(Stage::GameOver(_))))),
            *old(self) is Gameplay && key == Key::Accelerate && r is Ok && r->Ok_0 is None ==> ticked(
                *old(game),
                *final(game),
                true,
            ),
            *old(self) is Gameplay && key == Key::Space && r is Ok && r->Ok_0 is None ==> exists|dropped_game: GameState|
                dropped(*old(game), dropped_game) && #[trigger] ticked(dropped_game, *final(game), true),
            *old(self) is Gameplay && key == Key::Accelerate && r is Ok && r->Ok_0 is Some ==> ended_by_tick(
                *old(game),
                *final(game),
            ),
            *old(self) is Gameplay && key == Key::Space && r is Ok && r->Ok_0 is Some ==> exists|dropped_game: GameState|
                dropped(*old(game), dropped_game) && #[trigger] ended_by_tick(dropped_game, *final(game)),
    {
        match self {
            Stage::Ready(handler) => handler.handle_key_pressed_event(game, key, stored_highscore),
            Stage::Gameplay(handler) => Ok(handler.handle_key_pressed_event(game, key)),
            Stage::Paused(handler) => handler.handle_key_pressed_event(game, key),
            Stage::Instructions(handler) => handler.handle_key_pressed_event(game, key),
            Stage::GameOver(handler) => handler.handle_key_pressed_event(game, key, stored_highscore),
        }
    }

    /// The keys legend of this stage, as (key, action) rows: the stage's own
    /// keys, then Q to quit.
    pub fn keys_legend(&self) -> (rows: Vec<(&'static str, &'static str)>)
        ensures
            rows@.len() == match *self {
                Stage::Ready(_) => 3int,
                Stage::Gameplay(_) => 5int,
                _ => 2int,
            },
            rows@.last().0@ == "Q"@,
            rows@.last().1@ == "Quit"@,
            *self is Ready ==> rows@[0].0@ == "Enter"@ && rows@[0].1@ == "Start"@ && rows@[1].0@ == "F1"@
                && rows@[1].1@ == "How to play"@,
            *self is Gameplay ==> rows@[0].0@ == "Arrows"@ && rows@[0].1@ == "Move/Rotate"@ && rows@[1].0@
                == "0 (Zero)"@ && rows@[1].1@ == "Accelerate"@ && rows@[2].0@ == "Space"@ && rows@[2].1@
                == "Drop"@ && rows@[3].0@ == "Esc"@ && rows@[3].1@ == "Pause"@,
            *self is Paused ==> rows@[0].0@ == "Enter"@ && rows@[0].1@ == "Resume"@,
            *self is Instructions ==> rows@[0].0@ == "Enter"@ && rows@[0].1@ == "Back to game"@,
            *self is GameOver ==> rows@[0].0@ == "Enter"@ && rows@[0].1@ == "Restart"@,
    {
        let mut rows: Vec<(&'static str, &'static str)> = Vec::new();
        match self {
            Stage::Ready(_) => {
                rows.push(("Enter", "Start"));
                rows.push(("F1", "How to play"));
            },
            Stage::Gameplay(_) => {
                rows.push(("Arrows", "Move/Rotate"));
                rows.push(("0 (Zero)", "Accelerate"));
                rows.push(("Space", "Drop"));
                rows.push(("Esc", "Pause"));
            },
            Stage::Paused(_) => rows.push(("Enter", "Resume")),
            Stage::Instructions(_) => rows.push(("Enter", "Back to game")),
            Stage::GameOver(_) => rows.push(("Enter", "Restart")),
        }
        rows.push(("Q", "Quit"));
        rows
    }

    /// A frame in this stage: only the gameplay moves on its own, and it can
    /// end in the game-over stage.
    pub fn update(&mut self, game: &mut GameState) -> (next: Option<Stage>)
        requires
            old(game).wf(),
        ensures
            final(game).wf(),
            !(*old(self) is Gameplay) ==> next is None && *final(game) == *old(game),
            next is None || (next matches Some(Stage::GameOver(_))),
            next is Some ==> final(game).spec_message() == Some(MessageVariant::GameOver),
            *old(self) is Gameplay ==> exists|elapsed_ms: u64|
                #[trigger] frame_outcome(
                    *old(game),
                    *final(game),
                    old(self)->Gameplay_0.spec_labels(),
                    final(self)->Gameplay_0.spec_labels(),
                    elapsed_ms,
                    next,
                ),
    {
        match self {
            Stage::Gameplay(handler) => handler.update(game),
            _ => None,
        }
    }
}

} // verus!
