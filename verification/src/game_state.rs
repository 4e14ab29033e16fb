//! The state of one game: the next and the falling column, the pile, the
//! scoring, the tick duration and the current phase of the gameplay.

use vstd::prelude::*;

use crate::blocks::block::Gem;
use crate::blocks::column::{column_blocks, Column};
use crate::blocks::matching::MatchingStructure;
use crate::blocks::pile::{
    apply_blink, blink_dark, blink_finished, blink_list, cell_of, column_checks, empty_cells, has_gap_below_gem, in_board,
    leading_on_board, match_search, no_marks, place_blocks, search_points, settled_cell, tally_directions, any_marked,
    Pile, MatchTally,
};
use crate::clock::millis_since_unix_epoch;
use crate::errors::Error;
use crate::messages::{message_ticked, Message, MessageVariant};
use crate::randomness::{rng_u8_below, rng_with_seed};
use crate::scoring::{after_add, highscore_from_storage, level_for, Scoring, ScoringState};

verus! {

/// Number of cells in a row of the board.
pub const BOARD_WIDTH: u8 = 6;
/// Number of rows of the board.
pub const BOARD_HEIGHT: u8 = 13;

/// Tick duration of a new game, in milliseconds.
pub const INITIAL_TICK_DURATION_MS: u64 = 750;
/// Shortest tick duration, in milliseconds.
pub const MIN_TICK_DURATION_MS: u64 = 100;
/// Percentage of the tick duration kept at each level-up.
pub const ACCELERATION_FACTOR: u8 = 95;

/// The phase of the gameplay.
#[derive(Copy, Clone, Debug, PartialEq, Eq, Structural)]
pub enum GameplayState {
    /// The falling column moves down at each tick.
    FallingColumn,
    /// Matched gems are being cleared; they are worth the points it holds.
    ClearingMatches(u32),
    /// Gems above emptied cells are to fall.
    ApplyingHangingGemsGravity,
}

/// First row from the top of column `x` holding a gem, from row `y` on; the
/// board's height where there is none.
pub open spec fn first_occupied_from(cells: Seq<Option<Gem>>, x: int, y: int) -> int
    decreases BOARD_HEIGHT - y,
{
    if y < 0 || y >= BOARD_HEIGHT {
        BOARD_HEIGHT as int
    } else if cell_of(cells, x, y).is_some() {
        y
    } else {
        first_occupied_from(cells, x, y + 1)
    }
}

/// How many rows a column whose top gem stands at `(col_x, col_y)` can fall
/// at column `col_x + x_offset` before it rests on a gem or the floor; -1
/// where that column is off the board.
pub open spec fn available_distance(cells: Seq<Option<Gem>>, col_x: int, col_y: int, x_offset: int) -> int {
    let x = col_x + x_offset;
    if x_offset != 0 && (x < 0 || x >= BOARD_WIDTH) {
        -1
    } else {
        first_occupied_from(cells, x, 0) - 1 - (col_y + 2)
    }
}

/// The phase after a search for matches.
pub open spec fn phase_after_search(points: Option<u32>) -> GameplayState {
    match points {
        Some(p) => GameplayState::ClearingMatches(p),
        None => GameplayState::FallingColumn,
    }
}

/// The tick duration after a level-up: 95 percent of it, at least 100 ms.
pub open spec fn accelerated(ms: u64) -> u64 {
    let reduced = ms * ACCELERATION_FACTOR as u64 / 100;
    if reduced < MIN_TICK_DURATION_MS {
        MIN_TICK_DURATION_MS
    } else {
        reduced as u64
    }
}

/// Each acceleration shortens the tick duration (or keeps it at the 100 ms
/// floor), and never takes it out of the 100 to 750 ms range.
pub proof fn lemma_acceleration_bounds(ms: u64)
    requires
        MIN_TICK_DURATION_MS <= ms <= INITIAL_TICK_DURATION_MS,
    ensures
        MIN_TICK_DURATION_MS <= accelerated(ms) <= ms,
        ms > MIN_TICK_DURATION_MS ==> accelerated(ms) < ms,
{
    assert(ms * 95 / 100 <= ms && (ms > 100 ==> ms * 95 / 100 < ms)) by (nonlinear_arith)
        requires
            100 <= ms <= 750,
    ;
}

/// A level-up keeps 95 percent of the tick duration, rounded down, but never
/// less than 100 ms: above the floor the new duration `r` is the largest
/// whole number of milliseconds with `100 * r <= 95 * ms`; at the floor,
/// 95 percent of `ms` is under 101 ms. So 750 ms become 712 ms, and 105 ms
/// become 100 ms.
pub proof fn lemma_acceleration_keeps_95_percent(ms: u64)
    requires
        100 <= ms <= 750,
    ensures
        accelerated(ms) >= 100,
        accelerated(ms) > 100 ==> 100 * accelerated(ms) <= 95 * ms < 100 * (accelerated(ms) + 1),
        accelerated(ms) == 100 ==> 95 * ms < 100 * 101,
        accelerated(750) == 712,
{
    let r = ms * 95 / 100;
    assert(100 * r <= 95 * ms < 100 * (r + 1)) by (nonlinear_arith)
        requires
            r == ms * 95 / 100,
            ms >= 0,
    ;
    assert(750 * 95 / 100 == 712) by (nonlinear_arith);
}

/// What one step of clearing matches does to a pile (see
/// [`Pile::clear_matches`]), for some time elapsed since the blink started.
pub open spec fn clears_matches(before: Pile, after: Pile) -> bool {
    let started = !before.is_blinking() && any_marked(before.marked());
    let list = if started {
        blink_list(before.cells(), before.marked(), BOARD_HEIGHT as nat)
    } else {
        before.blinking()
    };
    &&& after.marked() == (if started { no_marks() } else { before.marked() })
    &&& if before.is_blinking() || started {
        exists|elapsed_ms: u64|
            {
                &&& after.cells() == apply_blink(before.cells(), list, list.len(), blink_dark(elapsed_ms))
                &&& after.is_blinking() == !blink_finished(elapsed_ms)
                &&& after.is_blinking() ==> after.blinking() == list
                &&& !after.is_blinking() ==> after.blinking() == Seq::<(u8, u8, Gem)>::empty()
            }
    } else {
        &&& after.cells() == before.cells()
        &&& after.blinking() == before.blinking()
        &&& !after.is_blinking()
    }
}

/// The scoring of a new game with the given highscore.
pub open spec fn fresh_scoring(highscore: u32) -> ScoringState {
    ScoringState { level: 1, score: 0, max_combo: 0, highscore, accumulated_points: 0, cascade_count: 0 }
}

proof fn lemma_first_occupied_bounds(cells: Seq<Option<Gem>>, x: int, y: int)
    requires
        0 <= y <= BOARD_HEIGHT,
    ensures
        y <= first_occupied_from(cells, x, y) <= BOARD_HEIGHT,
    decreases BOARD_HEIGHT - y,
{
    if y < BOARD_HEIGHT {
        lemma_first_occupied_bounds(cells, x, y + 1);
    }
}

/// What a sideways move by `dx` leaves of a game: the falling column shifted
/// by `dx` where the pile leaves room for it, everything else as it was.
pub open spec fn moved_sideways(before: GameState, after: GameState, dx: int) -> bool {
    let f = before.spec_falling();
    let moves = available_distance(before.spec_pile().cells(), f.spec_x() as int, f.spec_y() as int, dx) > 0;
    &&& after.wf()
    &&& after.spec_falling().spec_x() == (if moves { f.spec_x() + dx } else { f.spec_x() as int })
    &&& after.spec_falling().spec_y() == f.spec_y()
    &&& after.spec_falling().spec_gems() == f.spec_gems()
    &&& after.spec_pile() == before.spec_pile()
    &&& after.spec_scoring() == before.spec_scoring()
    &&& after.spec_phase() == before.spec_phase()
    &&& after.spec_tick_ms() == before.spec_tick_ms()
    &&& after.spec_message() == before.spec_message()
}

/// What a rotation leaves of a game: the gems of the falling column cycled
/// upwards (`up`) or downwards, everything else as it was.
pub open spec fn rotated(before: GameState, after: GameState, up: bool) -> bool {
    let g = before.spec_falling().spec_gems();
    &&& after.wf()
    &&& after.spec_falling().spec_gems() == (if up { seq![g[1], g[2], g[0]] } else { seq![g[2], g[0], g[1]] })
    &&& after.spec_falling().spec_x() == before.spec_falling().spec_x()
    &&& after.spec_falling().spec_y() == before.spec_falling().spec_y()
    &&& after.spec_pile() == before.spec_pile()
    &&& after.spec_scoring() == before.spec_scoring()
    &&& after.spec_phase() == before.spec_phase()
    &&& after.spec_tick_ms() == before.spec_tick_ms()
    &&& after.spec_message() == before.spec_message()
}

/// What a drop leaves of a game: the falling column as far down as the pile
/// lets it fall, everything else as it was.
pub open spec fn dropped(before: GameState, after: GameState) -> bool {
    let f = before.spec_falling();
    let d = available_distance(before.spec_pile().cells(), f.spec_x() as int, f.spec_y() as int, 0);
    &&& after.wf()
    &&& after.spec_falling().spec_y() == (if d > 0 { f.spec_y() + d } else { f.spec_y() as int })
    &&& after.spec_falling().spec_x() == f.spec_x()
    &&& after.spec_falling().spec_gems() == f.spec_gems()
    &&& after.spec_pile() == before.spec_pile()
    &&& after.spec_scoring() == before.spec_scoring()
    &&& after.spec_phase() == before.spec_phase()
    &&& after.spec_tick_ms() == before.spec_tick_ms()
    &&& after.spec_message() == before.spec_message()
}

/// What a tick of a falling column does (`running` being its result): the
/// column moves down one row where it can, which ends the current cascade;
/// where it can fall no further it is locked into the pile, and, where it lay
/// wholly on the board, the matches through it are searched for and the next
/// column starts falling; the game is over where it did not.
pub open spec fn falling_tick(before: GameState, after: GameState, running: bool) -> bool {
    let f = before.spec_falling();
    let d = available_distance(before.spec_pile().cells(), f.spec_x() as int, f.spec_y() as int, 0);
    let moved_y = if d > 0 { f.spec_y() + 1 } else { f.spec_y() as int };
    let rest = if d > 0 { d - 1 } else { d };
    let blocks = column_blocks(f.spec_x(), moved_y as i8, f.spec_gems());
    let placed = place_blocks(before.spec_pile().cells(), blocks, leading_on_board(blocks));
    let search = tally_directions(placed, column_checks(blocks, 3), 4, before.spec_pile().marked());
    &&& d > 0 ==> after.spec_scoring() == (ScoringState {
        accumulated_points: 0,
        cascade_count: 0,
        ..before.spec_scoring()
    })
    &&& d <= 0 ==> after.spec_scoring() == before.spec_scoring()
    &&& rest != 0 ==> {
        &&& running
        &&& after.spec_falling().spec_y() == moved_y
        &&& after.spec_falling().spec_x() == f.spec_x()
        &&& after.spec_falling().spec_gems() == f.spec_gems()
        &&& after.spec_pile() == before.spec_pile()
        &&& after.spec_phase() == before.spec_phase()
    }
    &&& rest == 0 ==> {
        &&& running == (leading_on_board(blocks) == 3)
        &&& after.spec_pile().cells() == placed
        &&& running ==> {
            &&& after.spec_pile().marked() == search.matched
            &&& after.spec_phase() == phase_after_search(search_points(search))
            &&& after.spec_falling().spec_y() == -3
            &&& after.spec_falling().spec_gems() == before.spec_next().spec_gems()
            &&& after.spec_falling().spec_is_falling()
        }
    }
    &&& after.spec_pile().is_blinking() == before.spec_pile().is_blinking()
    &&& after.spec_pile().blinking() == before.spec_pile().blinking()
    &&& after.spec_tick_ms() == before.spec_tick_ms()
    &&& after.spec_message() == before.spec_message()
}

/// What a tick of clearing matches worth `points` does: the blink of the
/// matched gems advances; once it is over, the points are added to the
/// scoring (a level-up shows "Level up!" and shortens the ticks), and the gems
/// left hanging are to fall, if any.
pub open spec fn clearing_tick(before: GameState, after: GameState, points: u32) -> bool {
    &&& after.spec_falling() == before.spec_falling()
    &&& clears_matches(before.spec_pile(), after.spec_pile())
    &&& after.spec_pile().is_blinking() ==> {
        &&& after.spec_scoring() == before.spec_scoring()
        &&& after.spec_phase() == before.spec_phase()
        &&& after.spec_tick_ms() == before.spec_tick_ms()
        &&& after.spec_message() == before.spec_message()
    }
    &&& !after.spec_pile().is_blinking() ==> {
        let added = after_add(before.spec_scoring(), points);
        let up = level_for(added.score) > added.level;
        &&& after.spec_scoring() == (ScoringState {
            level: if up {
                level_for(added.score)
            } else {
                added.level
            },
            ..added
        })
        &&& up ==> after.spec_message() == Some(MessageVariant::LevelUp) && after.spec_tick_ms() == accelerated(
            before.spec_tick_ms(),
        )
        &&& !up ==> after.spec_message() == before.spec_message() && after.spec_tick_ms() == before.spec_tick_ms()
        &&& after.spec_phase() == (if has_gap_below_gem(after.spec_pile().cells()) {
            GameplayState::ApplyingHangingGemsGravity
        } else {
            GameplayState::FallingColumn
        })
    }
}

/// What a tick of gravity does: every gem falls to the lowest free cell of its
/// column, and the whole pile is searched for matches.
pub open spec fn gravity_tick(before: GameState, after: GameState) -> bool {
    let search = match_search(MatchingStructure::Pile, after.spec_pile().cells(), before.spec_pile().marked());
    &&& forall|x: int, y: int|
        in_board(x, y) ==> #[trigger] after.spec_pile().cell(x, y) == settled_cell(before.spec_pile().cells(), x, y)
    &&& after.spec_pile().marked() == search.matched
    &&& after.spec_phase() == phase_after_search(search_points(search))
    &&& after.spec_falling() == before.spec_falling()
    &&& after.spec_scoring() == before.spec_scoring()
    &&& after.spec_tick_ms() == before.spec_tick_ms()
    &&& after.spec_message() == before.spec_message()
}

/// What one tick of a game does, in the phase it is in (`running` being its
/// result): only a falling column can end the game.
pub open spec fn ticked(before: GameState, after: GameState, running: bool) -> bool {
    match before.spec_phase() {
        GameplayState::FallingColumn => falling_tick(before, after, running),
        GameplayState::ClearingMatches(points) => running && clearing_tick(before, after, points),
        GameplayState::ApplyingHangingGemsGravity => running && gravity_tick(before, after),
    }
}

/// Whether each game of `games` is what a running tick makes of the one
/// before it.
pub open spec fn ticked_through(games: Seq<GameState>) -> bool {
    forall|i: int| 0 <= i < games.len() - 1 ==> #[trigger] ticked(games[i], games[i + 1], true)
}

/// What ticking the shown message does: no message stays none; a message
/// goes on as its tick leaves it while it is still to be shown, and goes away
/// once it is over.
pub open spec fn message_tick_outcome(before: Option<Message>, after: Option<Message>) -> bool {
    match before {
        None => after is None,
        Some(m) => exists|m2: Message, shown: bool|
            #[trigger] message_ticked(m, m2, shown) && after == (if shown {
                Some(m2)
            } else {
                None::<Message>
            }),
    }
}

/// One game.
pub struct GameState {
    column_next: Column,
    column_falling: Column,
    pile: Pile,
    scoring: Scoring,
    current_tick_duration_ms: u64,
    gameplay_state: GameplayState,
    message: Option<Message>,
    rng: fastrand::Rng,
}

impl GameState {
    /// The invariant of a game: a well-formed pile, a falling column within
    /// the board's columns and between three rows above the board and its
    /// floor, a tick duration between 100 and 750 ms, and a score not above
    /// the highscore.
    pub closed spec fn wf(&self) -> bool {
        &&& self.pile.wf()
        &&& self.column_falling.spec_x() < BOARD_WIDTH
        &&& -3 <= self.column_falling.spec_y() <= BOARD_HEIGHT - 3
        &&& self.column_next.spec_y() == 0
        &&& MIN_TICK_DURATION_MS <= self.current_tick_duration_ms <= INITIAL_TICK_DURATION_MS
        &&& self.scoring@.score <= self.scoring@.highscore
    }

    /// In every game the tick duration lies between 100 and 750 ms, and the
    /// score does not exceed the highscore.
    pub proof fn lemma_wf_bounds(&self)
        requires
            self.wf(),
        ensures
            MIN_TICK_DURATION_MS <= self.spec_tick_ms() <= INITIAL_TICK_DURATION_MS,
            self.spec_scoring().score <= self.spec_scoring().highscore,
            self.spec_pile().wf(),
            self.spec_falling().spec_x() < BOARD_WIDTH,
            -3 <= self.spec_falling().spec_y() <= BOARD_HEIGHT - 3,
            self.spec_next().spec_y() == 0,
    {
    }

    /// The pile.
    pub closed spec fn spec_pile(&self) -> Pile {
        self.pile
    }

    /// The falling column.
    pub closed spec fn spec_falling(&self) -> Column {
        self.column_falling
    }

    /// The next column.
    pub closed spec fn spec_next(&self) -> Column {
        self.column_next
    }

    /// The scoring.
    pub closed spec fn spec_scoring(&self) -> ScoringState {
        self.scoring@
    }

    /// The tick duration, in milliseconds.
    pub closed spec fn spec_tick_ms(&self) -> u64 {
        self.current_tick_duration_ms
    }

    /// The phase of the gameplay.
    pub closed spec fn spec_phase(&self) -> GameplayState {
        self.gameplay_state
    }

    /// The message shown, if any, with the state of its effect.
    pub closed spec fn spec_message_state(&self) -> Option<Message> {
        self.message
    }

    /// The kind of the message shown, if any.
    pub closed spec fn spec_message(&self) -> Option<MessageVariant> {
        match self.message {
            Some(m) => Some(m.variant()),
            None => None,
        }
    }

    /// A new game, waiting to be started: an empty pile, a next column, no
    /// falling column on the board, the highscore read from
    /// `stored_highscore` (see [`Scoring::new`]). Fails where the system clock
    /// gives no seed, or with the error of reading the highscore.
    pub fn new(stored_highscore: Option<&str>) -> (r: Result<GameState, Error>)
        ensures
            highscore_from_storage(stored_highscore) is Err ==> r is Err,
            match r {
                Ok(g) => {
                    &&& g.wf()
                    &&& highscore_from_storage(stored_highscore) == Ok::<u32, Error>(g.spec_scoring().highscore)
                    &&& g.spec_scoring() == fresh_scoring(g.spec_scoring().highscore)
                    &&& g.spec_pile().cells() == empty_cells()
                    &&& g.spec_pile().marked() == no_marks()
                    &&& !g.spec_pile().is_blinking()
                    &&& g.spec_falling().spec_y() == -3
                    &&& g.spec_tick_ms() == INITIAL_TICK_DURATION_MS
                    &&& g.spec_phase() == GameplayState::FallingColumn
                    &&& g.spec_message() is None
                },
                Err(e) => e is ClockBeforeUnixEpoch || highscore_from_storage(stored_highscore) == Err::<u32, Error>(e),
            },
    {
        let mut rng = match create_rng() {
            Ok(rng) => rng,
            Err(e) => {
                return Err(e);
            },
        };
        let column_next = Self::create_column(&mut rng);
        let scoring = match Scoring::new(stored_highscore) {
            Ok(s) => s,
            Err(e) => {
                return Err(e);
            },
        };
        Ok(GameState {
            column_next,
            column_falling: Column::placeholder(),
            pile: Pile::new(),
            scoring,
            current_tick_duration_ms: INITIAL_TICK_DURATION_MS,
            gameplay_state: GameplayState::FallingColumn,
            message: None,
            rng,
        })
    }

    /// Starts a game over: the pile is emptied, the scoring starts again with
    /// the highscore read from `stored_highscore`, the tick duration and phase
    /// are reset, the next column starts falling, and a new seed is taken from
    /// the clock. Fails with the error of reading the highscore (the pile is
    /// then already empty), or where the clock gives no seed (everything else
    /// is then done).
    pub fn start(&mut self, stored_highscore: Option<&str>) -> (r: Result<(), Error>)
        requires
            old(self).wf(),
        ensures
            final(self).wf(),
            final(self).spec_pile().cells() == empty_cells(),
            final(self).spec_pile().marked() == no_marks(),
            !final(self).spec_pile().is_blinking(),
            final(self).spec_message() == old(self).spec_message(),
            highscore_from_storage(stored_highscore) is Err ==> r == Err::<(), Error>(
                highscore_from_storage(stored_highscore)->Err_0,
            ),
            highscore_from_storage(stored_highscore) is Ok ==> {
                &&& final(self).spec_scoring() == fresh_scoring(highscore_from_storage(stored_highscore)->Ok_0)
                &&& final(self).spec_tick_ms() == INITIAL_TICK_DURATION_MS
                &&& final(self).spec_phase() == GameplayState::FallingColumn
                &&& final(self).spec_falling().spec_y() == -3
                &&& final(self).spec_falling().spec_gems() == old(self).spec_next().spec_gems()
                &&& final(self).spec_falling().spec_is_falling()
                &&& (r is Err ==> r == Err::<(), Error>(Error::ClockBeforeUnixEpoch))
            },
    {
        self.pile.clear();
        self.scoring = match Scoring::new(stored_highscore) {
            Ok(s) => s,
            Err(e) => {
                return Err(e);
            },
        };
        self.current_tick_duration_ms = INITIAL_TICK_DURATION_MS;
        self.gameplay_state = GameplayState::FallingColumn;
        self.transition_next_column_to_falling();
        self.rng = match create_rng() {
            Ok(rng) => rng,
            Err(e) => {
                return Err(e);
            },
        };
        Ok(())
    }

    /// How many rows the falling column can fall at its column moved by
    /// `x_offset`; -1 where that column is off the board.
    fn get_available_distance_for_fall(&self, x_offset: i8) -> (d: i8)
        requires
            self.wf(),
            -1 <= x_offset <= 1,
        ensures
            d == available_distance(
                self.pile.cells(),
                self.column_falling.spec_x() as int,
                self.column_falling.spec_y() as int,
                x_offset as int,
            ),
    {
        let x_as_i8 = self.column_falling.x() as i8;
        let x = if x_offset == 0 {
            x_as_i8
        } else {
            let x_moved = x_as_i8 + x_offset;
            if x_moved < 0 || x_moved >= BOARD_WIDTH as i8 {
                return -1;
            }
            x_moved
        };
        let x = x as u8;
        let ghost cells = self.pile.cells();
        let mut first_occupied_y: u8 = 0;
        while first_occupied_y < BOARD_HEIGHT && self.pile.get(x, first_occupied_y).is_none()
            invariant
                self.wf(),
                self.pile.cells() == cells,
                x < BOARD_WIDTH,
                first_occupied_y <= BOARD_HEIGHT,
                first_occupied_from(cells, x as int, 0) == first_occupied_from(cells, x as int, first_occupied_y as int),
            decreases BOARD_HEIGHT - first_occupied_y,
        {
            first_occupied_y = first_occupied_y + 1;
        }
        let first_occupied_y = first_occupied_y as i8 - 1;
        first_occupied_y - self.column_falling.y_bottom()
    }

    /// Moves the falling column one cell to the left where there is room for
    /// it.
    pub fn move_left(&mut self)
        requires
            old(self).wf(),
        ensures
            moved_sideways(*old(self), *final(self), -1),
    {
        let available_distance = self.get_available_distance_for_fall(-1);
        if available_distance > 0 {
            proof {
                lemma_first_occupied_bounds(self.pile.cells(), self.column_falling.spec_x() - 1, 0);
            }
            self.column_falling.move_left();
        }
    }

    /// Moves the falling column one cell to the right where there is room for
    /// it.
    pub fn move_right(&mut self)
        requires
            old(self).wf(),
        ensures
            moved_sideways(*old(self), *final(self), 1),
    {
        let available_distance = self.get_available_distance_for_fall(1);
        if available_distance > 0 {
            proof {
                lemma_first_occupied_bounds(self.pile.cells(), self.column_falling.spec_x() + 1, 0);
            }
            self.column_falling.move_right();
        }
    }

    /// Cycles the gems of the falling column upwards.
    pub fn rotate_up(&mut self)
        requires
            old(self).wf(),
        ensures
            rotated(*old(self), *final(self), true),
    {
        self.column_falling.rotate_up();
    }

    /// Cycles the gems of the falling column downwards.
    pub fn rotate_down(&mut self)
        requires
            old(self).wf(),
        ensures
            rotated(*old(self), *final(self), false),
    {
        self.column_falling.rotate_down();
    }

    /// Lets the falling column fall as far as it can.
    pub fn drop(&mut self)
        requires
            old(self).wf(),
        ensures
            dropped(*old(self), *final(self)),
    {
        proof {
            lemma_first_occupied_bounds(self.pile.cells(), self.column_falling.spec_x() as int, 0);
        }
        let available_distance = self.get_available_distance_for_fall(0);
        if available_distance > 0 {
            self.column_falling.move_down(available_distance);
        }
    }

    /// Shortens the tick duration to 95 percent, down to 100 ms at least.
    fn accelerate(&mut self)
        requires
            old(self).wf(),
        ensures
            final(self).wf(),
            final(self).spec_tick_ms() == accelerated(old(self).spec_tick_ms()),
            final(self).spec_falling() == old(self).spec_falling(),
            final(self).spec_next() == old(self).spec_next(),
            final(self).spec_pile() == old(self).spec_pile(),
            final(self).spec_scoring() == old(self).spec_scoring(),
            final(self).spec_phase() == old(self).spec_phase(),
            final(self).spec_message() == old(self).spec_message(),
    {
        let current_ms = self.current_tick_duration_ms;
        assert(current_ms * ACCELERATION_FACTOR as u64 <= 750 * 95 && current_ms * ACCELERATION_FACTOR as u64 / 100
            <= current_ms) by (nonlinear_arith)
            requires
                current_ms <= 750,
                ACCELERATION_FACTOR == 95,
        ;
        let new_ms = (current_ms * ACCELERATION_FACTOR as u64) / 100;
        self.current_tick_duration_ms = if new_ms < MIN_TICK_DURATION_MS {
            MIN_TICK_DURATION_MS
        } else {
            new_ms
        };
    }

    // =========================================================================
    // Ticks
    // =========================================================================

    /// Advances the game by one tick, in its current phase; reports whether
    /// the game goes on (`false`: the game is over).
    pub fn tick(&mut self) -> (running: bool)
        requires
            old(self).wf(),
        ensures
            final(self).wf(),
            ticked(*old(self), *final(self), running),
    {
        match self.gameplay_state {
            GameplayState::FallingColumn => self.tick_falling_column(),
            GameplayState::ClearingMatches(points) => self.tick_clearing_matches(points),
            GameplayState::ApplyingHangingGemsGravity => self.tick_applying_hanging_gems_gravity(),
        }
    }

    /// The falling column moves down one row where it can (ending the current
    /// cascade); where it can fall no further, it is locked into the pile (the
    /// game is over if it sticks out above the board), matches through it are
    /// searched for, and the next column starts falling.
    fn tick_falling_column(&mut self) -> (running: bool)
        requires
            old(self).wf(),
        ensures
            final(self).wf(),
            falling_tick(*old(self), *final(self), running),
    {
        proof {
            lemma_first_occupied_bounds(self.pile.cells(), self.column_falling.spec_x() as int, 0);
        }
        let mut available_distance = self.get_available_distance_for_fall(0);
        if available_distance > 0 {
            self.column_falling.move_down(1);
            available_distance = available_distance - 1;
            self.scoring.break_cascade_sequence();
        }
        if available_distance == 0 {
            let is_column_locked = self.pile.lock(self.column_falling);
            if !is_column_locked {
                return false;
            }
            let column = self.column_falling;
            assert(column.spec_gem_blocks() == column_blocks(column.spec_x(), column.spec_y(), column.spec_gems()));
            self.gameplay_state = Self::get_game_state_after_matches_search(&mut self.pile, MatchingStructure::Column(&column));
            self.transition_next_column_to_falling();
        }
        true
    }

    /// Lets the blink of the matched gems advance; once it is over, the
    /// match's points are added to the scoring (a level-up shows "Level up!"
    /// and shortens the ticks), and the gems left hanging are to fall, if any.
    fn tick_clearing_matches(&mut self, points: u32) -> (running: bool)
        requires
            old(self).wf(),
            old(self).spec_phase() == GameplayState::ClearingMatches(points),
        ensures
            final(self).wf(),
            running,
            clearing_tick(*old(self), *final(self), points),
    {
        if self.pile.clear_matches() {
            return true;
        }
        self.add_points(points);
        self.gameplay_state = if self.pile.has_hanging_gems() {
            GameplayState::ApplyingHangingGemsGravity
        } else {
            GameplayState::FallingColumn
        };
        true
    }

    /// Adds the points of a match; on a level-up, "Level up!" is shown and the
    /// ticks get shorter.
    fn add_points(&mut self, points: u32)
        requires
            old(self).wf(),
        ensures
            final(self).wf(),
            ({
                let added = after_add(old(self).spec_scoring(), points);
                let up = level_for(added.score) > added.level;
                &&& final(self).spec_scoring() == (ScoringState {
                    level: if up {
                        level_for(added.score)
                    } else {
                        added.level
                    },
                    ..added
                })
                &&& up ==> final(self).spec_message() == Some(MessageVariant::LevelUp)
                    && final(self).spec_tick_ms() == accelerated(old(self).spec_tick_ms())
                &&& !up ==> final(self).spec_message() == old(self).spec_message()
                    && final(self).spec_tick_ms() == old(self).spec_tick_ms()
            }),
            final(self).spec_pile() == old(self).spec_pile(),
            final(self).spec_falling() == old(self).spec_falling(),
            final(self).spec_phase() == old(self).spec_phase(),
    {
        self.scoring.add(points);
        if self.scoring.is_level_increased() {
            self.message = Some(Message::new_level_up());
            self.accelerate();
        }
    }

    /// Lets the hanging gems fall and searches the whole pile for matches.
    fn tick_applying_hanging_gems_gravity(&mut self) -> (running: bool)
        requires
            old(self).wf(),
        ensures
            final(self).wf(),
            running,
            gravity_tick(*old(self), *final(self)),
    {
        self.pile.apply_hanging_gems_gravity();
        let ghost settled = self.pile;
        self.gameplay_state = Self::get_game_state_after_matches_search(&mut self.pile, MatchingStructure::Pile);
        assert forall|x: int, y: int| in_board(x, y) implies #[trigger] self.pile.cell(x, y) == settled_cell(
            old(self).spec_pile().cells(),
            x,
            y,
        ) by {
            assert(settled.cell(x, y) == self.pile.cell(x, y));
        }
        true
    }

    /// Searches the pile for matches and gives the phase that follows: the
    /// clearing of the matches found, or the falling of the next column.
    fn get_game_state_after_matches_search(pile: &mut Pile, matching_structure: MatchingStructure) -> (state: GameplayState)
        requires
            old(pile).wf(),
            matching_structure matches MatchingStructure::Column(c) ==> c.spec_y() <= i8::MAX - 2,
        ensures
            final(pile).wf(),
            final(pile).cells() == old(pile).cells(),
            final(pile).marked() == match_search(matching_structure, old(pile).cells(), old(pile).marked()).matched,
            final(pile).is_blinking() == old(pile).is_blinking(),
            final(pile).blinking() == old(pile).blinking(),
            state == phase_after_search(
                if match_search(matching_structure, old(pile).cells(), old(pile).marked()).has_matches {
                    Some(match_search(matching_structure, old(pile).cells(), old(pile).marked()).points)
                } else {
                    None
                },
            ),
    {
        match pile.find_matches(matching_structure) {
            Some(points) => GameplayState::ClearingMatches(points),
            None => GameplayState::FallingColumn,
        }
    }

    // =========================================================================
    // Access
    // =========================================================================

    /// The next column.
    pub fn get_next_column(&self) -> (c: Column)
        ensures
            c == self.spec_next(),
    {
        self.column_next
    }

    /// The falling column.
    pub fn get_falling_column(&self) -> (c: Column)
        ensures
            c == self.spec_falling(),
    {
        self.column_falling
    }

    /// The pile.
    pub fn get_pile(&self) -> (p: &Pile)
        ensures
            *p == self.spec_pile(),
    {
        &self.pile
    }

    /// The scoring.
    pub fn scoring(&self) -> (s: &Scoring)
        ensures
            s@ == self.spec_scoring(),
    {
        &self.scoring
    }

    /// The tick duration, in milliseconds.
    pub fn tick_rate(&self) -> (ms: u64)
        ensures
            ms == self.spec_tick_ms(),
    {
        self.current_tick_duration_ms
    }

    /// The phase of the gameplay.
    pub fn gameplay_state(&self) -> (state: GameplayState)
        ensures
            state == self.spec_phase(),
    {
        self.gameplay_state
    }

    /// The message shown, if any.
    pub fn message(&self) -> (m: Option<&Message>)
        ensures
            match m {
                Some(msg) => self.spec_message() == Some(msg.variant()),
                None => self.spec_message() is None,
            },
    {
        match &self.message {
            Some(msg) => Some(msg),
            None => None,
        }
    }

    /// Shows `msg`, or no message.
    pub fn set_message(&mut self, msg: Option<Message>)
        requires
            old(self).wf(),
        ensures
            final(self).wf(),
            final(self).spec_message() == (match msg {
                Some(m) => Some(m.variant()),
                None => None::<MessageVariant>,
            }),
            final(self).spec_pile() == old(self).spec_pile(),
            final(self).spec_falling() == old(self).spec_falling(),
            final(self).spec_scoring() == old(self).spec_scoring(),
            final(self).spec_phase() == old(self).spec_phase(),
            final(self).spec_tick_ms() == old(self).spec_tick_ms(),
    {
        self.message = msg;
    }

    /// Lets the message's effect advance, and takes the message away once its
    /// effect is over.
    pub fn tick_message(&mut self)
        requires
            old(self).wf(),
        ensures
            final(self).wf(),
            final(self).spec_message() is None || final(self).spec_message() == old(self).spec_message(),
            (old(self).spec_message() == Some(MessageVariant::Paused) || old(self).spec_message() == Some(
                MessageVariant::GameOver,
            )) ==> final(self).spec_message() == old(self).spec_message(),
            final(self).spec_pile() == old(self).spec_pile(),
            final(self).spec_falling() == old(self).spec_falling(),
            final(self).spec_scoring() == old(self).spec_scoring(),
            final(self).spec_phase() == old(self).spec_phase(),
            final(self).spec_tick_ms() == old(self).spec_tick_ms(),
            message_tick_outcome(old(self).spec_message_state(), final(self).spec_message_state()),
    {
        let shown = match &mut self.message {
            Some(msg) => msg.tick(),
            None => true,
        };
        proof {
            if let Some(before) = old(self).message {
                let after = self.message->Some_0;
                assert(message_ticked(before, after, shown));
            }
        }
        if !shown {
            self.message = None;
        }
    }

    /// A resting column at the top-left corner, with gems drawn with the
    /// generator.
    fn create_column(rng: &mut fastrand::Rng) -> (column: Column)
        ensures
            column.spec_x() == 0,
            column.spec_y() == 0,
            !column.spec_is_falling(),
    {
        Column::new(0, 0, rng)
    }

    /// The next column starts falling at a column drawn with the generator,
    /// and a new next column is drawn.
    fn transition_next_column_to_falling(&mut self)
        requires
            old(self).wf(),
        ensures
            final(self).wf(),
            final(self).spec_falling().spec_y() == -3,
            final(self).spec_falling().spec_gems() == old(self).spec_next().spec_gems(),
            final(self).spec_falling().spec_is_falling(),
            final(self).spec_pile() == old(self).spec_pile(),
            final(self).spec_scoring() == old(self).spec_scoring(),
            final(self).spec_tick_ms() == old(self).spec_tick_ms(),
            final(self).spec_phase() == old(self).spec_phase(),
            final(self).spec_message() == old(self).spec_message(),
    {
        let x = rng_u8_below(&mut self.rng, BOARD_WIDTH);
        let new_next = Self::create_column(&mut self.rng);
        let mut column_falling = self.column_next;
        self.column_next = new_next;
        column_falling.set_falling(x);
        self.column_falling = column_falling;
    }
}

/// A generator seeded with the milliseconds since the Unix epoch; fails where
/// the system clock stands before 1970.
fn create_rng() -> (r: Result<fastrand::Rng, Error>)
    ensures
        r is Err ==> r == Err::<fastrand::Rng, Error>(Error::ClockBeforeUnixEpoch),
{
    match millis_since_unix_epoch() {
        Some(seed) => Ok(rng_with_seed(seed)),
        None => Err(Error::ClockBeforeUnixEpoch),
    }
}

} // verus!
