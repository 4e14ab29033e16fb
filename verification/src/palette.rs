//! The RGB colors of the in-game messages (true-color terminals).

use vstd::prelude::*;

verus! {

/// Color of "Get ready!".
pub const GET_READY_COLOR_SOURCE: [u8; 3] = [0, 195, 0];
/// Color of "Level up!".
pub const LEVEL_UP_COLOR_SOURCE: [u8; 3] = [255, 135, 0];
/// Color of "Paused...".
pub const PAUSED_COLOR_SOURCE: [u8; 3] = [170, 170, 170];
/// Color of "Game over!".
pub const GAME_OVER_COLOR_SOURCE: [u8; 3] = [250, 15, 25];

} // verus!
