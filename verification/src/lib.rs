//! Game logic of a falling-gems puzzle: a pile of gems on a fixed board,
//! falling three-gem columns, match detection in four directions, cascading
//! gravity, scoring, and the small timing effects shown around the board.

pub mod blocks;
pub mod clock;
pub mod errors;
pub mod logging;
pub mod messages;
pub mod palette;
pub mod game_state;
pub mod randomness;
pub mod rendering;
pub mod score;
pub mod scoring;
pub mod stage_handlers;
pub mod terminal;
pub mod visual_effects;
