# columns

A falling-gems puzzle for the terminal: columns of three gems fall onto a
board six cells wide and thirteen high; lines of three or more equal gems in
any of four directions blink and are cleared, the gems above them fall, and
cascades of matches multiply the points.

- `src/` is the game's logic, verified with Verus: gems, columns and the pile
  (`blocks/`), the search for matches and gravity, the game and its ticks
  (`game_state.rs`), scoring and the stored highscore (`scoring.rs`,
  `score.rs`), messages and their effects, the stages and their keys
  (`stage_handlers.rs`), and the arithmetic of the screen layout
  (`rendering.rs`). Calls into the clock and the random-number generator are
  made through small trusted wrappers (`clock.rs`, `randomness.rs`).
- `app/` is the program around it: the terminal (through ratatui), the data
  directory, the highscore file, the log file and the main loop.
- `tests/` runs the library on concrete games and boards.
