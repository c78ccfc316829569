# tetris

The game logic of a falling-block puzzle core for libretro, verified with Verus.

- `src/` is the verified library: the pieces and their rotations
  (`game::tetromino`), block colours (`game::block`), the high-score table
  (`application::savegame`), held-key repeats (`input`), and the decisions of
  each screen (`screens::*`): moves, landing, line clearing and scoring on the
  game screen, name entry on the high-score screen, the title menu, and which
  screen follows which (`application::tetris`). Each public function states its
  result over a model of the state; the laws the game keeps are proof functions
  beside the code they speak of.
- `app/` is the libretro core around it: the engine's event queue, timers,
  drawing and input, which hand plain values to the library and act on what it
  returns.
- `tests/` runs the library on concrete games and tables.
