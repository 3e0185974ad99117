# conways_game_of_life

Conway's game of life on a fixed rectangular board, verified with Verus.

- `src/rules.rs` — the model: boards as `Seq<Seq<bool>>`, neighbour counts,
  the life rule, one evolution step as an in-place row-major sweep, line
  painting, and the laws proved of them.
- `src/board.rs` — `GameBoard` and its operations (create, read, set, copy,
  count neighbours, evolve, draw into an RGBA frame, draw lines, row text).
- `src/line.rs` — the trusted calls into `line_drawing`'s Bresenham iterator
  (creating it and taking its next point).
- `src/control.rs` — what one round of keyboard and mouse input does to the
  board, and which drawing, presenting or exiting follows.
- `app/main.rs` — the window, the event loop and printing (`winit`,
  `winit_input_helper`, `pixels`).
- `tests/` — tests of the library.
