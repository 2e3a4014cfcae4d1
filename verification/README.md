# proximity

A two-player tile placement game on a hex-offset board of 10 × 8 cells.
Players place numbered tiles from a shuffled bank; a tile reinforces the
neighbouring tiles of its owner and captures weaker neighbouring tiles of the
other player. Players are people, random, greedy, or Monte Carlo searchers.

Layout:

- `src/` — the verified library (Verus):
  - `constants.rs`: board constants, the configuration, cell coordinates;
  - `valid_moves.rs`: the list of free cells, an `arrayvec::ArrayVec`;
  - `grid.rs`: the board, neighbours, and how a placed tile acts on them;
  - `player.rs`: players and their banks of rolls;
  - `game.rs`: placing tiles, scores, the winner;
  - `moves.rs`: random, greedy and Monte Carlo moves, random playouts;
  - `play.rs`: dispatching a move by move type, readiness checks;
  - `text.rs`, `human.rs`, `args.rs`: reading typed cells and arguments;
  - `display.rs`: the board's text; `python.rs`: the Python helper.
- `app/` — the program: command line, terminal input and output, colours,
  timing, the hole chance (a float) and the Python bindings.
- `tests/` — tests of the library.
