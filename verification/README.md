# minesweeper

A console minesweeper game whose rules are verified with Verus.

- `src/` is the library: the board (`board.rs`), the rules as
  mathematics (`rules.rs`), the proofs about digging (`flood.rs`), bomb
  placement (`placement.rs`), arithmetic facts about the grid (`lemmas.rs`),
  the laws of the game (`laws.rs`), the look of cells and colours
  (`style.rs`, `screen.rs`), the decisions of the game loop (`game.rs`) and
  the shuffle drawn with `rand` (`random.rs`).
- `app/` is the terminal front end: arguments, keys, the clock and drawing
  with `crossterm`.
- `tests/` runs the library on concrete boards.

Run with `easy`, `normal` or `hard`, or with a width, a height and a number
of bombs, e.g. `8 8 10`. Arrows move, Space or Enter digs, `f` flags, Esc
quits.
