# tak

A text version of the board game Tak, with its rules written as a library
whose behaviour is specified by contracts and proved with Verus.

- `src/` — the verified library
  - `piece.rs`: players, stone kinds, stones
  - `stack.rs`: the pile of stones on a square
  - `board.rs`: the board, placing stones, moving stacks, roads, a full
    board, and the proofs that no stone is ever created or lost
  - `count.rs`: sums over the board used by those proofs
  - `game.rs`: moves, turns and the outcome of a game
  - `command.rs`: reading a typed command
  - `ai.rs`: the random computer opponent
  - `learning.rs`: the rule-bound parts of the learning opponent
  - `rng.rs`: the calls into `rand`, with what the library relies on
- `tests/` — tests run against the compiled library
- `app/` — the program: terminal input and output, pauses between moves,
  and the learning opponent's floating-point weights
