# riichi

Core logic of riichi mahjong, verified with Verus: tiles and hand notation,
shanten numbers, the score table, the single-player calculator's hand and
wall state, mjai events, the checks on a seat's reactions, the deal of a
kyoku from a game seed, the steps and settlement rules of a kyoku, the
seating and seeds of 1v3 and 2v2 evaluation batches, and the records and
action labels read back from game logs.

Layout:

- `src/` – the verified library. Every public function states what it
  returns in its `ensures`; the public proof functions state the laws that
  tie several functions together (the shanten number is the least number of
  tiles to draw, for every hand that `calc_normal` and `calc_all` admit; a
  step of a kyoku neither creates nor loses a tile; a kyoku settles without
  creating points; undoing a discard restores the state; and so on).
- `tests/` – tests on concrete values.
- `app/` – the parts that stay outside the verifier: mjai JSON, the
  game result with its JSON log, the agent interface, ndarray output and
  the floating-point features of the rank predictor.

Left out: running the evaluation batches themselves (model agents, threads
and log files), the observation encoders and the single-player
calculator's expected-value search, which work in floating point.

The outside crates called from `src/` (tinyvec, sha3, rand, rand_chacha)
are reached through a few trusted wrappers whose doc comments say what is
assumed of them.
