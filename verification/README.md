# Shrinkz

A territory-claim arcade game: draw walls that grow in both directions from a click while
bouncing balls try to stop them; closed regions without balls fill in as claimed territory,
and claiming 75% of the playfield clears the level.

## Layout

- `src/` — the verified rules (Verus):
  - `rules.rs` — phases, levels, lives, score, the optional level timer, commands, and the
    life cycle of the two halves of a growing wall, each operation specified by a spec
    function over `RulesView`, with the game's laws as proof functions;
  - `grid.rs` — the claim grid: barrier marking, the flood fill from the balls (a cell
    ends up free exactly when a ball reaches it through open cells), cell counts, and the
    merge of free cells into an exact, row-by-row greedy cover of blocks;
  - `theme.rs` — the built-in themes and their cycling order;
  - `types.rs` — `Axis`, `Phase`, `TimerView`.
- `tests/` — tests of the library.
- `app/` — the Bevy front end and the floating-point simulation (ball motion, wall
  geometry, mapping the playfield to grid cells), which asks the library for every rule
  decision.
