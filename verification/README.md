# murmur

The deterministic simulation core of Project Murmur, a turn-based stealth
game, written in Verus: every function of the library carries a contract
that Verus proves, apart from one string primitive of `text` whose
contract restates what the standard library documents.

## Layout

- `src/` — the verified library.
  - `geom`, `map` — positions, directions, sight cones, lines of sight,
    stairs and the tile map.
  - `data`, `validation`, `wording`, `loc`, `text` — the authored content,
    its cross-checks, display text and the string catalogue.
  - `world`, `access`, `contract`, `campaign` — mission state, who may stand
    where, contract constraints and the campaign between missions.
  - `actions` — turning a player command into an action, or a rejection.
  - `resolution` — simultaneous turn resolution: action phases, contested
    movement, countdowns, departures and mission outcomes.
  - `perception` — what every NPC notices at the end of a turn.
  - `layout`, `grammar`, `schedule`, `facts`, `reachability`, `path` — the
    pieces of venue generation and movement that do not draw random
    numbers themselves: the venue graph check, the target's schedule from
    drawn choices, the briefing facts, the physical reachability proof, the
    access progression from a civilian start, and the NPC path graph.
- `tests/` — tests of the library on small hand-built venues.
- `app/` — the command-line tools: loading the RON content and the string
  table from disk, drawing the random numbers a contract board needs,
  reading and writing campaign saves, and running the grid search over the
  library's path graph.
