# iso_dungeon

The rules of an isometric dungeon crawler, written in Verus and proved
against their contracts, with a thin bevy front end around them.

## Layout

- `src/` — the verified library.
  - `components.rs`, `map.rs`, `pos_map.rs`: grid positions, tiles, props,
    doors, floors (`FloorMap`) and the dungeon; `PosMap` is a position-keyed
    map with an exact `Map` view.
  - `mapgen.rs`, `rng.rs`: random room-and-corridor generation of floors and
    of a multi-floor dungeon linked by stairs.  The only trusted item is the
    random-number wrapper in `rng.rs`.
  - `pathfind.rs`, `reach.rs`: breadth-first path search, proved sound and
    complete, and the connectivity facts behind "every room is reachable".
  - `inventory.rs`, `log.rs`: the item bar, chest and key handling, and the
    scrolling message log.
  - `player.rs`, `actions.rs`: facing, animation and jump state, and the
    decisions taken on each key press, click, step, jump, landing and stair.
- `tests/` — tests of the library on concrete values.
- `app/` — the bevy program: windowing, rendering, input, timers, lighting and
  everything else in floating point, calling the library for each decision.
