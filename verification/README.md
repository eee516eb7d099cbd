# td_sandbox

The rules of a grid tower-defence game ("Scrap Defence"), written in Verus
and proved against their contracts: the scrap pile and its footprint, the
map's border cells, the goals enemies path toward, scrap theft and its
conservation, endless-mode bankruptcy, run statistics, sound timing, and the
generation of terrain and obstacle clusters that never cut the map's edge
midpoints off the pile.

Layout:

- `src/` — the verified library. Random draws go through `rand`'s
  `SmallRng`, and the navigation grid is `bevy_northstar`'s ordinal grid;
  both are reached through small trusted wrappers whose contracts are
  stated in `random.rs` and `nav.rs`.
- `tests/` — tests of the library on concrete values.
- `app/` — a headless program that runs an endless game on a fixed time
  step. Everything computed in floating point (pile radius, timings,
  chances, world-space positions) lives there.
