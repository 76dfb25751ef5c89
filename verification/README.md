# my_mod

Native logic of an anime champion pack (Saitama, Paragon, Naruto, Minato) for
Teamfight Manager 2, written in Verus: every function of the library carries a
`requires`/`ensures` contract that Verus proves.

## Layout

- `src/` — the verified library.
  - `geometry.rs` — integer square roots, squared distances (saturating),
    distance to a segment, force-move speed, the splitmix64 mixer and the
    seeded choices built on it.
  - `text.rs` — whitespace, trimming, prefixes and the entity-name match
    (exact name, or the name followed by digits).
  - `table.rs`, `seq_util.rs` — association lists (last entry wins) and
    order-preserving filtering.
  - `world.rs` — plain snapshots of entities, buffs, players, projectiles,
    cast inputs and the kill log.
  - `state.rs` — per-simulation, per-player persistent state: ownership
    resolution, counters, flags, persistent stacks and base stats, lifecycle,
    kill-log takedowns, clearing a player or a whole simulation.
  - `buff_persistence.rs` — buffs that persist through death: capped
    remembered copies, pruning, and restoring the shortfall after a respawn.
  - `periodic.rs` — periodic damage channels and delayed triggers.
  - `spawns.rs` — spawned units, their attack blocking, effect cancellation
    and target aggregation scopes.
  - `visuals.rs` — buff visual frames and snapshots, projectile trackers.
  - `targeting.rs` — buff queries, damage trackers, markers, target checks,
    nearest targets with a buff, projectile launch points.
  - `abilities.rs` — the champions' numbers and damage formulas.
  - `laws.rs` — properties relating several operations (read after write,
    idempotence, isolation between simulations).
- `tests/` — tests of the library on concrete values.
- `app/` — the game-facing side: registration with the host SDK, the global
  state, snapshots of the running match, host actions, and the parts that use
  floating point.

## Why the maps are association lists

Every keyed collection of the state — records, counters, flags, owners,
buff visual snapshots per simulation, projectile trackers — is a `Vec` of
`(key, value)` pairs read through `table.rs`, including the ones keyed by a
plain integer (trackers by launch id, visual snapshots by simulation id),
where `std::collections::HashMap<usize, _>` would have been available with
vstd's specification. The reasons:

- One model for every map. `lookup`, `table_get`, `table_insert` and
  `table_remove` are proved once, generically over `KeyEq`, and the state's
  contracts and laws all speak the same `lookup` language. The counters and
  flags are keyed by `(sim, player, String)`; vstd's `HashMap`
  specification holds only for key types known to obey its key model
  (integers, `bool`, boxes of them), which neither `String` nor a tuple is,
  so those maps had to be lists anyway, and mixing two map models in
  one state would double the lemmas behind every law that spans them
  (clearing a simulation touches both kinds at once).
- Walking order. Tracker updates and visual rebuilds walk every entry and
  their results (which trackers move, which frames are emitted, in which
  order) depend on that walk. The order in which a `HashMap` is iterated is
  unspecified and differs from one process to the next, so no contract could
  name the result; over a list the order is the insertion order and the
  contracts state it exactly.
- Removal by predicate. Superseding a tracker and clearing a simulation
  remove every entry matching a condition; `retain` on a `HashMap` has no
  specification in vstd, while `vec_retain` (in `seq_util.rs`) is verified
  to keep exactly the entries that pass, in order.
