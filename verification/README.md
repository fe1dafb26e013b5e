# bitcraft_game

The game rules of a voxel-world game server, as a library verified with Verus.

- `src/` holds the rules, each function with a contract that Verus proves:
  inventories (`inventory`, `inventory_fill`, `inventory_transfer`,
  `inventory_pool`, with their laws in `inventory_laws`), tool wear, rents,
  lost items, placement checks, achievements, ability unlocks, quests, duels,
  traders, housing and agent schedules. For resource respawning and
  prospecting trails it holds the decisions of each step (which clumps may
  spawn and how often, when a round runs, which trail point to try, drop or
  keep, and the finished trail), not the loops that call the database
  between them.
- The database, randomness and floating-point parts of the server are not
  here: callers read the database and hand the library plain values
  (volumes, levels, rolls already decided) and write back what it returns.
- `app/` holds the floating-point rules (character stats, cooldowns,
  teleportation energy, the spawn chances and noise of resource options),
  the loops that drive the respawn rounds and the
  trail search around the library's steps, and the glue that turns rolls
  and ratios into the plain answers the library takes.
- `tests/` runs the library on concrete cases.
