# engine

Stat aggregation for a character build planner, verified with Verus.

The library sums stat contributions from items, sockets and skill-tree
nodes, folds tree-node lines (stats, attribute bonuses, conversions,
disables) into them, scales attributes, applies percent multipliers to
life, mana, the replenishes and ailment durations, rebuilds multiplied
stats after conversions, and explains a stat as a per-source breakdown.
It applies equipped items as stat sources, and computes the damage of a
skill hit: effective rank, base damage, flat damage, synergy and skill
percents, extra damage, breaks, resistance, crits and multicast.

## Values

Every stat value is a range `(min, max)` of `i64` endpoints counting
millionths of a point: `(1_500_000, 2_000_000)` is 1.5 .. 2, and 50% is
`50_000_000`.  Endpoints are computed independently; sums and products
saturate at the bounds of `i64`.  A flat value multiplied by percents is
taken exactly and rounded once (down to a whole point where the engine
floors it); other products are rounded to the nearest millionth (halves
away from zero).  Game data (stat definitions, tag rules,
granted skills, item tables, tree nodes with their classified lines) is
passed in as values.

## Layout

- `src/` — the verified library.  Each public function states its result
  over spec functions on `Map`, `Seq` and integer views (`ranged`,
  `keymap`, `stat_map` hold the shared arithmetic and map model);
  `laws.rs` holds the properties proved across functions.
- `tests/` — tests on concrete values.
- `app/` — serde copies of the breakdown types with values as floats, and
  their JSON form.
