# ternary_dockyard

Maintenance and repair of ternary agents (state vectors over {-1, 0, +1}),
verified with Verus.

- `src/` is the verified library:
  - `ternary`: the ternary value type and counting over state vectors;
  - `agent`: agents, their status and state sums;
  - `binary64`: comparison and clamping of IEEE-754 binary64 numbers given by
    their bit patterns (health and quality scores are held that way);
  - `decimal`: decimal rendering of integers for issue descriptions;
  - `dockyard`: active and docked rosters, the maintenance log, dry-dock
    transitions (`DryDock`) and applying refits;
  - `repair`: diagnosis into repair bills (issues, effort, priority);
  - `refit`: rebalancing plans;
  - `maintenance`: preventive maintenance schedules;
  - `salvage`: the salvage yard.
- `app/` holds the floating-point arithmetic (integrity, salvage qualities)
  and the conversions between `f64` and the bit patterns the library holds.
- `tests/` exercises the library on concrete values.
