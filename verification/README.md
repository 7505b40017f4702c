# godot_rapier

The verified core of a bridge between the Godot editor and the Rapier 3D
physics engine, with rollback networking.

- `src/` is the library, written in Verus and proved:
  - `objects`: handle and object kinds and the conversions between them;
  - `queue`: the actions that change the physics world and the order in
    which they are applied;
  - `maps`, `lookup`: the engine's insertion-ordered maps, and the table that
    ties node identifiers to raw physics handles;
  - `process`: what applying a queued action decides before Rapier is called;
  - `buffer`: the rollback buffer of timesteps, states and node actions;
  - `sync`: peers, session start and stop, and the per-tick message;
  - `nodes`: the decisions of the editor nodes (moving, teleporting,
    configuring, collider parenting);
  - `text`, `hashing`: string helpers and the state hash.
- `tests/` runs the library on concrete values.
- `app/` is the Godot extension around it: Rapier calls, snapshots with
  bincode, floating-point controller work, the network adapter and logging.

Design notes:

- The rollback buffer keeps its timesteps in a `Vec` ordered by timestep id,
  and each timestep's actions in a `Vec` of per-node groups in the order the
  nodes first acted.  These behave as the engine's insertion-ordered maps do
  (lookup by key, groups in insertion order), but the buffer needs more than
  lookups from them: evicting the oldest timestep, and applying a timestep's
  actions in an order that is proved.  The lookup table, which is only ever
  read by key, keeps the engine's map behind trusted wrappers.
- A timestep's actions are applied by node identifier, then operation.  The
  buffer keeps at most one action per node and operation, so that order is
  total there.  Should a step be built with two moves of one node, they are
  applied in the order recorded: ordering them by the length of the movement
  would need floating point, which the library does not hold.
