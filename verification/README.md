# bevy_fighting_lib

The rules of a two-player 3D fighting game, verified with Verus, and the Bevy game that runs them.

- `src/` is the verified library:
  - `input`: the per-frame input of a player packed into a 32-bit word and read back, the
    phases of buttons and directions from frame to frame, and the matching of command inputs
    (motion sequences) against the input history, mirrored for a fighter facing left.
  - `util`: the ring buffer of past inputs, read newest first, and its iterator.
  - `fighter`: the states of a fighter and the conditions that move it between them, the
    hitbox schedule of each state, projectiles taken into and out of play, hits, hitstun,
    facing, and the state-file keys.
  - `game`: the phases of a round and the conditions that run each group of systems.
  - `battle`: the two fighters and their lifebars.
  - `lib.rs`: building a fighter's states from its state list.
- `app/` is the game around the library: asset loading (pickle and JSON), the engine's
  components and systems, and the floating-point parts (movement, camera, collision shapes).
- `tests/` runs the library on concrete values.
