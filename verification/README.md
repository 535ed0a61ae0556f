# edrefis

A falling-block puzzle game whose rules are a verified library.

- `src/` holds the game logic with its contracts, proved by Verus:
  - `well.rs`: the playfield, tile joins, line clearing and lowering;
  - `piece.rs`: piece shapes, rotation, movement, gravity, locking;
  - `randomizer.rs`: the history-based piece randomizer;
  - `input.rs`: per-key press counters and delayed auto-shift;
  - `field.rs`: the per-tick state machine of one field;
  - `render.rs`: the integer decisions behind drawing (tile joins, outline
    strokes, background and read-out numbers);
  - `image.rs`: PNG bytes decoded to RGBA pixels through `minipng`;
  - `world.rs`: fields as components of a `hecs` world;
  - `net.rs`, `proto.rs`: replication markers and messages.
- `tests/` runs the library on concrete values.
- `app/` is the program around it: SDL3 input and sound, wgpu and glyphon
  drawing, nanoserde messages and a tokio websocket server
  (`--server`).
