# fluster_core

The verified core of a vector-animation player and editor. Movies are lists of
actions (define shapes, create and update containers, present frames); the
player steps through them, the engine keeps a scene graph of containers, and
the editor drives tools and a scratch pad that builds new shapes.

## Layout

- `src/` — the library, verified with Verus.
  - `actions.rs` — the action list: cursor, frame counter, label cache, jumps.
  - `runner.rs` — reading the initialization section, running actions up to
    the next present, counting the frames still to show.
  - `serialization.rs`, `reader.rs` — the stream format (header and action
    frames) and a reader that takes a stream in pieces through a growable
    buffer.
  - `resources.rs` — the library of shapes and textures, the container
    mapping, the scene graph and the queues of container definitions.
  - `systems.rs`, `engine.rs`, `components.rs` — the decisions of creating
    and updating containers (which entity, which parent, which layers, where
    a tween starts), removing containers, combining tweens, the drawing order
    and the front-to-back sort of hit entities. The components themselves,
    mostly floating point, are kept in `app/`.
  - `display_list.rs` — the display list of the standalone player: the root,
    placing and removing entities.
  - `tween.rs` — tween timing by time or by frames.
  - `simulation.rs`, `tools.rs`, `scratch_pad.rs` — the editor's timeline,
    tools and scratch pad.
  - `ids.rs`, `types.rs` — identifiers and small value types.
- `tests/` — tests of the library.
- `app/` — what stands around the library: easing curves and color mixing in
  floating point, serde encodings, stream I/O, the playback loop and the
  editor's glue.
