# voxel_game

A small voxel world rendered with wgpu, split in two crates.

- `src/` is the verified library (Verus):
  - `chunks`: world generation (the three coordinate planes through the origin are red,
    green and blue), the cache of generated chunks, the queue of chunks around the player,
    and the mesh builder that turns the queued chunks into a vertex buffer of distinct
    vertices and an index buffer that reproduces the triangle list exactly.
  - `entities::entity`: entity ids, callback flags and the registry of entities.
  - `entities::key_manager`: the per-key state machine (pressed, held, released, not
    pressed) driven by keyboard events and frame ends.
  - `renderer::pipeline`: buffer size padding and when a buffer must grow;
    `renderer::instance`: what a frame does with the surface's answer, which surface
    format to take, and which window sizes the surface accepts.
  - `fps`: the frame-rate target.
- `app/` holds the window, the GPU device, the camera, frame timing and the event loop,
  which call into the library.

The tests under `tests/` run the library on concrete values.
