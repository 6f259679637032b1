# space_sim

A GPU n-body space simulator. The crate is split in two:

- `src/` is the verified library (Verus): the bookkeeping and decisions of
  the simulator that do not depend on floating point or on the GPU.
  - `mesh`: the latitude/longitude sphere mesh that bodies are drawn with
    (vertex grid order, triangle indices, index buffer bytes).
  - `trail`: per-body position trails capped at 25 points, and their
    layout as one vertex list with one range per trail.
  - `render`: the gravity workgroup count and the ordered draw steps of a
    frame's render pass.
  - `controls`: held movement keys, the camera moves they ask for, and the
    frame-rate counter.
- `app/` is the program around it: window and GPU setup, shaders, the
  floating-point physics and camera math, egui, and the event loop, which
  carries out what the library decides.

Shaders are read at run time from `resources/` (`particle.wgsl`,
`trail.wgsl`, `star.wgsl`, `gravity.wgsl`).
