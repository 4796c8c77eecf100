# daub

A small GPU UI drawing library, split in two:

- `src/` is the verified library (Verus). It holds the decisions: shelf
  packing of images into a growing atlas with gutter extrusion, grouping of
  primitives into per-kind batches within layers and ordered scenes, the
  shared vertex buffer writer and its alignment, frame planning (which
  layers and batches are prepared, and the viewport, scissor and draw
  commands of a frame), the order of calls into the primitive renderers and
  how a failing call ends it, the render-pipeline cache, text batch slots, and the
  window runner's answers to events and surface states.
- `app/` is the wgpu / glyphon / winit side: floating-point geometry, the
  quad, image and text renderers, and the window runner, all driven by the
  library.

Modules of the library: `atlas`, `scene`, `ordered`, `vertex`, `render`,
`image`, `text`, `window`, `protocol`.
