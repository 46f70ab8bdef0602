# soorat

The rendering engine's core logic, written in Verus and verified:

- `src/render_graph.rs` — named render passes with dependencies; the
  execution order is specified as a depth-first walk and proved to list every
  enabled pass once, only enabled passes, and (for acyclic dependencies) each
  pass after what it depends on.
- `src/primitives.rs`, `src/terrain.rs`, `src/batch.rs` — the triangle index
  lists of the built-in meshes, terrain grids and sprite batches, with every
  index proved in bounds.
- `src/sprite.rs`, `src/pipeline.rs` — stable z-order sorting of sprites and
  the grouping of sorted sprites into draw calls.
- `src/screenshot.rs`, `src/texture.rs` — screenshot encoding and texture
  decoding through the `image` crate, and the size checks around them.
- `src/animation.rs` — the parent of each joint of a skin, found in the
  joints' child lists.
- `src/lod.rs` — the consistency check of a terrain LOD table.
- `src/error.rs`, `src/window.rs`, `src/text.rs`, `src/color.rs`,
  `src/drm.rs`, `src/capabilities.rs` and the small enum modules.

`app/` holds what the verifier does not take: floating-point vertex data,
colors, level-of-detail selection, GPU texture uploads, window settings with
serde, and writing screenshot files.
