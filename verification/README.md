# zap_engine

A headless, data-oriented 2D game engine whose bookkeeping core is verified
with Verus.

- `src/` is the verified library. It holds the engine's integer and
  structural logic with contracts proved by Verus: render layers and layer
  baking, the shared-buffer protocol layout, visibility masks, the effects
  random generator and segment colors, the triangle-strip conversion, glyph
  lookup, render batching (stable draw order and per-(layer, atlas) batches),
  the scene's id index, the spatial cell index, the transform hierarchy, the
  tween table, tile grids, animation frame stepping and the input queue.
- `app/` is the runtime around it: everything that works on floating point
  (positions, cameras, easing curves, particles, lighting), the physics world
  (rapier2d), vector tessellation (lyon), JSON manifests (serde), and the
  browser game runner. It calls the library for the logic above.
- `tests/` exercises the library on concrete values.
