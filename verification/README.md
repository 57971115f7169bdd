# voxel_realm

The world model of a small voxel game, verified with Verus.

`src/` is the library:

- `coord` — chunk and block coordinates, block indices, chunk map keys.
- `block`, `item` — block kinds, their face textures, inventory items.
- `realm` — chunks and the loaded world: block reads and writes, and the
  bookkeeping of which blocks are drawn (one instance per visible block,
  kept consistent when blocks are placed or broken).
- `streaming` — which chunks to load and unload as the player moves.
- `terrain` — laying out ground and birches from column heights.
- `inventory`, `ui_state`, `control` — the player's items, the panels and the
  controls, as state machines from input events to actions.
- `entity` — the index list of the player model.

`app/` is the game around it: window and input (winit), rendering (wgpu,
glyphon), camera and physics, terrain noise, chunk files and worker threads.
It reads its shaders from `res/shaders` and textures from `res/texture`.
