# termcraft

The verified core of TermCraft, a Minecraft-inspired sandbox for the
terminal, written in Verus.

Layout:

- `src/block.rs` — block kinds, their save ids, solidity, drops, names,
  glyphs and colors.
- `src/world.rs` — the 600 x 160 side-view world: tile access, surface
  search, byte encoding, water flow, collision queries.
- `src/worldgen.rs` — the integer stages of world generation (terrain
  layers, caves, ore, bedrock, trees, spawn search) and their guarantees.
- `src/inventory.rs` — stock counts, the hotbar, crafting and the save form.
- `src/controls.rs` — key and mouse handling, ticks, health and messages of
  a play session.
- `src/menu.rs` — the crafting menu, the inventory line, crafting the
  selected recipe with its message, and decimal numbers.
- `src/actions.rs` — mining and placing: what the targeted block gives,
  whether a block may go into a cell, the stock it costs, the messages.
- `src/hud.rs` — numbers shown in the status line.
- `src/clock.rs` — the default world seed.
- `app/` — what stays outside the proofs: the floating-point parts of world
  generation, entity physics and the view direction, terminal input and
  setup, and the save file (JSON through serde).

Not here: the 128 x 64 x 128 voxel world, the ray casting that finds the
targeted block and renders the view, lighting and the day/night cycle, the
3D player physics, and the play loop that ties them together. The library
decides what mining and placing do given the targeted block (`actions`), but
nothing here writes the result into a 3D world, and there is no program
entry point; saving and loading are the helpers in `app/save.rs`.
