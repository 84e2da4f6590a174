# pixels

A tiny pixel frame buffer, and a simple space-shooter game that shows it off, with the logic of
both proved correct by Verus.

## Layout

- `src/` — the verified library.
  - `geo`, `sprites`, `loader`, `timing`: points and rectangles, sprites and blitting, PCX
    decoding of the assets, durations in nanoseconds.
  - `invaders`, `collision`, `world`, `lasers`, `update`, `draw`: the game world — the fleet and
    its stepping, collisions, the phases of an update and their composition, and drawing.
    `World::wf` is the invariant that every phase keeps.
  - `texture`, `buffer`: texture size checks and the state of a pixel buffer (sizes, present
    mode, bytes).
- `tests/` — tests of the library on concrete values.
- `app/` — what runs outside the library: the `wgpu` device, surface and scaling renderer, the
  window-handle stand-ins, the floating-point particle effects, and the game loop that reads the
  asset files.
