# raycaster

Maze, texture and pixel logic of a small ray caster, verified with Verus.

- `src/` — the verified library:
  - `maze`: the maze grid, parsed from the text of its file, and cell lookup;
  - `caster`: what a ray finds at each step of its march (floor, wall, outside);
  - `player`: which cells the player can stand on;
  - `textures`: textures as grids of `0xRRGGBB` pixels, sampling with
    clamped coordinates, and the texture chosen for each maze character;
  - `color`: packing and unpacking of `0xRRGGBB` pixels;
  - `polygon`: the sides of a polygon and the even-odd spans of a scanline;
  - `framebuffer`: where a pixel sits in a row-major frame buffer.
- `app/` — the program: window, keyboard, camera, spheres and cylinders,
  all the floating-point geometry, and file and image loading.
- `tests/` — tests of the library.
