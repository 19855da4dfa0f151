# txpaint

An editor for CP437 text-mode art stored in REXPaint's `.xp` files, with a
library whose behaviour is specified and proved with Verus.

- `src/` — the verified library:
  - `document`, `layer`, `tile`, `palette`, `glyph_palette`, `font`,
    `selection`, `grid`: the drawing model and its invariants;
  - `history`: undo and redo, with the laws that undo and redo invert each
    other;
  - `tools`: the pencil, eraser, eyedropper and selection fill/erase, and the
    box-drawing glyph families;
  - `io::xp`: the `.xp` body (little-endian, column-major) and its gzip
    wrapping, with the law that reading back what was written gives the
    tiles that were shown; `io::png_import`: pictures as layers;
  - `ui`: what clicks, drags and keys do to the document and the panels;
  - `renderer`: what the GPU is sent each frame;
  - `trusted`: the contracts assumed of `image`, `flate2` and a few std
    functions.
- `app/` — the egui/wgpu application around the library: windows, file
  dialogs, the GPU renderer, `.gpal` (RON) files. The bundled fonts are read
  from a `fonts/` directory beside the executable or in the working
  directory (`cp437_8x8.png`, `cp437_10x10.png`, `cp437_12x12.png`).
- `tests/` — tests on concrete values, run against the compiled library.
