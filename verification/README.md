# GBA Tile Manager

Converts PNG artwork and boops CSV files into the binary layouts the Game Boy Advance reads
from video memory (palettes, character blocks, screen blocks) plus a self-made boops format.

## Layout

- `src/` — the verified library (Verus). Every function carries a contract; the laws of the
  library (round trips between the saved bytes and what reads them back, the tile order being
  a permutation, the choice of boop neighbours being the best one, what a project digests to)
  are public proof functions next to the code they speak of.
  - `color`, `character`, `tile`, `tile_iter`, `trim`: the GBA encodings and the tile order.
  - `palette`, `character_data`, `screen`, `boop`, `savable`: what a project turns into.
  - `project`: decoding a project's PNG images (through the `image` crate) and reading its
    boops files (given as lines), checking them and digesting them.
  - `domain`: the editable forms of palettes, tiles, screens, boops and projects, and reading a
    project back from the names and contents of its saved files.
  - `render`, `png`: images of palette entries and their PNG files; `png_util`: decoding a PNG
    file with the `png` crate into 8-bit RGB pixels.
- `app/` — the command line program: argument parsing, reading `config.json`, the bytes of
  images and CSV files, and writing the results.
- `tests/` — tests run against the compiled library.
