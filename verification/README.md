# wadconv

Converts a map of a Doom WAD file into a binary glTF (GLB) model.

The library under `src/` is verified with Verus:

- `binary` — little-endian integers and NUL-padded names.
- `wad` — the WAD header and directory, the map lumps, and the map with
  each sector's lines and subsectors; `can_*` functions tell ahead of time
  whether a read stays inside the file.
- `texture` — palettes, colour maps, flats, patches, composite textures and
  the texture loader; the texture queue of a map.
- `gen` — the plan of each sector: floor and ceiling outlines, wall and step
  quads, and the textures they use.
- `polygon`, `util` — meshes and triangle fans; PNG encoding.
- `gltf`, `export` — the glTF tables, the textures of a map as images, and
  the GLB container.
- `mime` — a small binary map format.
- `laws` — properties that span several operations.

`app/` holds the command-line program: argument parsing, file I/O, the
floating-point geometry, and the JSON text of the glTF document.
