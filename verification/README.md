# lac_to_lbrn2

Converts BambuStudio laser archives (`.lac`) into LightBurn projects
(`.lbrn2`), with the conversion's logic verified by Verus.

```sh
convert [--normalize] input.lac [output.lbrn2]
```

## Layout

- `src/` — the verified library. Every function that computes something
  carries a `requires` / `ensures` contract over spec models (`Seq`, `Map`,
  views), and the properties the converter relies on are stated as `law_*`
  proof functions.
  - `xml_builder` — the indentation-aware XML writer and escaping.
  - `path_parser`, `subpath_converter` — path data into subpaths, and
    subpaths into LightBurn vertex and primitive lists.
  - `json`, `scene_builder` — JSON values as the scene files hold them, the
    object table and the walk of the component tree.
  - `constants` — the process-type and dither tables.
  - `visitors`, `transformers` — layers (`CutSetting`) and shapes (`Path`,
    `Ellipse`, `Bitmap`).
  - `converter` — layer indices, the project header and settings, which
    archive entries are used and where they go, and the whole project text.
- `app/` — the command line around the library: reading the archive and the
  JSON files, the binary64 geometry (transforms, the bounding-box offset and
  number formatting), and writing the result.
- `tests/` — tests of the library on concrete values.
