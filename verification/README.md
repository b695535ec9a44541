# ukmm

The verified core of a mod manager for a game's romfs content, written in
Verus. The library (`src/`) holds the logic, each function with a contract
that Verus proves; `app/` holds the file and path handling around it.

- `platform`: the base-game and DLC content folders of each platform.
- `canon`: canonical resource paths (`canonicalize`).
- `language`: language codes, their resource paths and the nearest
  available language.
- `text`: character-level helpers (decimal `u32` reading, splitting).
- `byml_node`: what the library reads of a BYML node (one level of its
  contents), and roead's node equality and integer reading.
- `map_merge`: applying a mod's `mod`/`del`/`add` edits to a map-unit
  section, over a plain model of its objects; `hash_index` is the
  `FxHashMap` index it uses.
- `map_unit`: the same merge on BYML map units, through `roead`.
- `map_files`, `map_pack`: where map units come from and go to, and the
  rebuilt static-map SARC pack.
- `error`: the error type and the resource context it carries.
- `content`: the traits resources implement.
- `laws`: properties that span several functions, proved.
