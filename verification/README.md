# sekai_profile_renderer

The backend-neutral rules of the Sekai custom-profile renderer, written in
Verus: every function under `src/` carries a contract that the verifier
proves.

## Layout

- `src/` — the verified library.
  - `json.rs`: a JSON value model with member lookup and update.
  - `authoring_document.rs`: the game-compatible custom-profile document
    (import, page checks, page numbering, blank pages).
  - `authoring_session.rs`: the editing session over that document:
    element identifiers and their listing, element creation, flag,
    parameter, delete and layer commands, blank, duplicated, deleted and
    moved pages, gestures with previews, undo and redo with a bounded
    history and the changes each reports, and checkpoints that a session is
    restored from.
  - `masterdata.rs`, `masterdata/json_tables.rs`, `table.rs`: master-data
    tables, honor and bonds-honor asset plans, resource and colour lookup.
  - `profile_data.rs`: the renderer's view of a player profile.
  - `profile_source.rs`, `profile_scene.rs`, `profile_resolve.rs`: custom
    profile cards, their draw order, source keys and resource keys, and the
    master-data resource each authored element requests.
  - `profile_component.rs`: the plan of the general profile component
    (labels, honor slots, deck and leader cards, challenge ranks, stories).
  - `tmp_text.rs`, `tmp_text/`: TextMesh Pro markup scanning, tag effects,
    visible text, glyph fallback and line-break opportunities.
  - `locale.rs`, `omikuji.rs`, `badge_material.rs`, `ugui_text.rs`,
    `ugui_freetype.rs`, `sdf_glyph.rs`: labels, omikuji plans, badge
    resources, uGUI text rules, FreeType bitmap reading and glyph masks.
- `tests/` — tests of the library on concrete values.
- `app/` — the edges: conversion to and from `serde_json`, serde and
  thiserror copies of the library's types, the FreeType face cache, and the
  floating-point geometry (signed distance fields, material terms, face
  metrics) that the verifier does not model.

Public proof functions whose names begin with `law_` state properties that
hold across calls, such as page numbering being idempotent or the draw order
listing every element once, or redo restoring what undo replaced.

## Left out

Some of the renderer does not stand in `src/`:

- Floating-point work: the scene lowering of honors, general panels and
  primary commands, the uGUI and TextMesh Pro layout passes, and the
  element commands that move elements by a float offset or set a transform
  (`Duplicate`, `SetTransform`).
- Parts whose sources are not part of this project: stable layer and
  command identities, the general-panel recipes, the element structs and
  the locale catalogs. A card member's lookup key is therefore taken as
  given, and locale resolution keeps to region normalisation.
- The checkpoint's JSON form: `app/` maps it to and from the library's
  `AuthoringCheckpoint`, which `src/` validates and restores.
