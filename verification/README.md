# Roblox Fast Flag Editor

A desktop editor for Roblox's `ClientAppSettings.json` Fast Flags. The
library in `src/` holds the editor's logic with its contracts, proved by
Verus; `app/` is the egui program around it (window, panels, files,
registry).

- `src/flags.rs` — the flag store: a list kept sorted by key with no key
  twice; setting, removing, editing, loading from a JSON document, saving.
- `src/value_type.rs` — the JSON type a value is written as (boolean,
  integer, float, string) and the type hint shown while typing.
- `src/query.rs` — the case-insensitive search filter.
- `src/editor.rs` — the editor's state: status line, "Add New Flag" dialog,
  and the outcome of Apply and Reset.
- `src/detect.rs` — finding the settings file: the registry output, the
  choice among `version-*` folders, and the settings path under a folder.
- `src/text.rs` — key order, substring search, trimming, lowercasing.
- `src/json.rs`, `src/icon.rs` — the calls into `serde_json` and `image`.
- `src/laws.rs` — what holds across operations (read after write, removal
  undoing an addition, the list's order being fixed by its content, …).
