# FalconShot

The logic of a Windows screenshot tool — region selection, the capture overlay, pinned
pictures, annotation history, hotkeys, pixel work, settings, capture history, OCR and AI
requests — as a library whose functions carry contracts proved by Verus.

## Layout

- `src/` — the verified library (crate `falconshot`). Every function has a `requires` /
  `ensures` contract; laws that relate several functions are public proof functions
  named `lemma_*`. Calls into `image`, `regex`, `serde_json`, `urlencoding` and a few std
  functions go through small `#[verifier::external_body]` wrappers whose doc comments say
  what is claimed of the outside code.
  - `geometry`, `selection`, `overlay`, `platform`, `pin_window` — rectangles, the
    selection model, the overlay's event/state machine and paint plan, monitor choice,
    pinned-window styles and wheel handling.
  - `pixels`, `transform`, `color`, `clipboard` — RGBA/gray images, mosaic, dimming,
    channel swaps, 24-bit DIB encoding and decoding, rotations and flips, colour picking,
    clipboard payloads.
  - `annotation`, `hotkey`, `floating` — undo/redo documents, hotkey bindings and their
    manager, groups of pinned windows.
  - `settings`, `settings_tree`, `storage`, `privacy`, `ocr`, `ai`, `i18n`, `desktop`,
    `text` — preferences and dotted-key access to them, the history log and its calendar,
    sensitive-data detection, OCR scripts, chat requests and base64, UI strings, editor
    URLs, and string helpers.
- `tests/` — ordinary Rust tests run against the compiled library.
- `app/` — the unverified shell: file and network I/O, JSON persistence, floating-point
  geometry and colour, and serde copies of library types.
