# hydra

The logic of Hydra, a desktop profile manager for the Grok CLI, written in Verus
with its behaviour stated in contracts and proved.

## Layout

- `src/` — the verified library.
  - `json.rs` — a parsed JSON document as plain values, and its model.
  - `order.rs`, `canonical.rs`, `canonicalize.rs` — key order, the canonical form of
    a document (keys sorted at every depth) and the function that computes it.
  - `render.rs` — compact JSON text of a document.
  - `auth.rs` — an auth file: its text, what `serde_json` makes of it, its normalized
    text and its SHA-256 fingerprint.
  - `search.rs` — finding the account, the access token and usage figures by key.
  - `text.rs` — whitespace, trimming, decimal text.
  - `store.rs` — the profile store: import, list, rename, delete, switch.
  - `usage.rs` — the steps of a usage request.
  - `paths.rs` — where the store and the live auth file are kept.
  - `laws.rs` — properties that span several functions.
- `tests/` — tests of the library on concrete values.
- `app/` — the desktop shell: file I/O, the clock, fresh ids, the HTTP request, serde
  types and the Tauri commands, calling the library.
