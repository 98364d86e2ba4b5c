# vivaldi_sync

Sync UI settings, themes, keyboard shortcuts, search engines and extensions between
Vivaldi profiles, locally.

The crate is in two parts:

- `src/` is a library verified with Verus. It holds every decision the tool takes,
  each with a contract:
  - `json` — the JSON document model the library works on, its view, lookups and
    insertions (`lemma_lookup_put`: a lookup after setting a key gives the new value
    under that key and the old value under every other), well-formedness (one entry
    per key), and parsing and writing JSON text through `serde_json`.
  - `sync` — which selected keys are copied from one `Preferences` document into
    another (`copy_selected_keys`, `plan_sync`, `plan_sync_text` from the files'
    texts), the sync log entry, and the laws of a
    sync: only selected members change, a second sync changes nothing further, an
    empty selection changes nothing, a dry run never writes.
  - `profiles` — the profile list from `Local State`, sorted stably by name.
  - `extensions` — extension names (with localised messages), state, the sorted
    extension list, and the steps of copying extensions between profiles.
  - `order` — the order of texts and a stable insertion sort, with the law that a
    stable sort has one outcome.
  - `text` — text helpers stated over character sequences (`lines`, `trim`,
    `parse_u32`, prefix and suffix stripping, decimal notation).
  - `system` — reading `pgrep` output and building the login-item AppleScript.
  - `categories`, `config` — the table of syncable keys and the tool's settings.
- `app/` is the Tauri program: file and process I/O, the window and the tray. It
  hands the library the texts it reads and writes back the texts the library gives.
