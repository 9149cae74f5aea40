# hehel_zip

An archive tool for 3D-print production: it lists, previews, extracts and
packs `.zip`, `.7z` and its own `.hehe` containers, tracks a workflow status
per archive entry, and syncs those statuses with a remote board.

- `src/` is the library, verified with Verus: the `.hehe` format (header, table
  of contents, metadata file, create and extract plans), entry-path safety,
  the extract and preview caches with their eviction rules, temporary
  sessions, listing pages, ZIP extraction and reads over archives held in
  memory, the loopback login (with PKCE) and its request handling, the sync
  payloads and replies, and the status-table migration. Calls into outside
  crates (compression, checksums, hashing, UUIDs, URL coding, image encoding,
  the LRU map, ZIP reading) go through small trusted wrappers whose contracts name or state
  what the crate returns.
- `app/` is the program around it: command-line entry points, files and
  processes, SQLite, HTTP, the keychain, and image resizing.
- `tests/` runs the library with the real outside crates linked.
