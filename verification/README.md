# kaidadb

A self-hosted media database: objects are split into fixed-size,
content-addressed chunks (SHA-256), deduplicated by reference counting,
described by manifests kept in an in-memory index that a write-ahead log
rebuilds, read back whole or by byte range through an LRU chunk cache, and
served over a REST API with generated HLS playlists for adaptive streams.

## Layout

- `src/` — the verified library (Verus). Every public function states what
  it returns or changes; the laws that tie several functions together are
  public proof functions.
  - `keys`, `sorted_map`, `text` — key order, sorted maps, text helpers
  - `digest`, `types`, `chunk_format` — chunk identifiers and the on-disk
    chunk file format
  - `index`, `commit`, `gc` — the manifest/chunk index, its log, what each
    store, delete and rename writes, and the orphan collector's decisions
  - `engine`, `blob` — chunking an upload, planning and assembling range
    reads, checksums, chunk file paths
  - `cache` — the size-bounded LRU chunk cache
  - `streaming`, `dash`, `http` — HLS playlists, the DASH manifest,
    stream discovery and listing,
    Range headers and stream routes
  - `config`, `error`, `server_key` — configuration, errors, the server key
  - `browse`, `keymap`, `display` — the terminal client's state logic, key
    bindings and formatting
- `tests/` — tests of the library.
- `app/` — the server program: configuration files, the on-disk storage
  engine (files, log), the REST handlers, and the segment durations,
  which are floating point and turned into text there.
