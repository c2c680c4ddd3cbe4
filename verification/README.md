# manhuaviewer

A local manga library server: it scans folders and ZIP/CBZ/RAR/7z archives
into a SQLite library, serves pages, covers and thumbnails over HTTP and an
OPDS catalogue, converts archives to CBZ, packs folders, keeps backups and
synchronises with another library on the LAN.

## Layout

- `src/` — the verified library (Verus). The server's decisions live here
  with their contracts: path and title handling, archive page listing and
  ordering, extractor arguments and extraction audits, cache budgets and
  eviction, grouping and listing of the library, the search language and the
  SQL it produces, access-token and Host/Origin checks, JSON redaction,
  backup validation and import, reading the catalogue, release and sync
  manifest answers, OPDS feeds, HTTP caching headers, the scan, conversion
  and sync decisions and their job states.
- `app/` — the server around it (axum, rusqlite, zip, image, ureq, walkdir):
  HTTP routing and request bodies, the database, file and network I/O and
  the worker threads. It calls the library for the decisions above.
- `tests/` — tests of the library's public functions, including SQL run
  against an in-memory SQLite database.

The calls the library makes into `natord`, `chrono`, `mime_guess`, `serde_json`
and std are trusted wrappers whose doc comments say what is assumed of them.
