# fmhy_downloader

A service that finds VOD streams through configured indexers and downloads
them. The logic is a Verus-verified library; the service around it is plain
Rust.

- `src/` — the verified library: M3U playlist parsing, header maps and the
  headers a request is sent with, indexer configuration and its files' names,
  the segment-by-segment download state machine and segment trimming, stream
  conversion, page-capture bookkeeping, FlareSolverr handling, curl
  arguments, TMDB and bridge addresses, and the settings read from the
  environment. `src/laws.rs` holds the properties
  that span several operations.
- `tests/` — tests of the library on concrete values.
- `app/` — the HTTP server, file and network I/O, the headless-browser
  capture, and serde forms of the library's types.
