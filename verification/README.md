# vaserve

A static file server (in the manner of `serve`): directory listings, `serve.json`
configuration, rewrites, redirects, clean URLs, byte ranges and entity tags.

The decisions the server makes are a library verified with Verus (`src/`); the
program around it (`app/`) reads the command line and `serve.json`, talks HTTP
through axum and tokio, and touches the file system.

## Layout

- `src/text.rs` — character-level string operations and their meaning over `Seq<char>`
- `src/cli.rs` — the command-line options as plain values
- `src/config.rs` — configuration types, listen URIs, merging `serve.json` with the command line
- `src/rewrite.rs` — path patterns: `**`, `prefix/**`, `*` with `$1`, `:param`; rewrites and redirects
- `src/handler.rs` — percent-decoding, trailing slashes, clean URLs, routing, traversal check, byte ranges
- `src/response.rs` — file, error, redirect and listing responses as status, headers and body
- `src/listing.rs` — which directory entries are listed, how they are described and sorted
- `src/templates.rs` — HTML and JSON bodies
- `src/etag.rs` — SHA-1 entity tags and their per-path cache
- `src/httpdate.rs` — calendar arithmetic for HTTP dates
- `src/server.rs` — startup message, port fallback, log lines
- `src/laws.rs` — properties that span several functions
- `app/` — `main`, clap, serde, axum, tokio, clipboard
