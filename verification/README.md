# figma_agent

A local font helper for the Figma web client (Linux and macOS): it lists the
installed fonts at `GET /figma/font-files` and serves a font file at
`GET /figma/font-file?file=<path>` (also reachable without the `/figma`
prefix), behind the origin-restricted CORS rules of
the macOS Figma Agent.

The library under `src/` is verified with Verus:

- `fonts/names.rs` – which `name` record supplies a family, style or axis
  label, and how its text decodes;
- `fonts/parser.rs` – the faces of a font file, including fvar named
  instances read from the raw table; `fonts/fixed.rs` – what a 16.16
  coordinate means once held in single precision (weight, width class);
- `fonts/catalog.rs` – path-keyed maps, the merge of the OS registry with the
  configured font directories, and the catalogue;
- `fonts/platform.rs` – reading what CoreText and `fc-list` return;
- `fonts/dirs.rs`, `fonts/cache.rs` – user-installed classification, the disk
  cache;
- `paths.rs` – Unix paths as components; `text.rs` – character and line
  helpers;
- `config.rs`, `util.rs`, `server.rs`, `routes.rs`, `tls.rs` – defaults and
  locations, the machine id, listening addresses and CORS, the endpoints'
  answers, the certificate source.

`app/` is the daemon around it: argument parsing, file and process I/O, the
CoreText calls, axum and TLS plumbing, and the serde forms of the library's
types.
