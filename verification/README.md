# webdav

The verified core of a WebDAV handler for a static file server.

- `src/propfind_request.rs` — the PROPFIND request body: read with xml-rs's
  `EventReader` and run through a state machine over its events, with the laws
  of the grammar it accepts.
- `src/response.rs` — the multistatus answer: one `D:response` per listed
  path, known live properties in a `200` propstat, unknown ones echoed in a
  `404` propstat; proofs that every answer is a well-formed document.
- `src/listing.rs` — which paths a PROPFIND answer lists at each depth, in
  order, and the law relating the answers at depth `0` and `1`.
- `src/render.rs` — writing response events with xml-rs's `EventWriter`.
- `src/access.rs` — symbolic-link visibility, listing depth, which entries a
  listing shows and their URLs, MKCOL
  and the answers of the unimplemented methods.
- `src/mime.rs`, `src/decimal.rs`, `src/file_time.rs` — content types, decimal
  lengths and RFC 3339 times (through the `time` crate).
- `app/lib.rs` — the iron handlers that read request bodies, walk the file
  system and answer, taking every decision from the library.
