# philiprehberger-mock-server

A lightweight, per-test HTTP mock server for testing API integrations.

The decisions the server makes are written in Verus and proved against their
contracts:

- `src/request.rs` — finding the end of a request head, parsing the request
  line and header fields (Unicode trimming, case-insensitive
  `Content-Length`, `usize` parsing), locating the body, and how far a buffer
  is from a whole request.
- `src/mock.rs` — the mock builder and the registry (`ServerState`): first
  registered matching mock answers, expected call counts, request recording,
  reset, 404 for unmatched requests.
- `src/response.rs` — the response text (status line, byte-exact
  `Content-Length`, header fields, body), the server URL, and the warnings for
  unmet expectations.
- `src/method.rs`, `src/status.rs`, `src/text.rs` — methods, reason phrases,
  and the character-level text operations the above rely on.
- `src/laws.rs` — properties of the library as a whole (a written request
  head reads back exactly, a registered mock answers its requests, expected
  counts are never exceeded, reset leaves only 404s, ...).

`app/` holds the tokio side: the `MockServer` that listens on a random local
port, reads requests into buffers, and writes the rendered responses.
