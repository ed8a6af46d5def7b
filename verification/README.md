# microtak-admin-web

A small web UI for managing a microtak-server instance: enrollment invite
tokens (with QR codes) and mission role assignment, behind an HTTP Basic
Auth gate (any username, one shared password).

The logic is a Verus-verified library under `src/`:

- `auth.rs` — the Basic Auth decision: base64 decoding, the `user:password`
  split, the constant-time password comparison, and proofs that decoding
  inverts standard base64 encoding, that the decoded bytes are the 6-bit
  stream cut into bytes, and that any username with the right password
  passes.
- `client.rs` — the admin API client's decisions: path-segment
  percent-encoding (with proofs that the result is one URL segment and
  decodes back to the input), base-URL normalization, the method and URL
  of each API call, and how response statuses are judged.
- `pages.rs` — what the pages display and link to: token status (unused,
  used, expired, revoked, at a given time), shortened
  tokens, defaults, page paths, and the mint form's optional fields.
- `qr.rs` — the enrollment QR payload (JSON) and its SVG rendering, with a
  proof that the payload reads back to exactly the token and URL.
- `text.rs` — small character helpers.

`app/` is the program around it: environment configuration, the axum
server and middleware, maud templates and the reqwest mTLS client.
`tests/` runs the library on concrete values.
