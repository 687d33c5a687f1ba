# rsrv

The server side of a small image-sharing service: signed client cookies,
block allocation of client ids, favourites and history sync, an activity log,
push channels, and the compact MessagePack answers the browser reads.

- `src/` is the library, verified with Verus. Each module states what its
  functions compute over mathematical models (`Seq`, `Map`, integers) and
  proves it; calls into other crates go through small trusted wrappers whose
  contracts are documented next to them.
  - `token`: the `I` cookie, its signature and its ten-day renewal window.
  - `vbyte_codec`, `channel`: variable-byte lists, Base64 channel names.
  - `gid`: block allocation of ids.
  - `anypack`: response values and their MessagePack bytes.
  - `handlers`, `activity`, `fav_month`, `assoc`: what the request handlers
    decide and write.
  - `sqlval`, `text`, `kvconf`: SQL literals and statements, text helpers,
    key-value store settings.
- `app/main.rs` is the web server around it (axum, fred, tokio-postgres,
  reqwest); `app/main.rs init` loads `init.sql` into the history database.
- `tests/` runs the library on concrete values.
