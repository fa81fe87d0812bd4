# basalt

The core of the Basalt Discord client as a Verus library: the gateway
state cache and its event handling, the reconnect and heartbeat
policy, the zlib-stream framing, REST routes and rate limits, the send
lock, markdown tokenizing, log redaction, token envelopes, CLI parsing
and the identity the client presents. Every public function in `src/` carries a
contract (a few private helpers are plain code that Verus still checks
for overflow and bounds); Verus proves all of them except the thin
`#[verifier::external_body]` wrappers around outside calls (`url`,
`base64`, `time`, `flate2`, `serde_json`, and a few std string and char
functions) and the declared outside types. Those contracts are believed, not proved: each wrapper's doc comment says what it
claims of the call it makes. Server folders (creating, filling, emptying,
renaming and deleting them) are part of `config`.

- `src/` — the verified library (`state`, `events`, `connection`,
  `zlib`, `rest`, `sender`, `chat`, `markdown`, `emoji`, `scrub`,
  `secrets`, `config`, `identity`, `display`, ...).
- `tests/` — tests of the library on concrete values.
- `app/` — a headless client around the library: websocket, HTTP,
  files, logging and the OS secret stores.

Verify with `verus src/lib.rs --crate-type lib` and the outside crates
named in `Cargo.toml`.
