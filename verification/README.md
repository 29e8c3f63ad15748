# Cordiale

The core of Cordiale, a desktop client for the Grappa bouncer, as a Verus
library: what is typed, sent, received, shown and kept, with contracts that
Verus proves.

- `src/` is the verified library. Each module states its contracts over
  mathematical models of its data, and the laws that relate its functions as
  public proof functions.
- `tests/` run the compiled library on concrete values.
- `app/` is the ordinary Rust around it: HTTP, WebSocket, files, the keyring,
  threads, audio and the drawing that needs floating point. It performs what
  the library decides.

What the library takes on trust from other crates stands in `src/address.rs`
(URLs), `src/json.rs` and `src/phoenix.rs` (JSON), `src/websocket.rs` (base64), and, for the
standard library, `src/text.rs`, `src/radio.rs` and `src/credentials.rs`.
