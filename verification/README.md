# desk_shim

A wire adapter between the Responses API and Gemini, with its logic verified in
Verus.

- `src/` is the library: the Gemini request, the state machine that turns
  Gemini's stream parts into Responses events, the rules of the HTTP surface, the
  catalog of models and the configuration. Its contracts are stated over models of
  JSON values, texts and turns. Whole-stream properties stand in `src/replay.rs`,
  `src/protocol.rs`, `src/shape.rs` and `src/turn.rs` as public proof functions.
- `app/` is ordinary Rust around it: the listener, the HTTP client, files, the
  environment and logging.
- `tests/` runs the library with the real outside crates.

What the library takes from outside crates (`serde_json`, `serde`, `base64`,
`flate2`, `zstd`, `toml`, `uuid`, `reqwest`) it calls behind small trusted functions,
each with a comment that says what is claimed of the outside function.
