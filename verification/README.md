# escher_atlas

The core logic of the Escher and Atlas tools, written in Verus: each public function has a
contract, and Verus checks every function body against it.

- `src/` is the library: the scaffold tree and its paths, the in-memory edit backend, the
  insertion-ordered map, terminal row counting, the assistant view's keys, prompts and text,
  the WebRTC signalling relay's rooms, slash-command parsing and discovery, transcript
  encoding, colors, and the small parsers these share. Calls into outside crates
  (`hashbrown`, `unicode-width`, `serde_json`, `serde_yaml`, `palette`, `owo-colors`) go
  through a few trusted wrappers, each documented with what it claims.
- `tests/` runs the library on concrete values.
- `app/` is the program around the library: file and process I/O, the relay's socket loop,
  logging, command discovery on disk, the styleguide's YAML reading, and a small concurrent
  keyed store.
