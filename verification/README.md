# augur_gui

The decisions behind a recorder and viewer for event cameras, as a library
whose behaviour is stated in contracts and proved by Verus.

* `src/` holds the library: replay positions and the history of frames,
  recording sessions and settings, the registry of what plugins publish, tables
  and their rows, the linked views of plane and space, exports, analysis runs,
  hot pixels, colour maps, session logs and the connection to ImageJ.
  Floating-point numbers are held as their bit patterns, and what is computed
  with them is stated and proved to the last bit (`src/single.rs`,
  `src/arithmetic.rs`), and so are their texts (`src/decimals.rs`).
* `app/` is the program around it: drawing with egui, files, sockets, threads,
  and the matrices and angles of the camera.
* `tests/` runs the library on concrete values.

What the proofs take for granted of other crates stands in `src/json.rs`
(`serde_json`), `src/diagnostics.rs` (`time`) and `src/text.rs` (`String::push`).
