# livox_mid360

A driver for the Livox MID360 LiDAR whose logic is proved with Verus.

- `src/` is the library: frames and checksums, commands and discovery, point
  and IMU packets, CSV tables, replay, the point cloud's retention window, the
  octree of the tokenizer, and the command lines. Each function states in its
  contract what it returns or changes. Laws that span functions, such as that a
  frame that was built parses to what it was built from, are public proof
  functions beside what they speak of.
- `app/` is ordinary Rust around it: sockets, files, the window, floating-point
  geometry, and the Python bindings.
- `tests/` runs the library on concrete values.

Verus believes three contracts without proof: that `String::push` appends a
character and that `String::from_utf8_lossy` decodes UTF-8 (`src/text.rs`), and
that `bytemuck::cast_slice` gives the bytes of each number in turn
(`src/live.rs`).
