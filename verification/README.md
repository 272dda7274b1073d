# softraster

A small software rasterizer whose integer core is verified with Verus.

- `src/framebuffer.rs` — packed RGB framebuffer: creation, pixel reads and
  writes, clearing, PPM and RGBA encodings, with the laws relating them.
- `src/zbuffer.rs` — a per-pixel depth buffer, generic in its depth type.
- `src/rasterizer.rs` — the edge function and `TriangleScan`, which yields,
  in row-major order, the pixels a counter-clockwise triangle covers inside
  the image, with their barycentric edge values.
- `src/fill.rs` — depth-tested triangle filling over the framebuffer and a
  depth buffer, for any depth type, with the per-pixel painting rule.
- `src/palette.rs`, `src/decimal.rs`, `src/lib.rs` — face colours, decimal
  digits, and the blank test frame.
- `app/` — the `f32` vector/matrix pipeline, camera, renderer and the
  WebAssembly bindings, which drive the verified library.
