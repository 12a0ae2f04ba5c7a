# nalvik

A tile-based software rasterizer. The crate under `src/` is verified with
Verus; `app/` holds the floating-point parts (shaders, clipping arithmetic,
blending, terrain generation, reading image files) that run around it.

## Layout of `src/`

- `vector.rs` — `IVec2`, integer vectors for viewport sizes, tiles and
  fixed-point positions.
- `util/chunked_vec.rs` — `ChunkedVec`, a vector stored in fixed-size chunks
  so pushes never move stored elements; its view is the concatenation of its
  chunks.
- `image.rs`, `image/format.rs`, `image/view.rs` — pixel formats, owned
  images (`Image2d`, `Image`), read-only and writable views, and packing of
  RGBA pixels to and from bytes.
- `uniform.rs` — the four uniform buffers bound to a render pass.
- `pipeline/render_pass.rs` — a render pass: stored triangles and, per
  screen tile, the ids of the triangles binned to it.
- `pipeline/depth_state.rs` — depth tests and the depth stage of a fragment.
- `pipeline/tile.rs` — a tile of an image addressed by pixel index.
- `rasterize.rs` — triangle setup (edge functions with the top-left fill
  rule), binning to tiles, and tile rasterization by incremental edge
  evaluation, with the laws that tie them together: pixels on an edge shared
  by two triangles go to exactly one of them; binning misses no covered
  pixel, except for triangles whose three vertices coincide and bounding
  boxes that start exactly at the center of the last pixel column or row of
  a tile (the span's rounding then skips that tile); barycentric weights sum
  to the triangle's area; fragments come in scanline order. `cull_winding`
  picks, for a `CullMode`, which triangles are drawn and in which vertex
  order.
- `clip.rs` — which vertices and edge crossings make up a triangle clipped
  against a plane.
- `sampler.rs` — nearest-texel selection.
- `terrain.rs` — which terrain chunks to keep around the camera, and
  `ChunkManager`, the loaded chunks by chunk coordinates: which are still
  missing, and the active ones once all are loaded.
