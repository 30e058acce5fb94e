# nebula

Core logic of a voxel planet engine, written in Verus: every function in
`src/` carries a `requires`/`ensures` contract that Verus proves.

## Layout

- `src/math` — 128-bit integer vectors, 32.32 fixed point, distance units
  and their human-readable formatting.
- `src/voxel` — voxel type ids, the type registry, 32³ chunk storage,
  reduced-resolution (LOD) chunk storage, chunk addresses.
- `src/mesh` — face visibility, ambient occlusion, greedy meshing (full
  and LOD chunks), packed vertices, neighborhoods across chunk borders, LOD
  stitching and seam skirts, remesh invalidation.
- `src/lighting` — block light and sunlight flood fill inside a chunk and
  across a chunk border, light removal.
- `src/materials` — the texture atlas and its mip chain, the material
  registry, animated material frame sequences.
- `src/lod` — chunk work priority queue, voxel resolution per level.
- `src/net` — server authority over intents, client prediction and
  reconciliation, entity replication (server and client), interest sets,
  bandwidth budget, chunk streaming and caching, voxel edits, chat checks,
  player sessions, snapshots.
- `app/` — what stays outside the proofs: floating-point lighting, LOD and
  material values, GPU resources through `wgpu`, the meshing thread pool,
  logging set-up, serde wire forms and file I/O. It calls the library for
  every decision made on integers, bytes and strings.
- `tests/` — scenario tests of the library.

Calls into outside crates (`lz4_flex` for chunk compression, `image` for
decoding, resizing and compositing tile images, `bytemuck` for the index
buffer's bytes) and into parts of `std` without a Verus specification
(`Instant` and `Duration` readings and comparisons, `str::trim`,
`String::push`, `PathBuf::from`) go through small trusted wrappers, each
documented with what its contract assumes. The `ron` error type is declared
so that the library's error enum can carry it.
