# oxideav_indeo

A verified decoder library for Intel Indeo 3 (`IV31` / `IV32`) video. Every
function carries a contract that Verus proves; there are no trusted items and
no outside crates.

## Layout

- `src/common.rs`: the bit reader, the pixel clamp, length-prefixed frames.
- `src/indeo3/header.rs`, `picture_layer.rs`, `macroblock.rs`, `frame.rs`: the
  headers, the plane preludes, the cell trees and the structural decode of a
  codec frame.
- `src/indeo3/geometry_bank.rs`, `geometry_laws.rs`, `plane_model.rs`,
  `cell_decoder.rs`, `plane_laws.rs`: the plane decoder over the cell-geometry
  banks. The model says what a payload means, the decoder computes it, the
  laws say where the banks place leaves, where the decoder writes and what it
  does not depend on.
- `src/indeo3/entropy.rs`, `reconstruct.rs`, `cell_emit.rs`, `cell_null.rs`,
  `cell_reconstruct.rs`, `cell_unpack.rs`: the mode-byte layer and the per-cell
  executors.
- `src/indeo3/plane_reconstruct.rs`, `plane_execute.rs`,
  `frame_reconstruct.rs`: the reconstruction of a decoded frame's NULL leaves.
- `src/indeo3/frame_output.rs`, `frame_assemble.rs`, `frame_yuv.rs`: output
  planes, and their chroma upsampled to luma resolution.
- `src/indeo3/frame_finalise.rs`, `frame_session.rs`, `decoder.rs`: what one
  frame leaves for the next, and the stateful decoder.
- `tests/`: the tests.

## Conventions

A spec function of a module says what a value is; the `ensures` of the
executable functions equate their results with it, and name each error with
the inputs that give it. Public proof functions state the laws that relate
several functions. Errors have a `text()` in specifications and a `message()`
in code.
