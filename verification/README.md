# squallar-overlays

The logic of a weather map's overlay layers, written in Verus and proved against
its contracts: which grids, mosaics, outlooks and reports a layer holds, what it
evicts, which frame a pane draws, what its options panel shows and does, and the
wire form of every rasterizing job.

- `src/` is the library. `jobs` holds the wire forms; `model`, `mrms`, `outlook`,
  `reports` and `sites` are the layers; the other modules are what they share.
  Public proof functions whose names start with `law_` state what holds of several
  functions together.
- `tests/` runs the library on concrete values.
- `app/` is the ordinary Rust around it: the clocks, floating-point readings and
  the asynchronous fetches.

Floating-point values pass through the library as bit patterns, and the clock is
always an argument.
