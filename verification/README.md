# quickdraw_fonts

Bitmap fonts and the routing of classic Mac font families, written in Verus. The functions of the
library carry contracts, and Verus proves them from the contracts of the few functions that call
outside code.

* `src/` is the library. It decodes `FOND` tables and `FONT`/`NFNT` strikes, turns rasterised
  scalable fonts into faces, holds all faces in a `FontStore`, and finds the face for a family and
  a size. `src/laws/` states and proves what holds of the fonts as a whole.
* `app/` makes the store process-wide, reads the environment and rasterises outlines.
* `tests/` runs the library.

The library does no input or output and no floating-point arithmetic. A lookup that needs either
answers with `Lookup::NeedsOverrides` or `Lookup::NeedsRaster`; the host does what is asked and
repeats the lookup.

What the proofs rest on beside Verus is stated at the functions of `src/sfnt.rs` and `src/leak.rs`.
The first name what `ab_glyph` and `ttf_parser` read from a scalable font, the second hand out
storage that is never freed.

The artwork of the built-in faces and the Mac Roman character table are handed to
`FontStore::new`; `PixelFonts::is_whole` tells whether the artwork can be used. A scalable font can
be registered where `outline_parses_in_range` holds: beyond that, `ttf_parser` adds numbers up to
more than 32 bits, and panics where debug assertions are on. `src/extent.rs`, `src/compact.rs` and
`src/decimal.rs` say where that is.
