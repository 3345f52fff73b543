# line_layout

Lines of shaped text, verified with Verus.

The library takes lines that a text system has shaped into glyphs and

- tells which byte of the text is at an x coordinate, and where a byte is,
- snaps the glyphs onto a grid of columns, by their number or by a table from bytes to columns,
- finds the places at which a line breaks to fit a width, and the way between bytes and places
  in the wrapped line,
- keeps lines in a cache for two frames, under their text or under a hash of it.

Lengths are fixed-point numbers, so that what is said of them can be proved. Each function in
`src/` states what it returns or changes; `src/laws/` states what holds of them together.

What is not proved is in `src/inline_lists.rs`: the short lists of the `smallvec` crate, whose
methods are taken at their word. How a platform shapes text is up to the implementor of
`PlatformTextSystem`, of which nothing is taken for granted.

`app/` has a cache that threads share behind a lock and the conversion from single-precision
lengths. `tests/` runs the library on examples.
