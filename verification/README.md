# shimr (verified library `lib`)

Terminal transition effects driven by cellular automata: text is drawn into
a grid of cells, a rule (Conway, HighLife, Seeds, Day & Night or one of the
user's) evolves the grid generation by generation, and each generation is
rendered as a frame of glyphs chosen by every cell's decay value.

Every function under `src/` is verified with Verus against the contract in
its header; the public proof functions (`lemma_*`) state properties of the
library as a whole.

Layout:

- `src/engine/` cells, the double-buffered grid and the automaton
  (`GridModel` is the mathematical content of a grid).
- `src/rules/` the `Rule` trait and the four built-in rules.
- `src/glyphs/` glyph sets and the decay-to-glyph mapping.
- `src/color/` RGB colors, ANSI escape sequences and the integer gradients.
- `src/fonts/` character bitmaps and the FIGlet font parser.
- `src/transition/` frames, the built-in 3x5 font, grid merging, the
  transition and its builder.
- `src/strings.rs` the string and character helpers the parsers need.
- `app/` what cannot be verified: the gradients whose colors follow `f32`
  rounding, `Display`/`Error` impls and an `Iterator` over frames.
- `tests/` the test suite, run against the compiled library.
