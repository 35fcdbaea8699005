# abcrend

Renders ABC music notation to SVG. The verified library (`src/`) holds the
decisions behind the score; `app/` draws it.

- `src/tune.rs` parses a tune book with `abc_parser` and selects the body of
  its first tune.
- `src/reach.rs` finds the lines the parser reads as music (and the `X:`
  lines), past the file header, and checks that their numbers and octave
  marks stay within what the parser handles without panicking.
- `src/tuplet.rs` follows the parser's note and tuplet rules to find the
  tuplets it would build with a count it cannot handle.
- `src/lexis.rs` holds the character classes and greedy runs these use.
- `src/symbol.rs` holds the symbols the layout reads and the horizontal weight
  and advance of each.
- `src/pitch.rs` places pitches on the staff, in half staff units.
- `src/glyph.rs` chooses note heads, stems and flags (SMuFL code points).
- `src/float_bits.rs` gives the exact value of an `f32` encoding, so that the
  choices taken on note lengths are stated over real numbers.
- `app/` does the pixel geometry in `f32`, builds the SVG nodes with the `svg`
  crate and writes the file.
