# harper

A Verus-verified library with three parts of the Harper grammar checker:

- `language`: the languages Harper checks, parsed loosely from names and
  abbreviations.
- `masker` (with `mask`): the TeX masker, which finds the prose in a TeX/LaTeX
  document by masking out comment signs, math mode, equations and commands.
  Its contracts state the mask exactly (`mask_of`), and proof functions state
  that the mask is well formed, that plain text is kept whole and that comment
  signs are masked.
- `dictionary`, `compound` and `german_spell_check`: German compound words
  (through the `decompound` crate) and a spell check that does not flag them;
  `decompress_dictionary` reads a zstd-compressed word list.

`app/` holds a copy of `Language` with serde support.
