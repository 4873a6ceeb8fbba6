# gts_cli

Generation of GTS JSON schemas from Rust sources whose structs carry
`#[struct_to_gts_schema(...)]` attributes, as a verified library.

- `src/` — the library, verified with Verus: text and whitespace handling
  (`text`), a JSON value model (`json`), regular expressions through the
  `regex` crate (`matcher`), path and content filters (`filters`),
  `const_values` parsing (`const_values`), attribute parsing (`attrs`), field
  type schemas (`types`), schema construction (`schema`) and extraction of all
  schemas of a source file (`extract`). Each public function states its result
  over spec functions; the `law_*` proof functions state properties across
  functions.
- `app/` — walking a source tree, reading files, resolving and checking
  output paths, and writing the schemas as JSON.
- `tests/` — tests of the library on concrete inputs.
