# nilang

The front and back end of the Nilang compiler, written in Verus with its
behaviour stated in contracts and proved.

- `src/lexer` reads source text into tokens: `tokenizer` (the grammar of
  today, stated in `grammar`), `aggregated_iterator` (the first grammar with
  line and column positions) and `tokens` (the first grammar with offsets).
- `src/generator` turns intermediate instructions into assembly: the
  `memory_manager` decides where values live, `calling_convention` and
  `assembly_flavour` write the code for the System V convention in the AT&T
  syntax, and `flavour` / `gnu_flavour` hold the first design of the code
  generator; `transformers` holds the first translation of operations,
  calls and returns straight into assembly, with the scope of a function
  body.
  `emptying` proves what moving values out of locations achieves.
- `src/errors` holds the errors of every stage and their reports, the lines
  around an error marked; `src/paint` colours text through the `colored`
  crate.
- `src/types` holds tokens, expression nodes and instructions; `src/text` the text
  helpers with their specifications.
- `app/` gives the error and register types the standard `Display` and
  `Error` traits.
