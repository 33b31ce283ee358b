# tfl

An interpreter for truth-functional logic as defined in *forall x: Calgary*:
it lexes and parses sentences (the book's strict grammar, with keyboard-friendly
ASCII spellings accepted), evaluates them, prints complete truth tables, and
decides tautologies, contradictions, equivalence and entailment.

- `src/` is the verified library: `lexer` (tokens and the lexing specification),
  `parser` (sentences and recursive-descent parsing), `pipeline` (text to
  sentence), `printer` (canonical text and messages), `eval` (valuations, atoms,
  truth tables, entailment), `text` (trimming and splitting), `repl` (what the
  interpreter answers to each input line), `semantics` and `roundtrip` (the laws:
  truth tables decide validity, equivalence and entailment; respelled and printed text reads back as the same tokens and sentences).
- `app/` is the command-line program: file mode, and the interactive prompt built
  on reedline.
- `tests/` runs the library on concrete inputs.
