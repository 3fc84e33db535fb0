# rue

Verified building blocks of the Rue toolchain, written in Verus.

- `document`, `renderer`: a pretty-printing document and the renderer that
  lays it out within a line width; the output has no blanks at the end of a
  line, at most one blank line in a row, and exactly one final line feed.
- `token_stream`, `trivia`, `analysis`, `emit`, `ordering`: the source
  formatter's model of significant tokens and the comments between them,
  delimiter pairing, the roles that syntax nodes give tokens, trivia
  documents, and the plan that hoists, groups and sorts imports while their
  comments move with them.
- `check`: runtime type checks, their simplification, what they mean on a
  value, and their text.
- `type_check`: the check that a value of one type has another.
- `comparison`: how one type relates to another, with generic types
  substituted and inferred.
- `field_access`, `function_item`: what a field access reads, and what a
  function's parameter list and markers decide.
- `tree_path`: paths into trees of pairs, on arbitrary-precision integers.
- `scope`: the symbols and types a scope defines, with read-after-define laws.
- `diagnostic`: compiler diagnostics.

`app/` holds the command-line plumbing: argument parsing, file targets and
error messages.
