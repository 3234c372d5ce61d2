# lazy

A lexer, parser and early semantic analysis for the Lazy programming
language, written in Verus: the library under `src/` states its behaviour in
`requires`/`ensures` contracts and Verus proves them. `app/` holds the
command-line program (`lazy --run file.lazy`), which reads a file, analyzes
its module and prints the errors found.

Layout of `src/`:

- `input_parser`, `tokenizer`, `numeric`: the character cursor and the lexer,
  specified step by step (`lex_step`) over the source characters.
- `parser`, `ast`, `display`: the recursive-descent parser, the syntax tree
  and how trees are written back as text.
- `diagnostics`, `errors`, `parser_error`, `token_error`, `type_error`: the
  catalogue of diagnostics and the error types.
- `macros`, `macro_params`: macro definitions and declarations.
- `names`, `symbol`, `symbol_table`, `module`, `scope`, `analyzer`, `value`,
  `path`: names, symbols, modules and their imports, scopes, and the
  analysis of declarations.
- `report`: how an error is shown on a terminal, with its source lines.
