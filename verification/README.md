# pseudocode

A compiler for a small pseudocode language, verified with Verus.

The library (`src/`) holds the whole pipeline, each stage with a contract
over a mathematical model of its input and output:

- `cursor`, `lexer`, `token`, `position`, `text`: the source text read as
  positioned characters, and the tokens made of them;
- `token_cursor`, `parser`, `ast`, `error`: a Pratt parser from tokens to a
  syntax tree, specified by a grammar of spec functions;
- `visitor`, `pretty_print`: a walk over the tree, and the printer that writes
  a program back as source, its expressions fully parenthesised (printing a
  lone expression gives the empty string);
- `type_checker`: type inference for expressions and the errors of a program;
- `lmc`, `compiler`, `optimiser`: code generation for the Little Man Computer,
  its assembly text, a model of how a program runs, and a peephole optimiser,
  with proofs that the multiplication code leaves the product and that the
  optimiser's safe rewrites keep what a program does;
- `ir`, `qbe_compiler`: code generation to a module in the shape of QBE's IR;
- `pipeline`: type checking, compiling and optimising a parsed program, and
  the same from source text.

`app/` is the program around it: a read-eval-print loop over standard input,
the entry points for the browser, and the conversion of the IR module into a
`qbe::Module`. `tests/` runs the library on concrete programs.
