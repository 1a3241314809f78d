# eil

A toolchain for a small intermediate language, written in Verus: every
stage of the library is verified against a mathematical statement of what
it does.

- `lexer` splits source text into tokens by longest match; `grammar` states
  the language's grammar over those tokens, and `parser` reads instructions
  by it. `number` gives each integer literal its narrowest type.
- `importer` gathers a program and the modules it imports, depth first and
  each module once; it asks its caller for each module's text.
- `checker_spec` states the two checker passes instruction by instruction;
  `checker` runs them, building the symbol table, resolving every name and
  giving every value a type and a stack slot.
- `assembler` writes NASM text for the declarations of a checked program.
- `types`, `ast`, `symbol`, `strmap`, `text`, `error` hold the data types
  they share; `arena` is byte storage that values never move out of;
  `floats` puts floating-point constants, computed outside the library, in
  place of their literals.
- `*_laws` modules, and lemmas beside the code, state and prove properties
  that hold for every input: tokens cover the text, declared names are
  plain, resolutions name symbols, constant programs assemble, and more.

`app/main.rs` is the `eil` command: it reads files, computes floating-point
constants, runs the stages and prints the assembly text.
