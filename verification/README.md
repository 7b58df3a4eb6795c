# beer

A small compiled language with a Rust/TypeScript-like syntax (`let`, `fn`,
`if`/`else`, `while`, `return`, a built-in `print`), compiled to native code
through LLVM, with a language server for editors.

## Layout

- `src/` — the verified library (Verus):
  - `lexer.rs`, `parser.rs`, `ast.rs`, `span.rs`, `error.rs` — source text to
    syntax tree, each function specified against a mathematical definition of
    the language;
  - `check.rs` — the code generator's decisions: types, compile errors, and
    whether lowering succeeds;
  - `plan.rs` — what the generator emits: the instruction for each operator,
    how `print` shows each type, and how a function returns;
  - `source.rs`, `driver.rs` — the file table and the multi-file loader, as a
    state machine that asks its caller for disk work;
  - `lsp.rs`, `strmap.rs` — the language server's state: documents,
    diagnostics, hover and completion;
  - `cli.rs` — checking a single source text, naming the output binary, and
    the terminal error report;
  - `text.rs`, `lines.rs` — characters, decimal numbers, and line splitting.
- `app/` — the program around it: the command line (`build`, `run`, `check`,
  `lsp`), file and process I/O, the LSP transport, and IR emission with
  inkwell.
- `tests/` — tests of the library.
