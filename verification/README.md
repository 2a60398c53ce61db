# lark

The verified core of Lark, a small experimental language toolchain, written
in Verus. Verus verifies every function in `src/` against the contracts
written there.

Layout of `src/`:

- `indices`, `collections`, `strings`, `span`, `error`, `numbers`: index
  vectors, shared sequences, interned identifiers, spans, error tracking,
  decimal text.
- `entity`, `db`, `scope`, `queries`: interned entities, the program
  database, name resolution, lang-item types and nested entities.
- `hir`: the high-level IR of function bodies.
- `hir_lower`: lowering a function's syntax tree to its HIR body, with
  scopes, name lookup and the errors reported on the way.
- `type_conversion`: written types resolved to declared types, and the
  signatures of functions.
- `eval`: the evaluator of the HIR (with its big-step semantics as spec
  functions, and the laws of its state).
- `bytecode`: the bytecode of a function body and its lowering from the HIR.
- `mir`, `codegen_rust`, `codegen_c`, `rust_file`, `codegen`, `codegen_hir`:
  the code generators, each specified by the text it produces.
- `repl`, `lsp`, `actor`: the pure parts of the REPL, the language-server
  protocol and the actor messages.

`app/` holds what is left around it: the command line, the language-server
loop, threads and compiler invocations. `tests/` runs the library on
concrete programs.
