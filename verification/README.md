# TinyS

TinyS is a small statically typed language with Python-shaped syntax and
Rust semantics. Its compiler turns `.sn` source into Rust and drives Cargo to
build it:

```text
.sn source → lexer → parser → AST → Rust code generator → generated .rs
```

This crate is that compiler, written in Verus. The library under `src/` holds
every decision the compiler makes, each with a contract that Verus proves:

- `lexer` — the indentation-aware lexer; `lex_spec` states the whole token
  stream (or the first error) a source text lexes to, and `tokenize` is proved
  to produce exactly that.
- `parser` — the recursive-descent parser; it only builds well-formed trees.
- `codegen` — the Rust generator, with a functional specification
  (`module_rust`) of the text it writes for every program.
- `manifest` — reading `tinys.toml`, deciding which declared crates a program
  uses, and rendering the tables of the generated `Cargo.toml`.
- `modules` — what a directory of `src/` declares as modules, where each
  generated file goes, how a package is compiled and shown, exclusion
  patterns.
- `cli` — how arguments split into flags and program arguments, crate and
  binary names, and the scratch Cargo package of one build.
- `text`, `diagnostics`, `ast` — the pieces the others share.

`app/main.rs` is the `tinys` command: it reads and writes files, lists
directories and runs Cargo, and hands everything else to the library.

`tests/` runs the library on concrete inputs, including a package laid out in
memory for module discovery.
