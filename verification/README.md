# bxen

A Stage 0 compiler for the Bxen language, verified with Verus: source text
is lexed, parsed into a syntax tree and lowered to x86-64 instructions for
Windows x64, which are written out as NASM assembly, as a Rust source file
around `global_asm!`, or encoded into machine code and packaged as a PE32+
executable.

Layout of `src/`:

- `text.rs` – decimal texts and string-building helpers.
- `lexer.rs` – tokens, with a specification of the whole lexer (`lex`).
- `ast.rs`, `parser.rs` – the syntax tree and the recursive-descent parser,
  specified by `p_program` over token views.
- `ir.rs` – the instruction set and its NASM text.
- `codegen.rs` – lowering (`gen_module` and friends), symbol tables, data
  interning; `stack.rs` and `shape.rs` hold the laws about the generated
  code (stack balance, printability); `limits.rs` checks the machine limits
  of lowering.
- `output.rs`, `rust_source.rs` – the NASM and Rust renderings.
- `x64.rs` – the machine-code encoder; `link.rs` joins modules;
  `pe.rs` writes the executable image.

`app/main.rs` is the command-line driver (file I/O, and the conversion of
floating literals with the host's `f64` routines). The tests are in `tests/`.
