# Peps

Peps is an emoji-first programming language. This crate holds its compiler
and its bytecode machine, written in Verus: the contracts state what each
stage does (the checker states which programs it accepts and, for the others,
each diagnostic's message and span in program order), and Verus proves the
code against them.

## Layout

- `src/frontend`: the lexer (source text to tokens, by grapheme), the grammar
  stated as functions on token sequences (`grammar.rs`), and the parser that
  follows it.
- `src/middle_end`: the static rules stated as functions (`typing.rs`), the
  diagnostics they give stated as functions (`reports.rs`), the semantic
  analysis that applies them, and the table of top-level names.
- `src/backend`: the bytecode, the code the compiler emits stated as functions
  (`emission.rs`), where the jumps of an `if` and a `while` lead
  (`layout.rs`), and the compiler.
- `src/runtime`: run-time values, insertion-ordered text maps with their laws,
  and the stack machine with its step relation.
- `src/browser.rs`: the request and response of the browser IDE.
- `src/lib.rs`: the pipeline from source text to output lines.
- `app/`: the command-line program, the IDE server, and the host that computes
  floating-point operations for the machine.
- `tests/`: the test suite.
