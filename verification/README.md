# tiny-2ltt, verified

A toy implementation of two-level type theory: a calculus with `<e>` (quote)
and `~e` (splice), whose type system separates a compile-time (stage 0)
language from a run-time (stage 1) one.  Running a program evaluates its
stage-0 parts and leaves residual stage-1 code.

The library is written in Verus; each function has a contract over a
mathematical model of its inputs and outputs, and Verus proves it.

- `src/lexer.rs`: the tokens and the lexical grammar, on the bytes of the source.
- `src/parse.rs`: the grammar as recursive descent, and the parser.
- `src/elab.rs`: bidirectional type checking with stages.
- `src/eval.rs`: evaluation at stage 0 and at stage 1, with fresh names.
- `src/pretty.rs`: printing of types and terms.
- `src/readback.rs`: printed types lex and parse back to themselves.
- `src/readterm.rs`: printed terms lex and parse back to themselves, without binder annotations.
- `src/soundness.rs`: well-typed stage-0 terms do not go wrong, unless evaluation
  runs out of depth or of fresh names, or a number overflows.
- `src/lines.rs`: names never hold a line feed, so the output has one line per
  declaration.
- `src/driver.rs`: running a whole program.
- `src/syntax.rs`, `src/errors.rs`, `src/text.rs`: terms, errors, text building.

`app/main.rs` reads a file named on the command line and prints what running
it gives.
