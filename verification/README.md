# piarao

PiaRao is a small expression-oriented language: `let` bindings that can only be
shadowed, functions defined with `let f a b = ...` or as `fn a b -> ...` values, calls
with or without parentheses, `if ... then ... else ...` as an expression, blocks whose
value is their last expression, and exact rational arithmetic.

## Layout

- `src/lexer.rs`, `src/parser.rs`, `src/ast.rs`: program text to tokens to syntax tree,
  each stated by a specification of what it produces (`spec_tokenize`, `spec_parse`).
- `src/semantics.rs`: what running a program does, as spec functions over the
  mathematical forms of states and values (`sem_expr`, `sem_stmt`, `sem_call`, ...).
- `src/interpreter.rs`: the interpreter; each evaluation function is proved to agree
  with the semantics (`agrees`).
- `src/number.rs`: exact rationals in lowest terms, computed with `rug`.
- `src/objects.rs`, `src/builtins/`: heap objects, the table of built-in object types
  (with the member functions of strings) and native functions.
- `src/lang.rs`: a session from program text to run.
- `src/laws.rs`, `src/replay.rs`, `src/depth.rs`: laws of the semantics (what every step
  keeps, what a block or a call undoes, reading back a binding, running again with more
  input, raising the depth limit).
- `app/main.rs`: the command that reads a program file, runs it and talks to the terminal.
