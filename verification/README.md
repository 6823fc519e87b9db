# kelpyshark_interpreter

A tree-walking interpreter for the KelpyShark scripting language, written in
Verus. Every function of the library in `src/` is verified against a
mathematical semantics of the language.

## Layout

- `src/ast.rs` — the syntax tree the interpreter evaluates.
- `src/value.rs` — runtime values and their model (`Data`).
- `src/environment.rs` — the scope chain, viewed as a sequence of maps.
- `src/host.rs` — what the evaluator asks of the program running it.
- `src/semantics.rs` — the meaning of programs: a big-step semantics with a
  depth budget. Scoping is lexical: a function sees the scopes that enclosed
  its definition (the global scope, and the locals of any function it is
  defined in) and its own parameters, not its caller's other locals.
- `src/interpreter.rs` — the evaluator; each function is proved to compute
  what `semantics` says.
- `src/builtins.rs`, `src/methods.rs`, `src/display.rs`, `src/text.rs` —
  built-in functions, methods of lists, strings and dictionaries, printing,
  and text operations.
- `src/repl.rs` — what the interactive loop does with a line it reads.
- `src/laws.rs` — properties of every environment and every run, and what
  each construct of the language does.
- `app/` — source text in, lines out: lexing and parsing with the compiler
  crate, terminal I/O, and the host's `f64` arithmetic.

## The host

Numbers are IEEE-754 binary64 values, held as bit patterns. The library does
not compute with them: it hands arithmetic, comparisons, formatting and
parsing to a host closure, together with reading a line of input and
printing. Results are proved for every host that answers equal requests
equally. A request for input carries the number of lines read before it, so
a host that serves the n-th line of its input for the n-th read qualifies.
