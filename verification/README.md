# lox_rust

A tree-walking interpreter for the Lox language, written in Verus. The
scanner, the parser, the environment of scopes, the evaluator and the error
reporter are verified against mathematical models; the program in `app/`
reads files or lines and writes to the terminal.

## Layout

- `src/utils.rs`: character classes.
- `src/error.rs`: the error records.
- `src/lox.rs`: the error reporter and `Lox::run`, which scans, parses and
  runs a piece of source.
- `src/frontend/lexer.rs`: the scanner, with its model `spec_scan`; tokens in
  `src/frontend/lexer/token.rs`.
- `src/frontend/parser.rs`: the recursive-descent parser; its model, one spec
  function per grammar rule, is in `src/frontend/parser/grammar.rs`, and the
  syntax tree in `expr.rs` and `stmt.rs`.
- `src/backend/interpreter.rs`: the evaluator; its model is the big-step
  semantics in `src/backend/interpreter/semantics.rs`, the scopes are in
  `environment.rs`, function values in `callable.rs`.
- `src/backend/utils/`: the binary operators and the operand checks.

## Numbers, output and the clock

Numbers are floating point, which the verified code does not hold. A value
carries a number as its decimal text (a literal in its shortest form, `1.50`
as `1.5`; a literal with more significant digits than a 64-bit float keeps
them all until the host computes with it), and every numeric operation and every
reading of the clock is a request to a host: a function from a `HostReq` to a
value, passed in by the caller. The semantics reads the host's answers from a
sequence, and the contracts of the evaluator hold for every sequence of
answers that extends the ones it actually got.

What a run prints and the error reports it makes are data: `Lox::run` returns
them in order, and its contract says exactly which lines they are. The
program in `app/` writes them out when the run ends.

Each statement runs with a budget of fuel that bounds its nesting and the
rounds of its loops; the laws `law_more_fuel_eval`, `law_more_fuel_exec` and
`law_more_fuel_program` show that a run that finishes gives the same result
with any larger budget. When the budget runs out the run stops there, and
`Lox::run` says so in `RunEnd::exhausted`.
