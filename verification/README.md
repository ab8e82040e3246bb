# trust_eval

A verified library for Structured Text (IEC 61131-3) tooling, written in Verus.

- `src/syntax.rs`, `src/parser.rs`: the tokens and grammar of ST expressions, each
  stated as spec functions that the executable lexer and parser are proved to follow.
- `src/evaluator.rs`: evaluation of expressions with variable substitution. REAL
  (binary64) arithmetic is left to the caller: the evaluator asks for each REAL
  result it needs, and the caller evaluates again with the answer appended. Laws:
  answers are used in order and the number of questions is bounded; a variable's
  name evaluates to its value; double negation gives a value back. Calls and
  indexed accesses have no evaluation rule of their own: like any node kind without
  one, they fall back on the value of their first part that evaluates.
- `src/value.rs`: values, variables, and `=` (symmetric, and reflexive without NaN).
- `src/execution_backend.rs`, `src/runtime.rs`: choosing the runtime's execution
  backend; the bytecode VM needs a loaded module, whose name tables and debug map
  are maps (no key twice); each backend dispatches programs and function block
  references to its own path, after the reference checks.
- `src/vm.rs`: the control core of the bytecode VM, one step at a time; work on
  storage, references, native calls and value arithmetic is handed to the host.
  Steps report the statements they reach, from the module's debug map, for a debug
  hook.
- `src/bench.rs`: the integer bookkeeping of the execution-backend benchmark.
- `src/position.rs`: line/UTF-16-column positions and byte offsets, with a
  round-trip law.
- `app/`: serde forms of the values, the `f64` host loop, the JSON surface, the clock,
  and the benchmark's floating-point figures.
