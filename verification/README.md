# tank

A robocode-style tank game: robots are written in `robolang`, a small
sandboxed language, compiled to bytecode, and fought in a deterministic
battle engine.

## Layout

- `src/` — the verified library (Verus):
  - `lexer.rs`, `parser.rs`, `ast.rs` — source text to syntax tree, each
    stated exactly by a specification over character and token sequences
    (`spec_lex`, `spec_parse`), including the nesting limit. Number
    literals get one spelling per exact decimal value (`1`, `01` and `1.0`
    read alike; literals that differ only beyond `f64` precision do not),
    and blocks provably nest at most 100 deep.
  - `compile.rs` — syntax tree to bytecode. `s_compile` states the whole
    compiler (code of every function, constant table, globals, arrays,
    first error met); every compiled program is well formed
    (`program_wf`): all operands in range, jumps inside their function,
    calls with the callee's own arity.
  - `lib.rs` — `compile`: size limit, version pragma, lexing, parsing,
    compiling.
  - `host.rs`, `event.rs` — the host-function table (names, numbers,
    arities) and event names.
  - `rng.rs` — the splitmix64 generator behind reproducible battles.
  - `replay.rs` — the replay document: its JSON layout, string escaping
    (proved to read back losslessly), and the tidying of printed numbers.
  - `battle.rs` — the decisions of the battle engine that need no
    floating point: which robots may enter (all must compile), what happens
    after a run of a robot's program (idle, forfeit, budget strikes), and
    how a battle ends with the last robot standing.
  - `cli.rs` — reading the command line of `tank run` and `tank check`.
- `app/` — the `tank` program: the stack VM and runtime values, the battle
  engine (floating-point physics), replay writing, and file I/O.
- `tests/` — tests of the library.
