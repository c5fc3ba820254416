# spec-checker

Checks specs of modules, written in YAML, against their source code in Rust, Solidity or Flow9.

- `src/` is the library, verified with Verus: reading type formulas, rules and Flow9 sources,
  extracting modules, checking specs, resolving dependencies between projects, building solver
  queries and prompts, and deciding what follows each reply. Functions state what they return,
  but for those that turn the syntax trees of `syn` into plain values; properties that relate several functions are public proof functions, in sections
  titled "Laws".
- `tests/` runs the compiled library on examples.
- `app/` is the program around it: the command line, files, subprocesses and the network.

What the library takes from other crates (`regex`, `syn`, `quote`, `sha2`, `glob`) stands behind
functions marked `external_body`, or has its contract stated in an `assume_specification`; each
says what is believed of the outside function.
