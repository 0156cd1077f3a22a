# hulk_compiler

A compiler front end and middle end for the HULK language, written in Verus:
every function of the library carries a contract that Verus proves.

## Layout

- `src/lexer` — the tokenizer, with a mathematical model of tokenization
  (`lexer/spec.rs`) that the executable lexer is proved to follow.
- `src/parser` — the recursive-descent parser with error recovery; its
  contracts state that parsing never loses errors, never moves back and
  always terminates, that a lone operand is parsed as itself, and that chains
  of binary operators group by operator strength (`parser/precedence.rs`).
- `src/semantic` — scopes (`symbol_table.rs`), the type environment and its
  subtyping (`type_system.rs`), expression typing rules
  (`expression_checker.rs`) and the analyzer that ties them together.
- `src/ir` — the intermediate representation, its control-flow graph and
  validation, and the single-assignment pass: dominators, dominance
  frontiers and phi placement (`dominance.rs`, `ssa.rs`), and value renaming
  (`renaming.rs`), proved to define each value once.
- `src/codegen` — the code-generation context, the LLVM text backend (whose
  output is specified character for character) and the backend lifecycle.
- `src/pipeline.rs`, `src/cli.rs`, `src/execution.rs` — the stages of a
  compilation, command-line parsing and the paths of a native build.
- `app/` — the program around the library: reading sources, writing
  artifacts, running the native toolchain, and the runtime functions that
  compiled programs link against.
- `tests/` — tests of the library on concrete inputs.

## Limits

- Lowering syntax trees to the intermediate representation is not part of
  this library. It needs instructions for memory loads and stores, element
  addresses, indirect calls and global values, which the intermediate
  representation here does not define, and it writes number literals as
  floating-point constants, which the library does not compute. The IR stage
  therefore reports that lowering is not available, and `--ir`, `--codegen`
  and `--run` stop there.
- LLVM bitcode emission through inkwell is not built: the backend that needs
  it reports its error, as a build without that backend does.
