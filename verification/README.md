# delta

delta is a small programming language for games and interactive applications, with an
entity-component store that programs work on. This crate holds the verified parts of it, written in
Verus: every function in `src/` carries a contract that Verus proves. The library lexes and
parses source text, infers and checks types, generates and lists bytecode and stores
entities; it does not yet resolve names or run delta programs.

## Layout

- `src/` — the library.
  - Entities and components: `bitset` (sets of entity ids in 64-bit words), `column` (a
    sparse-set column of packed component bytes), `layout` (component layouts, entity ids),
    `world` (columns by component id, queries with and without components).
  - Language front end: `tokens`, `lexer` (source text to tokens, including string
    interpolation), `expressions` (the syntax tree), `grammar` and `parser` (recursive
    descent over the tokens: pipelines, `is` arms with guards, blocks and functions),
    `inference` and `typer` (type inference by constraints, solved by unification), `unification` (type constructors, substitutions, unification with an
    occurs check, and a form that reports where it would not finish), `termination` (when unification finishes, and what a finished run
    shows), `errors` and `diagnostics` (error texts and source excerpts),
    `environment`.
  - Bytecode: `bytecodes` (the instruction set), `codegen` (a bytecode builder with jump
    patching), `emission` and `generator` (code generation: each expression to
    instructions, functions to chunks of their own, linked behind a table of signatures;
    float literals take their bits from the host), `disassembler` (a textual listing of a
    program), `compiler` (source text to bytecode through all the stages above).
  - `program`: what a host offers to programs, functions with indices and named values.
  - `text`: decimal and character helpers shared by the modules above.
- `tests/` — tests on concrete values.
- `app/` — a command-line front end (compiling a file to bytecode, disassembling bytecode)
  and the entity demos whose components hold floating-point numbers.
