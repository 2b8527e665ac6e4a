# mog

The front end of the Mog compiler, written in Verus: each function of the
library carries a contract, and Verus proves every body against it.

Semantic analysis is here in part. `SemanticAnalyzer::analyze` walks the
program under the rules of name resolution and control flow, stated in
`src/scope_rules.rs`: undefined names, functions and struct types,
assignment to what is not a variable, `break` and `continue` outside a
loop, `return` outside a function, `await` and `spawn` outside an async
function, `:=` used as a condition, parameter defaults, named arguments
that match no parameter and required arguments left out, calls of a
capability's functions checked against its `.mogdecl` declaration, and
`void` struct fields, each with its message and span, and the warning on
casts passed to POSIX buffer functions. Scopes close behind every
block (`law_block_scopes_restored`). What is not here is type checking:
the inference of each expression's type and the compatibility checks on
it need the definitions of type compatibility and of how a type is
written in messages, which this project does not hold. The walk therefore
binds every declared name (as if its type were known), visits every
subexpression, and leaves out what depends on types: type mismatches,
method calls resolved by the receiver's type, and the warnings on
non-exhaustive `match`. Code generation (QBE) is not here either, so
`mogc` stops after analysis with an error.

## Layout

- `src/lexer_spec.rs`, `src/lexer.rs` — the lexer. `lex` states, as a
  function on characters, which lexemes a source holds; `tokenize` returns
  exactly those, with line, column and byte positions.
- `src/grammar.rs`, `src/syntax.rs`, `src/described.rs`, `src/parser.rs` —
  the parser. The grammar is stated as functions on token views; `parse`
  succeeds exactly when the grammar reads a program, and then returns the
  tree the grammar describes. Mixed binary operators without parentheses
  are refused, as Mog promises.
- `src/capability.rs` — `.mogdecl` capability declarations.
- `src/module.rs` — `mog.mod` files, import scanning, and the import-cycle
  check (an error exactly when the import graph has a cycle).
- `src/scope_rules.rs`, `src/analyzer.rs` — the rules of name resolution
  and control flow as a walk over the tree, the analyzer that follows
  them, the symbol table, the built-in declarations, and the typing rules
  for names, literals, method calls and `match` bindings.
- `src/compiler.rs` — compile options, the front-end pipeline, capability
  extraction and the BLAKE3 plugin hash.
- `src/bench.rs` — the pure computations of the benchmark suite.
- `app/main.rs` — the `mogc` command-line driver: arguments, files and
  module directories.
- `tests/` — tests of the library from outside.
