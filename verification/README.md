# cgo_gen

Generates conservative C ABI wrappers and Go `cgo` facades for a subset of
C++ headers. The library under `src/` is written in Verus: each function
states what it computes in its `requires`/`ensures` contract, and Verus
proves the code against it.

Layout:

- `src/text.rs`: string and sequence specifications with their executable
  counterparts (trimming, splitting, joining, replacing, sorting).
- `src/config.rs`: the configuration, output-name derivation, model lookups,
  and the classification of configured clang arguments.
- `src/parser.rs`: the declarations that the header parser collects, and the
  rules it applies to type spellings.
- `src/codegen/ir_norm.rs`: normalization of parsed declarations into the C
  ABI IR, including type classification and unique symbol assignment.
- `src/generator.rs`: the C header and C++ source renderers, callback
  bridges, `go.mod` and `build_flags.go`.
- `src/facade.rs`, `src/facade/projection.rs`: the Go facade renderer and the
  model projections derived from getter/setter pairs.
- `src/model.rs`: plain Go model structs and enums.
- `src/parsing/compiler.rs`, `src/compiler.rs`: the clang arguments of a
  parse, from the compilation database, the configuration and the platform.
- `src/parsing/units.rs`: which translation units a parse reads, in path
  order.
- `src/env_tokens.rs`: expansion of `$NAME`, `${NAME}` and `$(NAME)` in
  configured clang arguments, from values the caller reads.

`app/` is the command-line program around the library: YAML and JSON
loading, the libclang AST walk, the file system and process calls, and
writing the generated files.

Public proof functions named `law_*` state properties that hold across
calls, such as the idempotence of the argument defaults, the ordering of
model projections, and the uniqueness of exported Go names.
