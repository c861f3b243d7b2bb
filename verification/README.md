# gustc

The front and middle of a compiler for a small language, written in Verus.
Functions state in `requires`/`ensures` what they compute, and Verus proves
it. The parser states, for each parsing function, the tree it builds and the
parser state it leaves, as a relation over parser states: types, expressions
(precedence and associativity, postfix operations and the trials of type
arguments that are undone), statements, blocks, patterns, functions and
lambdas, imports, enums, structs, traits, impls and `export`, and the
top-level loop of `Parser::parse`. Two kinds of top-level declaration are
stated less: `static fn` extensions, and functions whose name is followed by
`<` or `.` (extension methods and generic functions), of which only the kind
of item is stated.

## Layout

- `src/span.rs`, `src/diagnostic.rs`, `src/token.rs`, `src/ast.rs` — source
  positions, diagnostics, tokens and the syntax tree.
- `src/ast_copy.rs` — part-for-part copies of syntax trees.
- `src/parser/` — the recursive-descent parser (declarations, statements,
  expressions, patterns, types).
- `src/text.rs` — decimal text, joining and searching strings.
- `src/project/` — linking the modules of a project:
  - `manifest.rs` reads `project.yaml`; `paths.rs` writes paths relative to
    the project root; `spans.rs` moves spans between files;
  - `link.rs`, `reexport.rs`, `linker.rs`, `rewrite.rs`, `rewrite_code.rs`
    give declarations internal names, resolve re-exports and imports, refuse
    impls of foreign traits for foreign types, and rewrite every item to the
    internal names;
  - `imports.rs` decides where an import leads (a relative file, the
    standard library, or a dependency) or why it is refused; `loader.rs`
    keeps the modules loaded (each package and path once), places each
    source at the next offset, moves its spans and diagnostics there, and
    lists its imports (with the standard library's prelude);
  - `import_spec.rs` states what bringing a module's imports into view does,
    step by step, as `linker.rs` checks it;
  - `comptime*.rs`, `permissions.rs`, `runner_types.rs`, `runner_prepare.rs`,
    `lambda_sources.rs`, `materialize.rs` — compile-time evaluation: finding
    `comptime` sites, what they may read, preparing the code that runs them,
    reading back their results, writing results as source and putting them
    in place of the sites.
- `src/monomorphize/` — pieces of monomorphization: type names and
  substitution, associated types, trait default methods, impl coherence (a
  verified unification: two impl headers overlap exactly when one
  substitution makes them equal), the reachability of generic methods, and
  the checks on declarations: type parameters (`templates.rs`), associated
  types of traits and impls (`associated_checks.rs`), unsatisfied trait
  bounds (`bound_checks.rs`), trait-typed values and projections
  (`trait_objects.rs`) and the types written in signatures and bodies
  (`signature_checks.rs`).
- `app/` — what touches the machine: reading files, finding the project root,
  and the loop that runs compile-time sites through an outside runner.
- `tests/` — tests on concrete programs.
