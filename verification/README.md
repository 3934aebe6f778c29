# polarity

The core of a dependently typed language with data and codata types,
verified with Verus.

Layout:

- `src/` — the verified library.
  - `de_bruijn` — two-dimensional de Bruijn indices and levels, contexts.
  - `exp`, `decl` — expressions and declarations, with their models.
  - `equiv`, `shift`, `occurs`, `subst`, `forget` — the operations on terms.
  - `unify` — first-order unification of expressions, specified by a step function.
  - `nf`, `convert` — normal forms, their equality and the conversion check.
  - `decls`, `lookup_table`, `lookup` — declaration metadata and lookup by name.
  - `lifting`, `free_vars` — lifting local matches: the free variables of an
    expression closed under their types, their order and the new signature.
  - `renaming`, `rename` — inventing names for binders of expressions and declarations.
  - `xfunc`, `erasure` — parts of the other program transformations.
  - `span`, `strings` — source spans and string comparison.
- `tests/` — tests run against the compiled library.
- `app/` — diagnostics (`thiserror`/`miette`) for the library's error types.

Not part of the library:

- The type checker: it interleaves its decisions with calls into the
  normalizer (evaluation, normalization, read-back), which cannot be had in
  this build.
- The phase-generic syntax tree with its `fold`, `map` and `visit`
  traversals: the library works on one concrete tree of expressions.
- The erasure pass: it works on call kinds, erasure flags of parameters and
  arguments, hole kinds and a symbol table that the library's tree does not
  carry.
