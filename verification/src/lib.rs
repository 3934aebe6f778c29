//! Core of a dependently typed language with data and codata types:
//! two-dimensional de Bruijn indices and levels, expressions and
//! declarations, shifting, occurrence checks, substitution,
//! alpha-equivalence, unification, normal forms and their conversion check,
//! the lookup of declarations by name, and the program transformations built
//! on top of them (the free variables and lifting of local matches, the matrix
//! representation of data and codata types, renaming of binders).

pub mod de_bruijn;
pub mod span;
pub mod exp;
pub mod equiv;
pub mod shift;
pub mod occurs;
pub mod subst;
pub mod unify;
pub mod renaming;
pub mod forget;
pub mod decls;
pub mod strings;
pub mod xfunc;
pub mod lifting;
pub mod free_vars;
pub mod nf;
pub mod erasure;
pub mod convert;
pub mod decl;
pub mod lookup_table;
pub mod lookup;
pub mod rename;
