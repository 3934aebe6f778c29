//! Source locations. Expressions carry the span of the source text they
//! were parsed from; the term operations carry spans through unchanged.

use vstd::prelude::*;

verus! {

/// The source span type of the `codespan` crate, carried through as an opaque value.
#[verifier::external_type_specification]
#[verifier::external_body]
pub struct ExSpan(codespan::Span);

/// Compares two optional spans with `PartialEq` of `codespan::Span`, which compares
/// the start and end offsets. The contract claims that this comparison agrees with
/// equality of the two values.
#[verifier::external_body]
pub(crate) fn span_eq(a: &Option<codespan::Span>, b: &Option<codespan::Span>) -> (r: bool)
    ensures
        r == (*a == *b),
{
    a == b
}

} // verus!
