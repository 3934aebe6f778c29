//! The conversion check of the type checker: two types are convertible when
//! their normal forms are equal.

use vstd::prelude::*;
use crate::exp::{Exp, Term};
use crate::nf::{Nf, Neu, ForgetNF, nf_eq, nf_term};

verus! {

/// Errors of the conversion check.
#[derive(Debug)]
pub enum TypeError {
    /// The two types, given as the expressions that their normal forms
    /// denote, are not convertible.
    NotEq { lhs: Exp, rhs: Exp },
}

/// Types that can be checked for convertibility.
pub trait Convert: Sized {
    /// Whether the two values are convertible.
    spec fn convertible(&self, other: &Self) -> bool;

    /// The expression that the value denotes, reported when the check fails.
    spec fn denotation(&self) -> Term;

    fn convert(&self, other: &Self) -> (r: Result<(), TypeError>)
        ensures
            r is Ok <==> self.convertible(other),
            r matches Err(TypeError::NotEq { lhs, rhs }) ==> lhs@ == self.denotation() && rhs@
                == other.denotation(),
    ;
}

impl Convert for Nf {
    open spec fn convertible(&self, other: &Self) -> bool {
        nf_eq(*self, *other)
    }

    open spec fn denotation(&self) -> Term {
        nf_term(*self)
    }

    fn convert(&self, other: &Self) -> (r: Result<(), TypeError>) {
        if self.alpha_eq(other) {
            Ok(())
        } else {
            Err(TypeError::NotEq { lhs: self.forget_nf(), rhs: other.forget_nf() })
        }
    }
}

/// The type universe, as a normal form.
pub fn type_univ() -> (r: Nf)
    ensures
        r == (Nf::Type { info: None }),
{
    Nf::Type { info: None }
}

/// A hole that stands for a type not known yet, as a normal form.
pub fn type_hole() -> (r: Nf)
    ensures
        r == (Nf::Neu { exp: Neu::Hole { info: None } }),
{
    Nf::Neu { exp: Neu::Hole { info: None } }
}

} // verus!
