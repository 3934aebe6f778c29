//! Errors of the type-erasure pass.

use vstd::prelude::*;

verus! {

/// An error raised while marking terms as erased.
#[derive(Clone, Debug)]
pub enum ErasureError {
    /// An internal invariant of the pass was violated.
    Impossible(String),
}

impl ErasureError {
    /// The text by which the error is shown to the user: `Impossible: ` and the message.
    pub fn message(&self) -> (r: String)
        ensures
            self matches ErasureError::Impossible(m) && r@ == "Impossible: "@ + m@,
    {
        match self {
            ErasureError::Impossible(m) => {
                let mut out = String::from_str("Impossible: ");
                out.append(m.as_str());
                out
            },
        }
    }
}

} // verus!
