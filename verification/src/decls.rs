//! Metadata on toplevel declarations: their kinds, what is known of them
//! before their bodies are checked, their documentation and attributes.

use vstd::prelude::*;

verus! {

broadcast use vstd::std_specs::vec::group_vec_axioms, vstd::seq::group_seq_axioms;

/// The kinds of toplevel declarations.
#[derive(Clone, Copy, Debug, PartialEq, Eq, Structural)]
pub enum DeclKind {
    Data,
    Codata,
    Def,
    Codef,
    Ctor,
    Dtor,
    Let,
}

impl DeclKind {
    /// How the kind is called in messages, such as "data type".
    pub fn description(&self) -> (s: &'static str)
        ensures
            s@ == match self {
                DeclKind::Data => "data type"@,
                DeclKind::Codata => "codata type"@,
                DeclKind::Def => "definition"@,
                DeclKind::Codef => "codefinition"@,
                DeclKind::Ctor => "constructor"@,
                DeclKind::Dtor => "destructor"@,
                DeclKind::Let => "toplevel let"@,
            },
    {
        match self {
            DeclKind::Data => "data type",
            DeclKind::Codata => "codata type",
            DeclKind::Def => "definition",
            DeclKind::Codef => "codefinition",
            DeclKind::Ctor => "constructor",
            DeclKind::Dtor => "destructor",
            DeclKind::Let => "toplevel let",
        }
    }
}

/// What is known of a declaration before its body is checked.
#[derive(Clone, Debug)]
pub enum DeclMeta {
    Data { arity: usize },
    Codata { arity: usize },
    Def,
    Codef,
    Ctor { ret_typ: String },
    Dtor { self_typ: String },
}

/// The kind of declaration that the metadata describes.
pub open spec fn kind_spec(m: DeclMeta) -> DeclKind {
    match m {
        DeclMeta::Data { .. } => DeclKind::Data,
        DeclMeta::Codata { .. } => DeclKind::Codata,
        DeclMeta::Def => DeclKind::Def,
        DeclMeta::Codef => DeclKind::Codef,
        DeclMeta::Ctor { .. } => DeclKind::Ctor,
        DeclMeta::Dtor { .. } => DeclKind::Dtor,
    }
}

impl DeclMeta {
    /// The kind of declaration that the metadata describes.
    pub fn kind(&self) -> (k: DeclKind)
        ensures
            k == kind_spec(*self),
    {
        match self {
            DeclMeta::Data { .. } => DeclKind::Data,
            DeclMeta::Codata { .. } => DeclKind::Codata,
            DeclMeta::Def => DeclKind::Def,
            DeclMeta::Codef => DeclKind::Codef,
            DeclMeta::Ctor { .. } => DeclKind::Ctor,
            DeclMeta::Dtor { .. } => DeclKind::Dtor,
        }
    }
}

/// The lines of a documentation comment.
#[derive(Clone, Debug)]
pub struct DocComment {
    pub docs: Vec<String>,
}

/// An attribute attached to a node, written `#[attr1, attr2]`.
#[derive(Clone, Debug, Default)]
pub struct Attribute {
    pub attrs: Vec<String>,
}

} // verus!
