//! The declarations of a module, looked up by name.

use vstd::prelude::*;
use codespan::Span;
use crate::decls::DeclKind;
use crate::forget::ForgetTST;
use crate::exp::{Exp, exp_view};
use crate::decl::{
    forgot_decl, is_main_spec, Decl, Data, Codata, Ctor, Dtor, Def, Codef, Let, Telescope, decl_kind, copy_ctor, copy_dtor, copy_telescope,
    same_ctor, same_dtor,
};
use crate::decls::Attribute;
use crate::lookup_table::{ItemM, items_view};
use crate::exp::Ident;
use crate::lookup_table::{
    LookupTable, TableM, assoc, unique_keys, table_wf, type_decl_spec, xdefs_spec, find_key, lemma_assoc_at,
    lemma_assoc_update, lemma_assoc_push, updated, decl_xtors_of,
};
use crate::decl::strings_view;

verus! {

broadcast use vstd::std_specs::vec::group_vec_axioms, vstd::seq::group_seq_axioms;

/// Errors of looking up a declaration.
#[derive(Debug)]
pub enum LookupError {
    UndefinedDeclaration { name: String, span: Option<Span> },
    ExpectedDataCodata { name: String, actual: DeclKind, span: Option<Span> },
    ExpectedData { name: String, actual: DeclKind, span: Option<Span> },
    ExpectedCodata { name: String, actual: DeclKind, span: Option<Span> },
    ExpectedCtorCodef { name: String, actual: DeclKind, span: Option<Span> },
    ExpectedCtor { name: String, actual: DeclKind, span: Option<Span> },
    ExpectedCodef { name: String, actual: DeclKind, span: Option<Span> },
    ExpectedDtorDef { name: String, actual: DeclKind, span: Option<Span> },
    ExpectedDtor { name: String, actual: DeclKind, span: Option<Span> },
    ExpectedDef { name: String, actual: DeclKind, span: Option<Span> },
    MissingTypeDeclaration { name: String, span: Option<Span> },
}

/// A data or codata type.
#[derive(Debug)]
pub enum Polarity<'a> {
    Data(&'a Data),
    Codata(&'a Codata),
}

impl<'a> Polarity<'a> {
    /// The name of the type.
    pub fn name(&self) -> (r: &Ident)
        ensures
            r@ == match *self {
                Polarity::Data(d) => d.name@,
                Polarity::Codata(c) => c.name@,
            },
    {
        match self {
            Polarity::Data(d) => &d.name,
            Polarity::Codata(c) => &c.name,
        }
    }

    /// The parameters of the type.
    pub fn typ(&self) -> (r: Telescope)
        ensures
            r@ == match *self {
                Polarity::Data(d) => d.typ@,
                Polarity::Codata(c) => c.typ@,
            },
    {
        match self {
            Polarity::Data(d) => copy_telescope(&d.typ),
            Polarity::Codata(c) => copy_telescope(&c.typ),
        }
    }
}

/// The declarations of a module by name, and the metadata on them.
#[derive(Debug)]
pub struct Decls {
    /// The declarations by name; no name occurs twice.
    pub map: Vec<(String, Decl)>,
    /// Metadata on the declarations.
    pub lookup_table: LookupTable,
}

pub open spec fn decls_view(s: Seq<(String, Decl)>) -> Seq<(Seq<char>, Decl)> {
    Seq::new(s.len(), |i: int| (s[i].0@, s[i].1))
}

impl View for Decls {
    type V = Seq<(Seq<char>, Decl)>;

    open spec fn view(&self) -> Seq<(Seq<char>, Decl)> {
        decls_view(self.map@)
    }
}

impl Decls {
    /// No name is declared twice, and the metadata is well-formed.
    pub open spec fn wf(&self) -> bool {
        unique_keys(self@) && table_wf(self.lookup_table@)
    }

    /// No declarations.
    pub fn empty() -> (r: Decls)
        ensures
            r@ == Seq::<(Seq<char>, Decl)>::empty(),
            r.wf(),
            r.lookup_table@.items.len() == 0,
    {
        let r = Decls { map: Vec::new(), lookup_table: LookupTable::default() };
        assert(r@ =~= Seq::<(Seq<char>, Decl)>::empty());
        r
    }

    /// Whether there are no declarations.
    pub fn is_empty(&self) -> (b: bool)
        ensures
            b == (self@.len() == 0),
    {
        self.map.len() == 0
    }

    /// Declare `decl` under `name`, replacing an earlier declaration of that name.
    pub fn insert(&mut self, name: String, decl: Decl)
        requires
            old(self).wf(),
        ensures
            final(self).wf(),
            updated(old(self)@, final(self)@, name@, decl),
            final(self).lookup_table@ == old(self).lookup_table@,
    {
        let ghost km = name@;
        let ghost dm = decl;
        match find_key(&self.map, name.as_str()) {
            Some(i) => {
                proof {
                    lemma_assoc_update(decls_view(self.map@), i as int, dm);
                }
                self.map.set(i, (name, decl));
                assert(decls_view(self.map@) =~= decls_view(old(self).map@).update(i as int, (km, dm)));
            },
            None => {
                proof {
                    lemma_assoc_push(decls_view(self.map@), km, dm);
                }
                self.map.push((name, decl));
                assert(decls_view(self.map@) =~= decls_view(old(self).map@).push((km, dm)));
            },
        }
    }

    /// The declaration of `name`.
    fn decl(&self, name: &str, span: Option<Span>) -> (r: Result<&Decl, LookupError>)
        requires
            self.wf(),
        ensures
            match assoc(self@, name@) {
                Some(d) => r matches Ok(x) && *x == d,
                None => r matches Err(LookupError::UndefinedDeclaration { name: n, span: s }) && n@ == name@ && s
                    == span,
            },
    {
        match find_key(&self.map, name) {
            Some(i) => {
                proof {
                    lemma_assoc_at(decls_view(self.map@), i as int);
                }
                Ok(&self.map[i].1)
            },
            None => {
                assert(!exists|j: int| 0 <= j < self@.len() && self@[j].0 == name@);
                Err(LookupError::UndefinedDeclaration { name: name.to_string(), span })
            },
        }
    }

    /// The data or codata type `name`.
    pub fn typ(&self, name: &str, span: Option<Span>) -> (r: Result<Polarity<'_>, LookupError>)
        requires
            self.wf(),
        ensures
            typ_result(self@, name@, span, r),
    {
        match self.decl(name, span)? {
            Decl::Data(d) => Ok(Polarity::Data(d)),
            Decl::Codata(c) => Ok(Polarity::Codata(c)),
            other => Err(LookupError::ExpectedDataCodata { name: name.to_string(), actual: other.kind(), span }),
        }
    }

    /// The data type `name`.
    pub fn data(&self, name: &str, span: Option<Span>) -> (r: Result<&Data, LookupError>)
        requires
            self.wf(),
        ensures
            match assoc(self@, name@) {
                Some(Decl::Data(x)) => r matches Ok(d) && *d == x,
                Some(other) => r matches Err(LookupError::ExpectedData { name: n, actual, span: s }) && n@ == name@
                    && actual == decl_kind(other) && s == span,
                None => undefined(r, name@, span),
            },
    {
        match self.decl(name, span)? {
            Decl::Data(d) => Ok(d),
            other => Err(LookupError::ExpectedData { name: name.to_string(), actual: other.kind(), span }),
        }
    }

    /// The codata type `name`.
    pub fn codata(&self, name: &str, span: Option<Span>) -> (r: Result<&Codata, LookupError>)
        requires
            self.wf(),
        ensures
            match assoc(self@, name@) {
                Some(Decl::Codata(x)) => r matches Ok(d) && *d == x,
                Some(other) => r matches Err(LookupError::ExpectedCodata { name: n, actual, span: s }) && n@
                    == name@ && actual == decl_kind(other) && s == span,
                None => undefined(r, name@, span),
            },
    {
        match self.decl(name, span)? {
            Decl::Codata(d) => Ok(d),
            other => Err(LookupError::ExpectedCodata { name: name.to_string(), actual: other.kind(), span }),
        }
    }

    /// The definition `name`.
    pub fn def(&self, name: &str, span: Option<Span>) -> (r: Result<&Def, LookupError>)
        requires
            self.wf(),
        ensures
            match assoc(self@, name@) {
                Some(Decl::Def(x)) => r matches Ok(d) && *d == x,
                Some(other) => r matches Err(LookupError::ExpectedDef { name: n, actual, span: s }) && n@ == name@
                    && actual == decl_kind(other) && s == span,
                None => undefined(r, name@, span),
            },
    {
        match self.decl(name, span)? {
            Decl::Def(d) => Ok(d),
            other => Err(LookupError::ExpectedDef { name: name.to_string(), actual: other.kind(), span }),
        }
    }

    /// The codefinition `name`.
    pub fn codef(&self, name: &str, span: Option<Span>) -> (r: Result<&Codef, LookupError>)
        requires
            self.wf(),
        ensures
            match assoc(self@, name@) {
                Some(Decl::Codef(x)) => r matches Ok(d) && *d == x,
                Some(other) => r matches Err(LookupError::ExpectedCodef { name: n, actual, span: s }) && n@ == name@
                    && actual == decl_kind(other) && s == span,
                None => undefined(r, name@, span),
            },
    {
        match self.decl(name, span)? {
            Decl::Codef(d) => Ok(d),
            other => Err(LookupError::ExpectedCodef { name: name.to_string(), actual: other.kind(), span }),
        }
    }

    /// The constructor `name`.
    pub fn ctor(&self, name: &str, span: Option<Span>) -> (r: Result<&Ctor, LookupError>)
        requires
            self.wf(),
        ensures
            match assoc(self@, name@) {
                Some(Decl::Ctor(x)) => r matches Ok(d) && *d == x,
                Some(other) => r matches Err(LookupError::ExpectedCtor { name: n, actual, span: s }) && n@ == name@
                    && actual == decl_kind(other) && s == span,
                None => undefined(r, name@, span),
            },
    {
        match self.decl(name, span)? {
            Decl::Ctor(d) => Ok(d),
            other => Err(LookupError::ExpectedCtor { name: name.to_string(), actual: other.kind(), span }),
        }
    }

    /// The destructor `name`.
    pub fn dtor(&self, name: &str, span: Option<Span>) -> (r: Result<&Dtor, LookupError>)
        requires
            self.wf(),
        ensures
            match assoc(self@, name@) {
                Some(Decl::Dtor(x)) => r matches Ok(d) && *d == x,
                Some(other) => r matches Err(LookupError::ExpectedDtor { name: n, actual, span: s }) && n@ == name@
                    && actual == decl_kind(other) && s == span,
                None => undefined(r, name@, span),
            },
    {
        match self.decl(name, span)? {
            Decl::Dtor(d) => Ok(d),
            other => Err(LookupError::ExpectedDtor { name: name.to_string(), actual: other.kind(), span }),
        }
    }

    /// The constructor `name`, or the constructor that the codefinition `name` stands for.
    pub fn ctor_or_codef(&self, name: &str, span: Option<Span>) -> (r: Result<Ctor, LookupError>)
        requires
            self.wf(),
        ensures
            match assoc(self@, name@) {
                Some(Decl::Ctor(x)) => r matches Ok(c) && same_ctor(x, c),
                Some(Decl::Codef(x)) => r matches Ok(c) && c.span == x.span && c.name@ == x.name@ && c.params@
                    == x.params@ && c.typ@ == x.typ@ && crate::decl::doc_view(c.doc) == crate::decl::doc_view(x.doc),
                Some(other) => r matches Err(LookupError::ExpectedCtorCodef { name: n, actual, span: s }) && n@
                    == name@ && actual == decl_kind(other) && s == span,
                None => r matches Err(LookupError::UndefinedDeclaration { name: n, span: s }) && n@ == name@ && s
                    == span,
            },
    {
        match self.decl(name, span)? {
            Decl::Ctor(c) => Ok(copy_ctor(c)),
            Decl::Codef(c) => Ok(c.to_ctor()),
            other => Err(LookupError::ExpectedCtorCodef { name: name.to_string(), actual: other.kind(), span }),
        }
    }

    /// The destructor `name`, or the destructor that the definition `name` stands for.
    pub fn dtor_or_def(&self, name: &str, span: Option<Span>) -> (r: Result<Dtor, LookupError>)
        requires
            self.wf(),
        ensures
            match assoc(self@, name@) {
                Some(Decl::Dtor(x)) => r matches Ok(d) && same_dtor(x, d),
                Some(Decl::Def(x)) => r matches Ok(d) && d.span == x.span && d.name@ == x.name@ && d.params@
                    == x.params@ && crate::decl::same_self_param(x.self_param, d.self_param)
                    && crate::exp::exp_view(*d.ret_typ) == crate::exp::exp_view(*x.ret_typ)
                    && crate::decl::doc_view(d.doc) == crate::decl::doc_view(x.doc),
                Some(other) => r matches Err(LookupError::ExpectedDtorDef { name: n, actual, span: s }) && n@
                    == name@ && actual == decl_kind(other) && s == span,
                None => r matches Err(LookupError::UndefinedDeclaration { name: n, span: s }) && n@ == name@ && s
                    == span,
            },
    {
        match self.decl(name, span)? {
            Decl::Dtor(d) => Ok(copy_dtor(d)),
            Decl::Def(d) => Ok(d.to_dtor()),
            other => Err(LookupError::ExpectedDtorDef { name: name.to_string(), actual: other.kind(), span }),
        }
    }

    /// The constructors or destructors of the type `name`.
    pub fn xtors_for_type(&self, name: &str) -> (r: Vec<Ident>)
        requires
            self.wf(),
        ensures
            strings_view(r@) == decl_xtors_of(self.lookup_table@, name@),
    {
        self.lookup_table.xtors_for_type(name)
    }

    /// The definitions of the type `name`.
    pub fn xdefs_for_type(&self, name: &str) -> (r: Vec<Ident>)
        requires
            self.wf(),
        ensures
            strings_view(r@) == xdefs_spec(self.lookup_table@, name@),
    {
        self.lookup_table.xdefs_for_type(name)
    }

    /// The type that the constructor, destructor, definition or codefinition `name` belongs to.
    pub fn type_decl_for_member(&self, name: &str, span: Option<Span>) -> (r: Result<Polarity<'_>, LookupError>)
        requires
            self.wf(),
        ensures
            match member_type(self.lookup_table@, name@) {
                Some(t) => typ_result(self@, t, None, r),
                None => r matches Err(LookupError::MissingTypeDeclaration { name: n, span: s }) && n@ == name@ && s
                    == span,
            },
    {
        let t = match self.lookup_table.type_decl_for_xtor(name) {
            Some(t) => Some(t),
            None => self.lookup_table.type_decl_for_xdef(name),
        };
        match t {
            Some(t) => self.typ(t.name.as_str(), None),
            None => Err(LookupError::MissingTypeDeclaration { name: name.to_string(), span }),
        }
    }

    /// The data type of the constructor `name`.
    pub fn data_for_ctor(&self, name: &str, span: Option<Span>) -> (r: Result<&Data, LookupError>)
        requires
            self.wf(),
        ensures
            match assoc(self@, name@) {
                None => undefined(r, name@, span),
                Some(Decl::Ctor(_)) => match xtor_type(self.lookup_table@, name@) {
                    None => r matches Err(LookupError::MissingTypeDeclaration { name: n, span: s }) && n@ == name@
                        && s == span,
                    Some(t) => match assoc(self@, t) {
                        Some(Decl::Data(x)) => r matches Ok(d) && *d == x,
                        Some(other) => r matches Err(LookupError::ExpectedData { name: n, actual, span: s }) && n@
                            == t && actual == decl_kind(other) && s is None,
                        None => undefined(r, t, None),
                    },
                },
                Some(other) => r matches Err(LookupError::ExpectedCtor { name: n, actual, span: s }) && n@ == name@
                    && actual == decl_kind(other) && s == span,
            },
    {
        self.ctor(name, span)?;
        let t = match self.lookup_table.type_decl_for_xtor(name) {
            Some(t) => t,
            None => {
                return Err(LookupError::MissingTypeDeclaration { name: name.to_string(), span });
            },
        };
        self.data(t.name.as_str(), None)
    }

    /// The codata type of the destructor `name`.
    pub fn codata_for_dtor(&self, name: &str, span: Option<Span>) -> (r: Result<&Codata, LookupError>)
        requires
            self.wf(),
        ensures
            match assoc(self@, name@) {
                None => undefined(r, name@, span),
                Some(Decl::Dtor(_)) => match xtor_type(self.lookup_table@, name@) {
                    None => r matches Err(LookupError::MissingTypeDeclaration { name: n, span: s }) && n@ == name@
                        && s == span,
                    Some(t) => match assoc(self@, t) {
                        Some(Decl::Codata(x)) => r matches Ok(d) && *d == x,
                        Some(other) => r matches Err(LookupError::ExpectedCodata { name: n, actual, span: s }) && n@
                            == t && actual == decl_kind(other) && s is None,
                        None => undefined(r, t, None),
                    },
                },
                Some(other) => r matches Err(LookupError::ExpectedDtor { name: n, actual, span: s }) && n@ == name@
                    && actual == decl_kind(other) && s == span,
            },
    {
        self.dtor(name, span)?;
        let t = match self.lookup_table.type_decl_for_xtor(name) {
            Some(t) => t,
            None => {
                return Err(LookupError::MissingTypeDeclaration { name: name.to_string(), span });
            },
        };
        self.codata(t.name.as_str(), None)
    }
}

/// The result is the error for an undefined declaration `name` at `span`.
pub open spec fn undefined<T>(r: Result<T, LookupError>, name: Seq<char>, span: Option<Span>) -> bool {
    r matches Err(LookupError::UndefinedDeclaration { name: n, span: s }) && n@ == name && s == span
}

/// The result of looking up the data or codata type `name`.
pub open spec fn typ_result(m: Seq<(Seq<char>, Decl)>, name: Seq<char>, span: Option<Span>, r: Result<Polarity<'_>, LookupError>) -> bool {
    match assoc(m, name) {
        Some(Decl::Data(x)) => r matches Ok(Polarity::Data(d)) && *d == x,
        Some(Decl::Codata(x)) => r matches Ok(Polarity::Codata(d)) && *d == x,
        Some(other) => r matches Err(LookupError::ExpectedDataCodata { name: n, actual, span: s }) && n@ == name
            && actual == decl_kind(other) && s == span,
        None => undefined(r, name, span),
    }
}

/// The name of the type that the constructor or destructor `name` belongs to, if it is declared.
pub open spec fn xtor_type(t: TableM, name: Seq<char>) -> Option<Seq<char>> {
    match assoc(t.type_for_xtor, name) {
        Some(ty) => match type_decl_spec(t, ty) {
            Some((n, _)) => Some(n),
            None => None,
        },
        None => None,
    }
}

/// The name of the type that the definition `name` belongs to, if it is declared.
pub open spec fn xdef_type(t: TableM, name: Seq<char>) -> Option<Seq<char>> {
    match assoc(t.type_for_xdef, name) {
        Some(ty) => match type_decl_spec(t, ty) {
            Some((n, _)) => Some(n),
            None => None,
        },
        None => None,
    }
}

/// The name of the type that the member `name` belongs to: as a constructor
/// or destructor first, else as a definition or codefinition.
pub open spec fn member_type(t: TableM, name: Seq<char>) -> Option<Seq<char>> {
    match xtor_type(t, name) {
        Some(n) => Some(n),
        None => xdef_type(t, name),
    }
}

// ---------------------------------------------------------------------------
// Iterating over the declarations in source order
// ---------------------------------------------------------------------------

/// A toplevel item of a module.
#[derive(Debug)]
pub enum Item<'a> {
    Data(&'a Data),
    Codata(&'a Codata),
    Def(&'a Def),
    Codef(&'a Codef),
    Let(&'a Let),
}

impl<'a> Item<'a> {
    /// The attributes of the item.
    pub fn attributes(&self) -> (r: &Attribute)
        ensures
            *r == match *self {
                Item::Data(x) => x.attr,
                Item::Codata(x) => x.attr,
                Item::Def(x) => x.attr,
                Item::Codef(x) => x.attr,
                Item::Let(x) => x.attr,
            },
    {
        match self {
            Item::Data(x) => &x.attr,
            Item::Codata(x) => &x.attr,
            Item::Def(x) => &x.attr,
            Item::Codef(x) => &x.attr,
            Item::Let(x) => &x.attr,
        }
    }
}

/// The item is the declaration `d`.
pub open spec fn item_is(it: Item, d: Decl) -> bool {
    match (it, d) {
        (Item::Data(x), Decl::Data(y)) => *x == y,
        (Item::Codata(x), Decl::Codata(y)) => *x == y,
        (Item::Def(x), Decl::Def(y)) => *x == y,
        (Item::Codef(x), Decl::Codef(y)) => *x == y,
        (Item::Let(x), Decl::Let(y)) => *x == y,
        _ => false,
    }
}

/// Every type recorded in the metadata is declared as a data or codata type,
/// and every definition as a definition or codefinition.
pub open spec fn items_declared(m: Seq<(Seq<char>, Decl)>, t: TableM) -> bool {
    forall|i: int|
        0 <= i < t.items.len() ==> match #[trigger] t.items[i] {
            ItemM::Type(n, _) => assoc(m, n) matches Some(d) && (d is Data || d is Codata),
            ItemM::Def(n) => assoc(m, n) matches Some(d) && (d is Def || d is Codef),
        }
}

/// The name of an item of the metadata.
pub open spec fn item_name(it: ItemM) -> Seq<char> {
    match it {
        ItemM::Type(n, _) => n,
        ItemM::Def(n) => n,
    }
}

impl Decls {
    /// The declarations in the order in which the items are defined in the source.
    pub fn iter(&self) -> (r: Vec<Item<'_>>)
        requires
            self.wf(),
            items_declared(self@, self.lookup_table@),
        ensures
            r@.len() == self.lookup_table@.items.len(),
            forall|i: int|
                0 <= i < r@.len() ==> item_is(#[trigger] r@[i], assoc(self@, item_name(self.lookup_table@.items[i]))->0),
    {
        let items = self.lookup_table.items();
        let mut out: Vec<Item<'_>> = Vec::new();
        let mut i: usize = 0;
        while i < items.len()
            invariant
                self.wf(),
                items_declared(self@, self.lookup_table@),
                items_view(items@) == self.lookup_table@.items,
                i <= items@.len(),
                out@.len() == i,
                forall|j: int|
                    0 <= j < i ==> item_is(#[trigger] out@[j], assoc(self@, item_name(self.lookup_table@.items[j]))->0),
            decreases items@.len() - i,
        {
            assert(self.lookup_table@.items[i as int] == crate::lookup_table::item_view(items@[i as int]));
            let name: &str = match &items[i] {
                crate::lookup_table::Item::Type(t) => t.name.as_str(),
                crate::lookup_table::Item::Def(d) => d.name.as_str(),
            };
            assert(name@ == item_name(self.lookup_table@.items[i as int]));
            let it = match self.decl(name, None) {
                Ok(Decl::Data(x)) => Item::Data(x),
                Ok(Decl::Codata(x)) => Item::Codata(x),
                Ok(Decl::Def(x)) => Item::Def(x),
                Ok(Decl::Codef(x)) => Item::Codef(x),
                Ok(Decl::Let(x)) => Item::Let(x),
                _ => {
                    assert(false);
                    return out;
                },
            };
            out.push(it);
            i += 1;
        }
        out
    }
}

// ---------------------------------------------------------------------------
// Forgetting annotations, and the main expression of a program
// ---------------------------------------------------------------------------

impl ForgetTST for Decls {
    /// The declarations with the annotations of all their types and bodies forgotten.
    fn forget_tst(&self) -> (r: Decls)
        ensures
            r@.len() == self@.len(),
            forall|i: int| 0 <= i < self@.len() ==> (#[trigger] r@[i]).0 == self@[i].0 && forgot_decl(self@[i].1, r@[i].1),
            r.lookup_table@ == self.lookup_table@,
    {
        let mut map: Vec<(String, Decl)> = Vec::new();
        let mut i: usize = 0;
        while i < self.map.len()
            invariant
                i <= self.map@.len(),
                map@.len() == i,
                forall|j: int| 0 <= j < i ==> (#[trigger] map@[j]).0@ == self.map@[j].0@ && forgot_decl(self.map@[j].1, map@[j].1),
            decreases self.map@.len() - i,
        {
            map.push((self.map[i].0.clone(), self.map[i].1.forget_tst()));
            i += 1;
        }
        Decls { map, lookup_table: self.lookup_table.copy() }
    }
}

/// A program: the declarations of a module.
#[derive(Debug)]
pub struct Prg {
    pub decls: Decls,
}

/// The body of the main expression of the program, if it has one: the
/// declaration `main`, if it is a toplevel let without parameters.
pub open spec fn main_body(decls: Seq<(Seq<char>, Decl)>) -> Option<crate::exp::Term> {
    match assoc(decls, "main"@) {
        Some(Decl::Let(l)) => if is_main_spec(l) {
            Some(exp_view(*l.body))
        } else {
            None
        },
        _ => None,
    }
}

impl Prg {
    /// The body of the main expression of the program, if it has one.
    pub fn find_main(&self) -> (r: Option<Exp>)
        requires
            self.decls.wf(),
        ensures
            r matches Some(e) ==> main_body(self.decls@) == Some(e@),
            r is None ==> main_body(self.decls@) is None,
    {
        let d = match self.decls.decl("main", None) {
            Ok(d) => d,
            Err(_) => {
                return None;
            },
        };
        match d.get_main() {
            Some(l) => Some(*l.body),
            None => None,
        }
    }
}

impl ForgetTST for Prg {
    /// The program with the annotations of all types and bodies forgotten.
    fn forget_tst(&self) -> (r: Prg)
        ensures
            r.decls@.len() == self.decls@.len(),
            forall|i: int|
                0 <= i < self.decls@.len() ==> (#[trigger] r.decls@[i]).0 == self.decls@[i].0 && forgot_decl(
                    self.decls@[i].1,
                    r.decls@[i].1,
                ),
            r.decls.lookup_table@ == self.decls.lookup_table@,
    {
        Prg { decls: self.decls.forget_tst() }
    }
}

} // verus!
