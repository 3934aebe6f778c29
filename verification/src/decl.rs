//! Toplevel declarations: data and codata types, their constructors and
//! destructors, definitions, codefinitions and toplevel lets, together with
//! the telescopes of parameters that they bind.

use vstd::prelude::*;
use codespan::Span;
use crate::decls::{DocComment, Attribute, DeclKind};
use crate::exp::{Exp, Term, Ident, Named, TypCtor, Match, ParamInst, ParamM, TelescopeInst, exp_view, params_view, copy_exp, copy_typ_ctor};
use crate::forget::{ForgetTST, forget_term, forget_typ_ctor, forget_match};
use crate::strings::str_eq;

verus! {

broadcast use vstd::std_specs::vec::group_vec_axioms, vstd::seq::group_seq_axioms;

// ---------------------------------------------------------------------------
// Strings, documentation and attributes
// ---------------------------------------------------------------------------

/// The characters of each string.
pub open spec fn strings_view(s: Seq<String>) -> Seq<Seq<char>> {
    Seq::new(s.len(), |i: int| s[i]@)
}

impl View for DocComment {
    type V = Seq<Seq<char>>;

    open spec fn view(&self) -> Seq<Seq<char>> {
        strings_view(self.docs@)
    }
}

impl View for Attribute {
    type V = Seq<Seq<char>>;

    open spec fn view(&self) -> Seq<Seq<char>> {
        strings_view(self.attrs@)
    }
}

/// The lines of an optional documentation comment.
pub open spec fn doc_view(d: Option<DocComment>) -> Option<Seq<Seq<char>>> {
    match d {
        Some(d) => Some(d@),
        None => None,
    }
}

/// The characters of an optional name.
pub open spec fn opt_name_view(n: Option<Ident>) -> Option<Seq<char>> {
    match n {
        Some(n) => Some(n@),
        None => None,
    }
}

/// A copy of a list of strings.
pub fn copy_strings(s: &Vec<String>) -> (r: Vec<String>)
    ensures
        strings_view(r@) == strings_view(s@),
{
    let mut out: Vec<String> = Vec::new();
    let mut i: usize = 0;
    while i < s.len()
        invariant
            i <= s@.len(),
            out@.len() == i,
            forall|j: int| 0 <= j < i ==> (#[trigger] out@[j])@ == s@[j]@,
        decreases s@.len() - i,
    {
        out.push(s[i].clone());
        i += 1;
    }
    assert(strings_view(out@) =~= strings_view(s@));
    out
}

/// A copy of an optional documentation comment.
pub fn copy_doc(d: &Option<DocComment>) -> (r: Option<DocComment>)
    ensures
        doc_view(r) == doc_view(*d),
{
    match d {
        Some(d) => Some(DocComment { docs: copy_strings(&d.docs) }),
        None => None,
    }
}

/// A copy of an attribute.
pub fn copy_attr(a: &Attribute) -> (r: Attribute)
    ensures
        r@ == a@,
{
    Attribute { attrs: copy_strings(&a.attrs) }
}

/// A copy of an optional name.
pub fn copy_opt_ident(n: &Option<Ident>) -> (r: Option<Ident>)
    ensures
        opt_name_view(r) == opt_name_view(*n),
{
    match n {
        Some(n) => Some(n.clone()),
        None => None,
    }
}

// ---------------------------------------------------------------------------
// Telescopes
// ---------------------------------------------------------------------------

/// A parameter of a telescope: a name and a type.
#[derive(Debug)]
pub struct Param {
    pub name: Ident,
    pub typ: Box<Exp>,
}

impl View for Param {
    type V = (Seq<char>, Term);

    open spec fn view(&self) -> (Seq<char>, Term) {
        (self.name@, exp_view(*self.typ))
    }
}

impl Named for Param {
    open spec fn name_view(&self) -> Seq<char> {
        self.name@
    }

    fn name(&self) -> (r: &Ident) {
        &self.name
    }
}

/// A list of parameters, each of which is in scope in the types of the
/// parameters that follow it.
#[derive(Debug)]
pub struct Telescope {
    pub params: Vec<Param>,
}

pub open spec fn telescope_view(s: Seq<Param>) -> Seq<(Seq<char>, Term)> {
    Seq::new(s.len(), |i: int| s[i]@)
}

impl View for Telescope {
    type V = Seq<(Seq<char>, Term)>;

    open spec fn view(&self) -> Seq<(Seq<char>, Term)> {
        telescope_view(self.params@)
    }
}

/// The telescope with the annotations of each parameter type forgotten.
pub open spec fn forget_telescope(s: Seq<(Seq<char>, Term)>) -> Seq<(Seq<char>, Term)> {
    Seq::new(s.len(), |i: int| (s[i].0, forget_term(s[i].1)))
}

/// The instantiation of a telescope: one parameter of each name, without types.
pub open spec fn instantiate_spec(s: Seq<(Seq<char>, Term)>) -> Seq<ParamM> {
    Seq::new(s.len(), |i: int| ParamM { span: None, info: None, name: s[i].0, typ: None })
}

/// A copy of a telescope.
pub fn copy_telescope(t: &Telescope) -> (r: Telescope)
    ensures
        r@ == t@,
{
    let mut out: Vec<Param> = Vec::new();
    let mut i: usize = 0;
    while i < t.params.len()
        invariant
            i <= t.params@.len(),
            out@.len() == i,
            forall|j: int| 0 <= j < i ==> (#[trigger] out@[j])@ == t.params@[j]@,
        decreases t.params@.len() - i,
    {
        let p = &t.params[i];
        out.push(Param { name: p.name.clone(), typ: Box::new(copy_exp(&p.typ)) });
        i += 1;
    }
    let r = Telescope { params: out };
    assert(r@ =~= t@);
    r
}

impl Telescope {
    /// The number of parameters.
    pub fn len(&self) -> (n: usize)
        ensures
            n == self@.len(),
    {
        self.params.len()
    }

    /// Whether the telescope has no parameters.
    pub fn is_empty(&self) -> (b: bool)
        ensures
            b == (self@.len() == 0),
    {
        self.params.len() == 0
    }
}

/// Syntax from which an instantiation of its parameters can be made.
pub trait Instantiate {
    fn instantiate(&self) -> TelescopeInst;
}

impl Instantiate for Telescope {
    /// The instantiation that names each parameter as the telescope does.
    fn instantiate(&self) -> (r: TelescopeInst)
        ensures
            params_view(r.params@) == instantiate_spec(self@),
    {
        let mut out: Vec<ParamInst> = Vec::new();
        let mut i: usize = 0;
        while i < self.params.len()
            invariant
                i <= self.params@.len(),
                out@.len() == i,
                forall|j: int| 0 <= j < i ==> params_view(out@)[j] == instantiate_spec(self@)[j],
            decreases self.params@.len() - i,
        {
            let ghost before = out@;
            out.push(ParamInst { span: None, name: self.params[i].name.clone(), info: None, typ: None });
            assert(crate::exp::opt_view(None) == None::<Box<Term>>);
            assert forall|j: int| 0 <= j < i + 1 implies params_view(out@)[j] == instantiate_spec(self@)[j] by {
                if j < i {
                    assert(out@[j] == before[j]);
                    assert(params_view(before)[j] == instantiate_spec(self@)[j]);
                }
            }
            i += 1;
        }
        let r = TelescopeInst { params: out };
        assert(params_view(r.params@) =~= instantiate_spec(self@));
        r
    }
}

impl ForgetTST for Param {
    fn forget_tst(&self) -> (r: Param)
        ensures
            r@ == (self@.0, forget_term(self@.1)),
    {
        Param { name: self.name.clone(), typ: Box::new(self.typ.forget_tst()) }
    }
}

impl ForgetTST for Telescope {
    fn forget_tst(&self) -> (r: Telescope)
        ensures
            r@ == forget_telescope(self@),
    {
        let mut out: Vec<Param> = Vec::new();
        let mut i: usize = 0;
        while i < self.params.len()
            invariant
                i <= self.params@.len(),
                out@.len() == i,
                forall|j: int| 0 <= j < i ==> (#[trigger] out@[j])@ == (self.params@[j]@.0, forget_term(self.params@[j]@.1)),
            decreases self.params@.len() - i,
        {
            out.push(self.params[i].forget_tst());
            i += 1;
        }
        let r = Telescope { params: out };
        assert(r@ =~= forget_telescope(self@));
        r
    }
}

// ---------------------------------------------------------------------------
// Type constructors and self parameters
// ---------------------------------------------------------------------------

impl TypCtor {
    /// The type constructor application as an expression.
    pub fn to_exp(&self) -> (r: Exp)
        ensures
            r@ == Term::TypCtor(self@),
    {
        Exp::TypCtor(copy_typ_ctor(self))
    }

    /// A type application is simple when it has no arguments.
    pub fn is_simple(&self) -> (b: bool)
        ensures
            b == (self@.args.len() == 0),
    {
        assert(self@.args == self.args@);
        self.args.args.len() == 0
    }
}

/// The parameter of a destructor or definition that stands for the destructee.
#[derive(Debug)]
pub struct SelfParam {
    pub info: Option<Span>,
    pub name: Option<Ident>,
    pub typ: TypCtor,
}

/// Whether `b` is `a` with the annotations of its type forgotten.
pub open spec fn forgot_self_param(a: SelfParam, b: SelfParam) -> bool {
    &&& b.info == a.info
    &&& opt_name_view(b.name) == opt_name_view(a.name)
    &&& b.typ@ == forget_typ_ctor(a.typ@)
}

/// Whether `b` is a copy of `a`.
pub open spec fn same_self_param(a: SelfParam, b: SelfParam) -> bool {
    &&& b.info == a.info
    &&& opt_name_view(b.name) == opt_name_view(a.name)
    &&& b.typ@ == a.typ@
}

/// A copy of a self parameter.
pub fn copy_self_param(s: &SelfParam) -> (r: SelfParam)
    ensures
        same_self_param(*s, r),
{
    SelfParam { info: s.info, name: copy_opt_ident(&s.name), typ: copy_typ_ctor(&s.typ) }
}

impl SelfParam {
    /// The telescope of the one parameter that the self parameter binds; an
    /// unnamed self parameter gets the empty name.
    pub fn telescope(&self) -> (r: Telescope)
        ensures
            r@ == seq![
                (
                    match self.name {
                        Some(n) => n@,
                        None => Seq::<char>::empty(),
                    },
                    Term::TypCtor(self.typ@),
                ),
            ],
    {
        let name = match &self.name {
            Some(n) => n.clone(),
            None => String::new(),
        };
        let mut params: Vec<Param> = Vec::new();
        params.push(Param { name, typ: Box::new(self.typ.to_exp()) });
        let r = Telescope { params };
        assert(r@ =~= seq![
            (
                match self.name {
                    Some(n) => n@,
                    None => Seq::<char>::empty(),
                },
                Term::TypCtor(self.typ@),
            ),
        ]);
        r
    }

    /// A self parameter is simple when its type has no arguments and it has no name;
    /// such a parameter can be left out when the program is printed.
    pub fn is_simple(&self) -> (b: bool)
        ensures
            b == (self.typ@.args.len() == 0 && self.name is None),
    {
        self.typ.is_simple() && self.name.is_none()
    }
}

impl ForgetTST for SelfParam {
    fn forget_tst(&self) -> (r: SelfParam)
        ensures
            forgot_self_param(*self, r),
    {
        SelfParam { info: self.info, name: copy_opt_ident(&self.name), typ: self.typ.forget_tst() }
    }
}

// ---------------------------------------------------------------------------
// Declarations
// ---------------------------------------------------------------------------

/// A data type, given by its constructors.
#[derive(Debug)]
pub struct Data {
    pub span: Option<Span>,
    pub doc: Option<DocComment>,
    pub name: Ident,
    pub attr: Attribute,
    pub typ: Telescope,
    pub ctors: Vec<Ident>,
}

/// A codata type, given by its destructors.
#[derive(Debug)]
pub struct Codata {
    pub span: Option<Span>,
    pub doc: Option<DocComment>,
    pub name: Ident,
    pub attr: Attribute,
    pub typ: Telescope,
    pub dtors: Vec<Ident>,
}

/// A constructor of a data type.
#[derive(Debug)]
pub struct Ctor {
    pub span: Option<Span>,
    pub doc: Option<DocComment>,
    pub name: Ident,
    pub params: Telescope,
    pub typ: TypCtor,
}

/// A destructor of a codata type.
#[derive(Debug)]
pub struct Dtor {
    pub span: Option<Span>,
    pub doc: Option<DocComment>,
    pub name: Ident,
    pub params: Telescope,
    pub self_param: SelfParam,
    pub ret_typ: Box<Exp>,
}

/// A definition: a function on a data type, by pattern matching.
#[derive(Debug)]
pub struct Def {
    pub span: Option<Span>,
    pub doc: Option<DocComment>,
    pub name: Ident,
    pub attr: Attribute,
    pub params: Telescope,
    pub self_param: SelfParam,
    pub ret_typ: Box<Exp>,
    pub body: Match,
}

/// A codefinition: an object of a codata type, by copattern matching.
#[derive(Debug)]
pub struct Codef {
    pub span: Option<Span>,
    pub doc: Option<DocComment>,
    pub name: Ident,
    pub attr: Attribute,
    pub params: Telescope,
    pub typ: TypCtor,
    pub body: Match,
}

/// A toplevel let binding.
#[derive(Debug)]
pub struct Let {
    pub span: Option<Span>,
    pub doc: Option<DocComment>,
    pub name: Ident,
    pub attr: Attribute,
    pub params: Telescope,
    pub typ: Box<Exp>,
    pub body: Box<Exp>,
}

/// A toplevel declaration.
#[derive(Debug)]
pub enum Decl {
    Data(Data),
    Codata(Codata),
    Ctor(Ctor),
    Dtor(Dtor),
    Def(Def),
    Codef(Codef),
    Let(Let),
}

/// Whether `b` is `a` with the annotations of its type forgotten.
pub open spec fn forgot_data(a: Data, b: Data) -> bool {
    &&& b.span == a.span
    &&& doc_view(b.doc) == doc_view(a.doc)
    &&& b.name@ == a.name@
    &&& b.attr@ == a.attr@
    &&& b.typ@ == forget_telescope(a.typ@)
    &&& strings_view(b.ctors@) == strings_view(a.ctors@)
}

pub open spec fn forgot_codata(a: Codata, b: Codata) -> bool {
    &&& b.span == a.span
    &&& doc_view(b.doc) == doc_view(a.doc)
    &&& b.name@ == a.name@
    &&& b.attr@ == a.attr@
    &&& b.typ@ == forget_telescope(a.typ@)
    &&& strings_view(b.dtors@) == strings_view(a.dtors@)
}

pub open spec fn forgot_ctor(a: Ctor, b: Ctor) -> bool {
    &&& b.span == a.span
    &&& doc_view(b.doc) == doc_view(a.doc)
    &&& b.name@ == a.name@
    &&& b.params@ == forget_telescope(a.params@)
    &&& b.typ@ == forget_typ_ctor(a.typ@)
}

pub open spec fn forgot_dtor(a: Dtor, b: Dtor) -> bool {
    &&& b.span == a.span
    &&& doc_view(b.doc) == doc_view(a.doc)
    &&& b.name@ == a.name@
    &&& b.params@ == forget_telescope(a.params@)
    &&& forgot_self_param(a.self_param, b.self_param)
    &&& exp_view(*b.ret_typ) == forget_term(exp_view(*a.ret_typ))
}

pub open spec fn forgot_def(a: Def, b: Def) -> bool {
    &&& b.span == a.span
    &&& doc_view(b.doc) == doc_view(a.doc)
    &&& b.name@ == a.name@
    &&& b.attr@ == a.attr@
    &&& b.params@ == forget_telescope(a.params@)
    &&& forgot_self_param(a.self_param, b.self_param)
    &&& exp_view(*b.ret_typ) == forget_term(exp_view(*a.ret_typ))
    &&& b.body@ == forget_match(a.body@)
}

pub open spec fn forgot_codef(a: Codef, b: Codef) -> bool {
    &&& b.span == a.span
    &&& doc_view(b.doc) == doc_view(a.doc)
    &&& b.name@ == a.name@
    &&& b.attr@ == a.attr@
    &&& b.params@ == forget_telescope(a.params@)
    &&& b.typ@ == forget_typ_ctor(a.typ@)
    &&& b.body@ == forget_match(a.body@)
}

pub open spec fn forgot_let(a: Let, b: Let) -> bool {
    &&& b.span == a.span
    &&& doc_view(b.doc) == doc_view(a.doc)
    &&& b.name@ == a.name@
    &&& b.attr@ == a.attr@
    &&& b.params@ == forget_telescope(a.params@)
    &&& exp_view(*b.typ) == forget_term(exp_view(*a.typ))
    &&& exp_view(*b.body) == forget_term(exp_view(*a.body))
}

/// Whether `b` is `a` with the annotations of all its types and bodies forgotten.
pub open spec fn forgot_decl(a: Decl, b: Decl) -> bool {
    match (a, b) {
        (Decl::Data(x), Decl::Data(y)) => forgot_data(x, y),
        (Decl::Codata(x), Decl::Codata(y)) => forgot_codata(x, y),
        (Decl::Ctor(x), Decl::Ctor(y)) => forgot_ctor(x, y),
        (Decl::Dtor(x), Decl::Dtor(y)) => forgot_dtor(x, y),
        (Decl::Def(x), Decl::Def(y)) => forgot_def(x, y),
        (Decl::Codef(x), Decl::Codef(y)) => forgot_codef(x, y),
        (Decl::Let(x), Decl::Let(y)) => forgot_let(x, y),
        _ => false,
    }
}

impl ForgetTST for Data {
    fn forget_tst(&self) -> (r: Data)
        ensures
            forgot_data(*self, r),
    {
        Data {
            span: self.span,
            doc: copy_doc(&self.doc),
            name: self.name.clone(),
            attr: copy_attr(&self.attr),
            typ: self.typ.forget_tst(),
            ctors: copy_strings(&self.ctors),
        }
    }
}

impl ForgetTST for Codata {
    fn forget_tst(&self) -> (r: Codata)
        ensures
            forgot_codata(*self, r),
    {
        Codata {
            span: self.span,
            doc: copy_doc(&self.doc),
            name: self.name.clone(),
            attr: copy_attr(&self.attr),
            typ: self.typ.forget_tst(),
            dtors: copy_strings(&self.dtors),
        }
    }
}

impl ForgetTST for Ctor {
    fn forget_tst(&self) -> (r: Ctor)
        ensures
            forgot_ctor(*self, r),
    {
        Ctor {
            span: self.span,
            doc: copy_doc(&self.doc),
            name: self.name.clone(),
            params: self.params.forget_tst(),
            typ: self.typ.forget_tst(),
        }
    }
}

impl ForgetTST for Dtor {
    fn forget_tst(&self) -> (r: Dtor)
        ensures
            forgot_dtor(*self, r),
    {
        Dtor {
            span: self.span,
            doc: copy_doc(&self.doc),
            name: self.name.clone(),
            params: self.params.forget_tst(),
            self_param: self.self_param.forget_tst(),
            ret_typ: Box::new(self.ret_typ.forget_tst()),
        }
    }
}

impl ForgetTST for Def {
    fn forget_tst(&self) -> (r: Def)
        ensures
            forgot_def(*self, r),
    {
        Def {
            span: self.span,
            doc: copy_doc(&self.doc),
            name: self.name.clone(),
            attr: copy_attr(&self.attr),
            params: self.params.forget_tst(),
            self_param: self.self_param.forget_tst(),
            ret_typ: Box::new(self.ret_typ.forget_tst()),
            body: self.body.forget_tst(),
        }
    }
}

impl ForgetTST for Codef {
    fn forget_tst(&self) -> (r: Codef)
        ensures
            forgot_codef(*self, r),
    {
        Codef {
            span: self.span,
            doc: copy_doc(&self.doc),
            name: self.name.clone(),
            attr: copy_attr(&self.attr),
            params: self.params.forget_tst(),
            typ: self.typ.forget_tst(),
            body: self.body.forget_tst(),
        }
    }
}

impl ForgetTST for Let {
    fn forget_tst(&self) -> (r: Let)
        ensures
            forgot_let(*self, r),
    {
        Let {
            span: self.span,
            doc: copy_doc(&self.doc),
            name: self.name.clone(),
            attr: copy_attr(&self.attr),
            params: self.params.forget_tst(),
            typ: Box::new(self.typ.forget_tst()),
            body: Box::new(self.body.forget_tst()),
        }
    }
}

impl ForgetTST for Decl {
    fn forget_tst(&self) -> (r: Decl)
        ensures
            forgot_decl(*self, r),
    {
        match self {
            Decl::Data(x) => Decl::Data(x.forget_tst()),
            Decl::Codata(x) => Decl::Codata(x.forget_tst()),
            Decl::Ctor(x) => Decl::Ctor(x.forget_tst()),
            Decl::Dtor(x) => Decl::Dtor(x.forget_tst()),
            Decl::Def(x) => Decl::Def(x.forget_tst()),
            Decl::Codef(x) => Decl::Codef(x.forget_tst()),
            Decl::Let(x) => Decl::Let(x.forget_tst()),
        }
    }
}

/// The name of a declaration.
pub open spec fn decl_name(d: Decl) -> Seq<char> {
    match d {
        Decl::Data(x) => x.name@,
        Decl::Codata(x) => x.name@,
        Decl::Ctor(x) => x.name@,
        Decl::Dtor(x) => x.name@,
        Decl::Def(x) => x.name@,
        Decl::Codef(x) => x.name@,
        Decl::Let(x) => x.name@,
    }
}

/// The source span of a declaration.
pub open spec fn decl_span(d: Decl) -> Option<Span> {
    match d {
        Decl::Data(x) => x.span,
        Decl::Codata(x) => x.span,
        Decl::Ctor(x) => x.span,
        Decl::Dtor(x) => x.span,
        Decl::Def(x) => x.span,
        Decl::Codef(x) => x.span,
        Decl::Let(x) => x.span,
    }
}

impl Named for Decl {
    open spec fn name_view(&self) -> Seq<char> {
        decl_name(*self)
    }

    fn name(&self) -> (r: &Ident) {
        match self {
            Decl::Data(x) => &x.name,
            Decl::Codata(x) => &x.name,
            Decl::Ctor(x) => &x.name,
            Decl::Dtor(x) => &x.name,
            Decl::Def(x) => &x.name,
            Decl::Codef(x) => &x.name,
            Decl::Let(x) => &x.name,
        }
    }
}

/// Whether the let binding is the main expression of a module: it is called
/// `main` and has no parameters.
pub open spec fn is_main_spec(l: Let) -> bool {
    l.name@ == "main"@ && l.params@.len() == 0
}

/// Whether `b` is a copy of `a`.
pub open spec fn same_let(a: Let, b: Let) -> bool {
    &&& b.span == a.span
    &&& doc_view(b.doc) == doc_view(a.doc)
    &&& b.name@ == a.name@
    &&& b.attr@ == a.attr@
    &&& b.params@ == a.params@
    &&& exp_view(*b.typ) == exp_view(*a.typ)
    &&& exp_view(*b.body) == exp_view(*a.body)
}

/// A copy of a let binding.
pub fn copy_let(l: &Let) -> (r: Let)
    ensures
        same_let(*l, r),
{
    Let {
        span: l.span,
        doc: copy_doc(&l.doc),
        name: l.name.clone(),
        attr: copy_attr(&l.attr),
        params: copy_telescope(&l.params),
        typ: Box::new(copy_exp(&l.typ)),
        body: Box::new(copy_exp(&l.body)),
    }
}

impl Let {
    /// Whether the let binding is the main expression of the module.
    pub fn is_main(&self) -> (b: bool)
        ensures
            b == is_main_spec(*self),
    {
        str_eq(self.name.as_str(), "main") && self.params.is_empty()
    }
}

/// The kind of a declaration.
pub open spec fn decl_kind(d: Decl) -> DeclKind {
    match d {
        Decl::Data(_) => DeclKind::Data,
        Decl::Codata(_) => DeclKind::Codata,
        Decl::Ctor(_) => DeclKind::Ctor,
        Decl::Dtor(_) => DeclKind::Dtor,
        Decl::Def(_) => DeclKind::Def,
        Decl::Codef(_) => DeclKind::Codef,
        Decl::Let(_) => DeclKind::Let,
    }
}

impl Decl {
    /// The kind of the declaration.
    pub fn kind(&self) -> (k: DeclKind)
        ensures
            k == decl_kind(*self),
    {
        match self {
            Decl::Data(_) => DeclKind::Data,
            Decl::Codata(_) => DeclKind::Codata,
            Decl::Ctor(_) => DeclKind::Ctor,
            Decl::Dtor(_) => DeclKind::Dtor,
            Decl::Def(_) => DeclKind::Def,
            Decl::Codef(_) => DeclKind::Codef,
            Decl::Let(_) => DeclKind::Let,
        }
    }

    /// The source span of the declaration.
    pub fn span(&self) -> (r: Option<Span>)
        ensures
            r == decl_span(*self),
    {
        match self {
            Decl::Data(x) => x.span,
            Decl::Codata(x) => x.span,
            Decl::Ctor(x) => x.span,
            Decl::Dtor(x) => x.span,
            Decl::Def(x) => x.span,
            Decl::Codef(x) => x.span,
            Decl::Let(x) => x.span,
        }
    }

    /// A copy of the declaration if it is the main expression of the module.
    pub fn get_main(&self) -> (r: Option<Let>)
        ensures
            match *self {
                Decl::Let(l) => if is_main_spec(l) {
                    r matches Some(c) && same_let(l, c)
                } else {
                    r is None
                },
                _ => r is None,
            },
    {
        match self {
            Decl::Let(l) => if l.is_main() {
                Some(copy_let(l))
            } else {
                None
            },
            _ => None,
        }
    }
}

impl Def {
    /// The destructor that the definition stands for: its signature without the body.
    pub fn to_dtor(&self) -> (r: Dtor)
        ensures
            r.span == self.span,
            doc_view(r.doc) == doc_view(self.doc),
            r.name@ == self.name@,
            r.params@ == self.params@,
            same_self_param(self.self_param, r.self_param),
            exp_view(*r.ret_typ) == exp_view(*self.ret_typ),
    {
        Dtor {
            span: self.span,
            doc: copy_doc(&self.doc),
            name: self.name.clone(),
            params: copy_telescope(&self.params),
            self_param: copy_self_param(&self.self_param),
            ret_typ: Box::new(copy_exp(&self.ret_typ)),
        }
    }
}

impl Codef {
    /// The constructor that the codefinition stands for: its signature without the body.
    pub fn to_ctor(&self) -> (r: Ctor)
        ensures
            r.span == self.span,
            doc_view(r.doc) == doc_view(self.doc),
            r.name@ == self.name@,
            r.params@ == self.params@,
            r.typ@ == self.typ@,
    {
        Ctor {
            span: self.span,
            doc: copy_doc(&self.doc),
            name: self.name.clone(),
            params: copy_telescope(&self.params),
            typ: copy_typ_ctor(&self.typ),
        }
    }
}

/// Whether `b` is a copy of `a`.
pub open spec fn same_ctor(a: Ctor, b: Ctor) -> bool {
    &&& b.span == a.span
    &&& doc_view(b.doc) == doc_view(a.doc)
    &&& b.name@ == a.name@
    &&& b.params@ == a.params@
    &&& b.typ@ == a.typ@
}

/// Whether `b` is a copy of `a`.
pub open spec fn same_dtor(a: Dtor, b: Dtor) -> bool {
    &&& b.span == a.span
    &&& doc_view(b.doc) == doc_view(a.doc)
    &&& b.name@ == a.name@
    &&& b.params@ == a.params@
    &&& same_self_param(a.self_param, b.self_param)
    &&& exp_view(*b.ret_typ) == exp_view(*a.ret_typ)
}

/// A copy of a constructor.
pub fn copy_ctor(c: &Ctor) -> (r: Ctor)
    ensures
        same_ctor(*c, r),
{
    Ctor {
        span: c.span,
        doc: copy_doc(&c.doc),
        name: c.name.clone(),
        params: copy_telescope(&c.params),
        typ: copy_typ_ctor(&c.typ),
    }
}

/// A copy of a destructor.
pub fn copy_dtor(d: &Dtor) -> (r: Dtor)
    ensures
        same_dtor(*d, r),
{
    Dtor {
        span: d.span,
        doc: copy_doc(&d.doc),
        name: d.name.clone(),
        params: copy_telescope(&d.params),
        self_param: copy_self_param(&d.self_param),
        ret_typ: Box::new(copy_exp(&d.ret_typ)),
    }
}

} // verus!
