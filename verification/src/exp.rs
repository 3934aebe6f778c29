//! Expressions of the core language and their mathematical model.
//!
//! Every executable syntax node has a view (`@`) into the spec-level model
//! [`Term`], which replaces vectors by sequences and strings by sequences of
//! characters. All operations on expressions are specified on that model.

use vstd::prelude::*;
use codespan::Span;
use crate::de_bruijn::Idx;
use crate::free_vars::{TypeCtx, TypedVar};

verus! {

broadcast use vstd::std_specs::vec::group_vec_axioms, vstd::seq::group_seq_axioms;

/// Names of declarations, constructors, destructors and variables.
pub type Ident = String;

/// The label of a local (co)match: a machine-generated unique id and
/// an optional name given by the user.
#[derive(Debug)]
pub struct Label {
    pub id: usize,
    pub user_name: Option<Ident>,
}

/// A metavariable, which stands for a term that is not known yet and is
/// determined during elaboration.
#[derive(Clone, Copy, Debug, PartialEq, Eq, Structural, Hash)]
pub struct MetaVar {
    pub id: u64,
}

/// Syntax that carries a name.
pub trait Named {
    /// The name, as a sequence of characters.
    spec fn name_view(&self) -> Seq<char>;

    fn name(&self) -> (r: &Ident)
        ensures
            r@ == self.name_view(),
    ;
}

impl Named for Ident {
    open spec fn name_view(&self) -> Seq<char> {
        self@
    }

    fn name(&self) -> (r: &Ident) {
        self
    }
}

impl Named for ParamInst {
    open spec fn name_view(&self) -> Seq<char> {
        self.name@
    }

    fn name(&self) -> (r: &Ident) {
        &self.name
    }
}

/// A list of arguments.
#[derive(Debug)]
pub struct Args {
    pub args: Vec<Exp>,
}

/// Instantiation of a previously declared parameter.
#[derive(Debug)]
pub struct ParamInst {
    pub span: Option<Span>,
    pub info: Option<Box<Exp>>,
    pub name: Ident,
    pub typ: Option<Box<Exp>>,
}

/// Instantiation of a previously declared telescope.
#[derive(Debug)]
pub struct TelescopeInst {
    pub params: Vec<ParamInst>,
}

/// A clause of a (co)match. A body of `None` is an absurd clause.
/// The parameters of the clause form one telescope that is bound in the body.
#[derive(Debug)]
pub struct Case {
    pub span: Option<Span>,
    pub name: Ident,
    pub params: TelescopeInst,
    pub body: Option<Box<Exp>>,
}

/// The clauses of a (co)match.
#[derive(Debug)]
pub struct Match {
    pub span: Option<Span>,
    pub cases: Vec<Case>,
    pub omit_absurd: bool,
}

/// The motive of a dependent match: one parameter bound in the return type.
#[derive(Debug)]
pub struct Motive {
    pub span: Option<Span>,
    pub param: ParamInst,
    pub ret_typ: Box<Exp>,
}

/// A bound variable occurrence, represented by a de Bruijn index; the name is kept for printing.
#[derive(Debug)]
pub struct Variable {
    pub span: Option<Span>,
    pub idx: Idx,
    pub name: Ident,
    pub inferred_type: Option<Box<Exp>>,
}

/// A type constructor applied to arguments, such as `List(Nat)`.
#[derive(Debug)]
pub struct TypCtor {
    pub span: Option<Span>,
    pub name: Ident,
    pub args: Args,
}

/// A call of a constructor, a codefinition or a toplevel let, such as `Cons(x, xs)`.
#[derive(Debug)]
pub struct Call {
    pub span: Option<Span>,
    pub name: Ident,
    pub args: Args,
    pub inferred_type: Option<Box<Exp>>,
}

/// A destructor or definition applied to a destructee, such as `xs.append(ys)`.
#[derive(Debug)]
pub struct DotCall {
    pub span: Option<Span>,
    pub exp: Box<Exp>,
    pub name: Ident,
    pub args: Args,
    pub inferred_type: Option<Box<Exp>>,
}

/// A type annotated term `e : t`.
#[derive(Debug)]
pub struct Anno {
    pub span: Option<Span>,
    pub exp: Box<Exp>,
    pub typ: Box<Exp>,
    pub normalized_type: Option<Box<Exp>>,
}

/// The type universe `Type`.
#[derive(Debug)]
pub struct TypeUniv {
    pub span: Option<Span>,
}

/// A local pattern match on an expression.
#[derive(Debug)]
pub struct LocalMatch {
    pub span: Option<Span>,
    pub name: Label,
    pub on_exp: Box<Exp>,
    pub motive: Option<Motive>,
    pub ret_typ: Option<Box<Exp>>,
    pub body: Match,
    pub inferred_type: Option<TypCtor>,
}

/// A local copattern match (an anonymous object of a codata type).
#[derive(Debug)]
pub struct LocalComatch {
    pub span: Option<Span>,
    pub name: Label,
    pub is_lambda_sugar: bool,
    pub body: Match,
    pub inferred_type: Option<TypCtor>,
}

/// A hole `?` that stands for a yet unknown term.
#[derive(Debug)]
pub struct Hole {
    pub span: Option<Span>,
    pub inferred_type: Option<Box<Exp>>,
    /// The type context in which the hole occurs, annotated during elaboration.
    pub inferred_ctx: Option<TypeCtx>,
}

/// Expressions.
#[derive(Debug)]
pub enum Exp {
    Variable(Variable),
    TypCtor(TypCtor),
    Call(Call),
    DotCall(DotCall),
    Anno(Anno),
    TypeUniv(TypeUniv),
    LocalMatch(LocalMatch),
    LocalComatch(LocalComatch),
    Hole(Hole),
}

// ---------------------------------------------------------------------------
// The model
// ---------------------------------------------------------------------------

/// Model of a [`Label`].
pub struct LabelM {
    pub id: usize,
    pub user_name: Option<Seq<char>>,
}

/// Model of a [`ParamInst`].
pub struct ParamM {
    pub span: Option<Span>,
    pub info: Option<Box<Term>>,
    pub name: Seq<char>,
    pub typ: Option<Box<Term>>,
}

/// Model of a [`Case`].
pub struct CaseM {
    pub span: Option<Span>,
    pub name: Seq<char>,
    pub params: Seq<ParamM>,
    pub body: Option<Box<Term>>,
}

/// Model of a [`Match`].
pub struct MatchM {
    pub span: Option<Span>,
    pub cases: Seq<CaseM>,
    pub omit_absurd: bool,
}

/// Model of a [`Motive`].
pub struct MotiveM {
    pub span: Option<Span>,
    pub param: ParamM,
    pub ret_typ: Box<Term>,
}

/// Model of a [`TypCtor`].
pub struct TypCtorM {
    pub span: Option<Span>,
    pub name: Seq<char>,
    pub args: Seq<Term>,
}

/// Model of an [`Exp`].
pub enum Term {
    Variable { span: Option<Span>, idx: Idx, name: Seq<char>, inferred_type: Option<Box<Term>> },
    TypCtor(TypCtorM),
    Call { span: Option<Span>, name: Seq<char>, args: Seq<Term>, inferred_type: Option<Box<Term>> },
    DotCall {
        span: Option<Span>,
        exp: Box<Term>,
        name: Seq<char>,
        args: Seq<Term>,
        inferred_type: Option<Box<Term>>,
    },
    Anno { span: Option<Span>, exp: Box<Term>, typ: Box<Term>, normalized_type: Option<Box<Term>> },
    TypeUniv { span: Option<Span> },
    LocalMatch {
        span: Option<Span>,
        name: LabelM,
        on_exp: Box<Term>,
        motive: Option<MotiveM>,
        ret_typ: Option<Box<Term>>,
        body: MatchM,
        inferred_type: Option<TypCtorM>,
    },
    LocalComatch {
        span: Option<Span>,
        name: LabelM,
        is_lambda_sugar: bool,
        body: MatchM,
        inferred_type: Option<TypCtorM>,
    },
    Hole { span: Option<Span>, inferred_type: Option<Box<Term>>, inferred_ctx: Option<Seq<Seq<(Seq<char>, Term)>>> },
}

pub open spec fn label_view(l: Label) -> LabelM {
    LabelM {
        id: l.id,
        user_name: match l.user_name {
            Some(n) => Some(n@),
            None => None,
        },
    }
}

pub open spec fn opt_view(o: Option<Box<Exp>>) -> Option<Box<Term>>
    decreases o,
{
    match o {
        Some(e) => Some(Box::new(exp_view(*e))),
        None => None,
    }
}

pub open spec fn args_view(s: Seq<Exp>) -> Seq<Term>
    decreases s,
{
    Seq::new(s.len(), |i: int| if 0 <= i < s.len() { exp_view(s[i]) } else { Term::TypeUniv { span: None } })
}

pub open spec fn param_view(p: ParamInst) -> ParamM
    decreases p,
{
    ParamM { span: p.span, info: opt_view(p.info), name: p.name@, typ: opt_view(p.typ) }
}

pub open spec fn params_view(s: Seq<ParamInst>) -> Seq<ParamM>
    decreases s,
{
    Seq::new(
        s.len(),
        |i: int|
            if 0 <= i < s.len() {
                param_view(s[i])
            } else {
                ParamM { span: None, info: None, name: Seq::empty(), typ: None }
            },
    )
}

pub open spec fn case_view(c: Case) -> CaseM
    decreases c,
{
    CaseM {
        span: c.span,
        name: c.name@,
        params: params_view(c.params.params@),
        body: opt_view(c.body),
    }
}

pub open spec fn cases_view(s: Seq<Case>) -> Seq<CaseM>
    decreases s,
{
    Seq::new(
        s.len(),
        |i: int|
            if 0 <= i < s.len() {
                case_view(s[i])
            } else {
                CaseM { span: None, name: Seq::empty(), params: Seq::empty(), body: None }
            },
    )
}

pub open spec fn match_view(m: Match) -> MatchM
    decreases m,
{
    MatchM { span: m.span, cases: cases_view(m.cases@), omit_absurd: m.omit_absurd }
}

pub open spec fn motive_view(m: Motive) -> MotiveM
    decreases m,
{
    MotiveM { span: m.span, param: param_view(m.param), ret_typ: Box::new(exp_view(*m.ret_typ)) }
}

pub open spec fn opt_motive_view(m: Option<Motive>) -> Option<MotiveM>
    decreases m,
{
    match m {
        Some(mm) => Some(motive_view(mm)),
        None => None,
    }
}

pub open spec fn typ_ctor_view(t: TypCtor) -> TypCtorM
    decreases t,
{
    TypCtorM { span: t.span, name: t.name@, args: args_view(t.args.args@) }
}

pub open spec fn opt_typ_ctor_view(t: Option<TypCtor>) -> Option<TypCtorM>
    decreases t,
{
    match t {
        Some(tt) => Some(typ_ctor_view(tt)),
        None => None,
    }
}

pub open spec fn exp_view(e: Exp) -> Term
    decreases e,
{
    match e {
        Exp::Variable(v) => Term::Variable {
            span: v.span,
            idx: v.idx,
            name: v.name@,
            inferred_type: opt_view(v.inferred_type),
        },
        Exp::TypCtor(t) => Term::TypCtor(typ_ctor_view(t)),
        Exp::Call(c) => Term::Call {
            span: c.span,
            name: c.name@,
            args: args_view(c.args.args@),
            inferred_type: opt_view(c.inferred_type),
        },
        Exp::DotCall(d) => Term::DotCall {
            span: d.span,
            exp: Box::new(exp_view(*d.exp)),
            name: d.name@,
            args: args_view(d.args.args@),
            inferred_type: opt_view(d.inferred_type),
        },
        Exp::Anno(a) => Term::Anno {
            span: a.span,
            exp: Box::new(exp_view(*a.exp)),
            typ: Box::new(exp_view(*a.typ)),
            normalized_type: opt_view(a.normalized_type),
        },
        Exp::TypeUniv(t) => Term::TypeUniv { span: t.span },
        Exp::LocalMatch(m) => Term::LocalMatch {
            span: m.span,
            name: label_view(m.name),
            on_exp: Box::new(exp_view(*m.on_exp)),
            motive: opt_motive_view(m.motive),
            ret_typ: opt_view(m.ret_typ),
            body: match_view(m.body),
            inferred_type: opt_typ_ctor_view(m.inferred_type),
        },
        Exp::LocalComatch(m) => Term::LocalComatch {
            span: m.span,
            name: label_view(m.name),
            is_lambda_sugar: m.is_lambda_sugar,
            body: match_view(m.body),
            inferred_type: opt_typ_ctor_view(m.inferred_type),
        },
        Exp::Hole(h) => Term::Hole {
            span: h.span,
            inferred_type: opt_view(h.inferred_type),
            inferred_ctx: opt_type_ctx_view(h.inferred_ctx),
        },
    }
}

/// The name and the type of each variable of a telescope of a type context.
pub open spec fn typed_vars_view(s: Seq<TypedVar>) -> Seq<(Seq<char>, Term)>
    decreases s,
{
    Seq::new(
        s.len(),
        |j: int| if 0 <= j < s.len() { (s[j].name@, exp_view(s[j].typ)) } else { (Seq::empty(), Term::TypeUniv { span: None }) },
    )
}

/// Model of a type context: the name and the type of each variable,
/// telescope by telescope.
pub open spec fn type_ctx_view(c: TypeCtx) -> Seq<Seq<(Seq<char>, Term)>>
    decreases c,
{
    Seq::new(
        c.bound@.len(),
        |i: int| if 0 <= i < c.bound@.len() { typed_vars_view(c.bound@[i]@) } else { Seq::empty() },
    )
}

pub open spec fn opt_type_ctx_view(o: Option<TypeCtx>) -> Option<Seq<Seq<(Seq<char>, Term)>>>
    decreases o,
{
    match o {
        Some(c) => Some(type_ctx_view(c)),
        None => None,
    }
}

impl View for Exp {
    type V = Term;

    open spec fn view(&self) -> Term {
        exp_view(*self)
    }
}

impl Clone for Exp {
    fn clone(&self) -> (r: Exp)
        ensures
            r@ == self@,
    {
        copy_exp(self)
    }
}

impl View for Args {
    type V = Seq<Term>;

    open spec fn view(&self) -> Seq<Term> {
        args_view(self.args@)
    }
}

impl View for Match {
    type V = MatchM;

    open spec fn view(&self) -> MatchM {
        match_view(*self)
    }
}

impl View for Label {
    type V = LabelM;

    open spec fn view(&self) -> LabelM {
        label_view(*self)
    }
}

impl View for ParamInst {
    type V = ParamM;

    open spec fn view(&self) -> ParamM {
        param_view(*self)
    }
}

impl View for TypCtor {
    type V = TypCtorM;

    open spec fn view(&self) -> TypCtorM {
        typ_ctor_view(*self)
    }
}

// ---------------------------------------------------------------------------
// Deep copies
// ---------------------------------------------------------------------------

/// A copy of an optional string.
pub fn copy_opt_name(o: &Option<Ident>) -> (r: Option<Ident>)
    ensures
        r matches Some(n) ==> o matches Some(m) && n@ == m@,
        r is None <==> o is None,
{
    match o {
        Some(n) => Some(n.clone()),
        None => None,
    }
}

/// A copy of a label.
pub fn copy_label(l: &Label) -> (r: Label)
    ensures
        r@ == l@,
{
    Label { id: l.id, user_name: copy_opt_name(&l.user_name) }
}

/// A deep copy of an optional expression.
pub fn copy_opt(o: &Option<Box<Exp>>) -> (r: Option<Box<Exp>>)
    ensures
        opt_view(r) == opt_view(*o),
    decreases o,
{
    match o {
        Some(e) => Some(Box::new(copy_exp(e))),
        None => None,
    }
}

/// A deep copy of a list of expressions.
#[verifier::loop_isolation(false)]
/// A copy of a telescope of a type context.
fn copy_typed_vars(s: &Vec<TypedVar>) -> (r: Vec<TypedVar>)
    ensures
        r@.len() == s@.len(),
        forall|j: int| 0 <= j < s@.len() ==> (#[trigger] r@[j]).name@ == s@[j].name@ && r@[j].typ@ == s@[j].typ@,
    decreases s,
{
    let mut out: Vec<TypedVar> = Vec::new();
    let mut i: usize = 0;
    while i < s.len()
        invariant
            i <= s@.len(),
            out@.len() == i,
            forall|j: int| 0 <= j < i ==> (#[trigger] out@[j]).name@ == s@[j].name@ && out@[j].typ@ == s@[j].typ@,
        decreases s@.len() - i,
    {
        proof {
            assert(decreases_to!(s@ => s@[i as int]));
        }
        let tv = &s[i];
        let typ = copy_exp(&tv.typ);
        out.push(TypedVar { name: tv.name.clone(), typ });
        i += 1;
    }
    out
}

/// A copy of a type context.
pub fn copy_type_ctx(t: &TypeCtx) -> (r: TypeCtx)
    ensures
        r@ == t@,
    decreases t,
{
    let mut out: Vec<Vec<TypedVar>> = Vec::new();
    let mut i: usize = 0;
    while i < t.bound.len()
        invariant
            i <= t.bound@.len(),
            out@.len() == i,
            forall|j: int| 0 <= j < i ==> (#[trigger] out@[j])@.len() == t.bound@[j]@.len(),
            forall|j: int, k: int|
                0 <= j < i && 0 <= k < t.bound@[j]@.len() ==> (#[trigger] out@[j]@[k]).name@ == t.bound@[j]@[k].name@
                    && out@[j]@[k].typ@ == t.bound@[j]@[k].typ@,
        decreases t.bound@.len() - i,
    {
        proof {
            assert(decreases_to!(t.bound@ => t.bound@[i as int]));
        }
        let c = copy_typed_vars(&t.bound[i]);
        out.push(c);
        i += 1;
    }
    let r = TypeCtx { bound: out };
    assert(r@ =~= t@) by {
        assert forall|j: int| 0 <= j < r@.len() implies r@[j] =~= t@[j] by {
            assert(r@[j].len() == t@[j].len());
        }
    }
    r
}

/// A copy of an optional type context.
pub fn copy_opt_type_ctx(o: &Option<TypeCtx>) -> (r: Option<TypeCtx>)
    ensures
        opt_type_ctx_view(r) == opt_type_ctx_view(*o),
    decreases o,
{
    match o {
        Some(t) => Some(copy_type_ctx(t)),
        None => None,
    }
}

pub fn copy_exps(s: &Vec<Exp>) -> (r: Vec<Exp>)
    ensures
        args_view(r@) == args_view(s@),
    decreases s,
{
    let mut out: Vec<Exp> = Vec::new();
    let mut i: usize = 0;
    while i < s.len()
        invariant
            i <= s@.len(),
            out@.len() == i,
            forall|j: int| 0 <= j < i ==> exp_view(#[trigger] out@[j]) == exp_view(s@[j]),
        decreases s@.len() - i,
    {
        proof {
            assert(decreases_to!(s@ => s@[i as int]));
        }
        let c = copy_exp(&s[i]);
        out.push(c);
        i += 1;
    }
    assert(args_view(out@) =~= args_view(s@));
    out
}

/// A deep copy of an argument list.
pub fn copy_args(a: &Args) -> (r: Args)
    ensures
        r@ == a@,
    decreases a,
{
    Args { args: copy_exps(&a.args) }
}

/// A deep copy of a parameter instantiation.
pub fn copy_param(p: &ParamInst) -> (r: ParamInst)
    ensures
        r@ == p@,
    decreases p,
{
    ParamInst { span: p.span, info: copy_opt(&p.info), name: p.name.clone(), typ: copy_opt(&p.typ) }
}

/// A deep copy of a list of parameter instantiations.
#[verifier::loop_isolation(false)]
pub fn copy_params(s: &Vec<ParamInst>) -> (r: Vec<ParamInst>)
    ensures
        params_view(r@) == params_view(s@),
    decreases s,
{
    let mut out: Vec<ParamInst> = Vec::new();
    let mut i: usize = 0;
    while i < s.len()
        invariant
            i <= s@.len(),
            out@.len() == i,
            forall|j: int| 0 <= j < i ==> param_view(#[trigger] out@[j]) == param_view(s@[j]),
        decreases s@.len() - i,
    {
        proof {
            assert(decreases_to!(s@ => s@[i as int]));
        }
        let c = copy_param(&s[i]);
        out.push(c);
        i += 1;
    }
    assert(params_view(out@) =~= params_view(s@));
    out
}

/// A deep copy of a telescope instantiation.
pub fn copy_telescope_inst(t: &TelescopeInst) -> (r: TelescopeInst)
    ensures
        params_view(r.params@) == params_view(t.params@),
    decreases t,
{
    TelescopeInst { params: copy_params(&t.params) }
}

/// A deep copy of a clause.
pub fn copy_case(c: &Case) -> (r: Case)
    ensures
        case_view(r) == case_view(*c),
    decreases c,
{
    Case {
        span: c.span,
        name: c.name.clone(),
        params: copy_telescope_inst(&c.params),
        body: copy_opt(&c.body),
    }
}

/// A deep copy of a list of clauses.
#[verifier::loop_isolation(false)]
pub fn copy_cases(s: &Vec<Case>) -> (r: Vec<Case>)
    ensures
        cases_view(r@) == cases_view(s@),
    decreases s,
{
    let mut out: Vec<Case> = Vec::new();
    let mut i: usize = 0;
    while i < s.len()
        invariant
            i <= s@.len(),
            out@.len() == i,
            forall|j: int| 0 <= j < i ==> case_view(#[trigger] out@[j]) == case_view(s@[j]),
        decreases s@.len() - i,
    {
        proof {
            assert(decreases_to!(s@ => s@[i as int]));
        }
        let c = copy_case(&s[i]);
        out.push(c);
        i += 1;
    }
    assert(cases_view(out@) =~= cases_view(s@));
    out
}

/// A deep copy of a (co)match body.
pub fn copy_match(m: &Match) -> (r: Match)
    ensures
        r@ == m@,
    decreases m,
{
    Match { span: m.span, cases: copy_cases(&m.cases), omit_absurd: m.omit_absurd }
}

/// A deep copy of a motive.
pub fn copy_motive(m: &Motive) -> (r: Motive)
    ensures
        motive_view(r) == motive_view(*m),
    decreases m,
{
    Motive { span: m.span, param: copy_param(&m.param), ret_typ: Box::new(copy_exp(&m.ret_typ)) }
}

/// A deep copy of an optional motive.
pub fn copy_opt_motive(m: &Option<Motive>) -> (r: Option<Motive>)
    ensures
        opt_motive_view(r) == opt_motive_view(*m),
    decreases m,
{
    match m {
        Some(mm) => Some(copy_motive(mm)),
        None => None,
    }
}

/// A deep copy of a type constructor application.
pub fn copy_typ_ctor(t: &TypCtor) -> (r: TypCtor)
    ensures
        r@ == t@,
    decreases t,
{
    TypCtor { span: t.span, name: t.name.clone(), args: copy_args(&t.args) }
}

/// A deep copy of an optional type constructor application.
pub fn copy_opt_typ_ctor(t: &Option<TypCtor>) -> (r: Option<TypCtor>)
    ensures
        opt_typ_ctor_view(r) == opt_typ_ctor_view(*t),
    decreases t,
{
    match t {
        Some(tt) => Some(copy_typ_ctor(tt)),
        None => None,
    }
}

/// A deep copy of an expression.
pub fn copy_exp(e: &Exp) -> (r: Exp)
    ensures
        r@ == e@,
    decreases e,
{
    match e {
        Exp::Variable(v) => Exp::Variable(
            Variable {
                span: v.span,
                idx: v.idx,
                name: v.name.clone(),
                inferred_type: copy_opt(&v.inferred_type),
            },
        ),
        Exp::TypCtor(t) => Exp::TypCtor(copy_typ_ctor(t)),
        Exp::Call(c) => Exp::Call(
            Call {
                span: c.span,
                name: c.name.clone(),
                args: copy_args(&c.args),
                inferred_type: copy_opt(&c.inferred_type),
            },
        ),
        Exp::DotCall(d) => Exp::DotCall(
            DotCall {
                span: d.span,
                exp: Box::new(copy_exp(&d.exp)),
                name: d.name.clone(),
                args: copy_args(&d.args),
                inferred_type: copy_opt(&d.inferred_type),
            },
        ),
        Exp::Anno(a) => Exp::Anno(
            Anno {
                span: a.span,
                exp: Box::new(copy_exp(&a.exp)),
                typ: Box::new(copy_exp(&a.typ)),
                normalized_type: copy_opt(&a.normalized_type),
            },
        ),
        Exp::TypeUniv(t) => Exp::TypeUniv(TypeUniv { span: t.span }),
        Exp::LocalMatch(m) => Exp::LocalMatch(
            LocalMatch {
                span: m.span,
                name: copy_label(&m.name),
                on_exp: Box::new(copy_exp(&m.on_exp)),
                motive: copy_opt_motive(&m.motive),
                ret_typ: copy_opt(&m.ret_typ),
                body: copy_match(&m.body),
                inferred_type: copy_opt_typ_ctor(&m.inferred_type),
            },
        ),
        Exp::LocalComatch(m) => Exp::LocalComatch(
            LocalComatch {
                span: m.span,
                name: copy_label(&m.name),
                is_lambda_sugar: m.is_lambda_sugar,
                body: copy_match(&m.body),
                inferred_type: copy_opt_typ_ctor(&m.inferred_type),
            },
        ),
        Exp::Hole(h) => Exp::Hole(
            Hole {
                span: h.span,
                inferred_type: copy_opt(&h.inferred_type),
                inferred_ctx: copy_opt_type_ctx(&h.inferred_ctx),
            },
        ),
    }
}

// ---------------------------------------------------------------------------
// Spans and types
// ---------------------------------------------------------------------------

/// The source span of a term.
pub open spec fn term_span(t: Term) -> Option<Span> {
    match t {
        Term::Variable { span, .. } => span,
        Term::TypCtor(tc) => tc.span,
        Term::Call { span, .. } => span,
        Term::DotCall { span, .. } => span,
        Term::Anno { span, .. } => span,
        Term::TypeUniv { span } => span,
        Term::LocalMatch { span, .. } => span,
        Term::LocalComatch { span, .. } => span,
        Term::Hole { span, .. } => span,
    }
}

/// The type of a term, as far as elaboration has recorded it: a type
/// constructor application and the universe have the universe as their type,
/// an annotation has its normalized type, and every other term the type
/// inferred for it.
pub open spec fn term_typ(t: Term) -> Option<Term> {
    match t {
        Term::Variable { inferred_type, .. } => match inferred_type {
            Some(x) => Some(*x),
            None => None,
        },
        Term::TypCtor(_) => Some(Term::TypeUniv { span: None }),
        Term::Call { inferred_type, .. } => match inferred_type {
            Some(x) => Some(*x),
            None => None,
        },
        Term::DotCall { inferred_type, .. } => match inferred_type {
            Some(x) => Some(*x),
            None => None,
        },
        Term::Anno { normalized_type, .. } => match normalized_type {
            Some(x) => Some(*x),
            None => None,
        },
        Term::TypeUniv { .. } => Some(Term::TypeUniv { span: None }),
        Term::LocalMatch { inferred_type, .. } => match inferred_type {
            Some(x) => Some(Term::TypCtor(x)),
            None => None,
        },
        Term::LocalComatch { inferred_type, .. } => match inferred_type {
            Some(x) => Some(Term::TypCtor(x)),
            None => None,
        },
        Term::Hole { inferred_type, .. } => match inferred_type {
            Some(x) => Some(*x),
            None => None,
        },
    }
}

/// A copy of an optional expression, unboxed.
fn copy_opt_unboxed(o: &Option<Box<Exp>>) -> (r: Option<Exp>)
    ensures
        r matches Some(e) ==> opt_view(*o) == Some(Box::new(e@)),
        r is None ==> o is None,
{
    match o {
        Some(e) => Some(copy_exp(e)),
        None => None,
    }
}

impl Exp {
    /// The source span of the expression.
    pub fn span(&self) -> (r: Option<Span>)
        ensures
            r == term_span(self@),
    {
        proof {
            reveal_with_fuel(exp_view, 2);
        }
        match self {
            Exp::Variable(e) => e.span,
            Exp::TypCtor(e) => e.span,
            Exp::Call(e) => e.span,
            Exp::DotCall(e) => e.span,
            Exp::Anno(e) => e.span,
            Exp::TypeUniv(e) => e.span,
            Exp::LocalMatch(e) => e.span,
            Exp::LocalComatch(e) => e.span,
            Exp::Hole(e) => e.span,
        }
    }

    /// The type of the expression, as far as elaboration has recorded it.
    pub fn typ(&self) -> (r: Option<Exp>)
        ensures
            r matches Some(e) ==> term_typ(self@) == Some(e@),
            r is None ==> term_typ(self@) is None,
    {
        proof {
            reveal_with_fuel(exp_view, 2);
        }
        match self {
            Exp::Variable(e) => copy_opt_unboxed(&e.inferred_type),
            Exp::TypCtor(_) => Some(Exp::TypeUniv(TypeUniv { span: None })),
            Exp::Call(e) => copy_opt_unboxed(&e.inferred_type),
            Exp::DotCall(e) => copy_opt_unboxed(&e.inferred_type),
            Exp::Anno(e) => copy_opt_unboxed(&e.normalized_type),
            Exp::TypeUniv(_) => Some(Exp::TypeUniv(TypeUniv { span: None })),
            Exp::LocalMatch(e) => match &e.inferred_type {
                Some(t) => Some(Exp::TypCtor(copy_typ_ctor(t))),
                None => None,
            },
            Exp::LocalComatch(e) => match &e.inferred_type {
                Some(t) => Some(Exp::TypCtor(copy_typ_ctor(t))),
                None => None,
            },
            Exp::Hole(e) => copy_opt_unboxed(&e.inferred_type),
        }
    }
}

} // verus!
