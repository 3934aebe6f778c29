//! Forgetting elaboration annotations.
//!
//! Type checking annotates an expression with inferred types; forgetting
//! removes them again and keeps everything the programmer wrote.

use vstd::prelude::*;
use crate::exp::{Exp, Term, TypCtorM, MotiveM, MatchM, CaseM, ParamM, Args, Match, Case, ParamInst, TelescopeInst, Variable, TypCtor, Call, DotCall, Anno, TypeUniv, LocalMatch, LocalComatch, Hole, Motive, opt_view, exp_view, case_view, param_view, params_view, copy_label};
use crate::equiv::{term_eq, terms_eq, cases_eq, opt_eq};

verus! {

broadcast use vstd::std_specs::vec::group_vec_axioms, vstd::seq::group_seq_axioms;

/// Removing elaboration annotations.
pub trait ForgetTST: Sized {
    fn forget_tst(&self) -> Self;
}

pub open spec fn forget_opt(o: Option<Box<Term>>) -> Option<Box<Term>>
    decreases o,
{
    match o {
        Some(t) => Some(Box::new(forget_term(*t))),
        None => None,
    }
}

pub open spec fn forget_param(p: ParamM) -> ParamM
    decreases p,
{
    ParamM { span: p.span, info: None, name: p.name, typ: forget_opt(p.typ) }
}

pub open spec fn forget_terms(s: Seq<Term>) -> Seq<Term>
    decreases s,
{
    Seq::new(s.len(), |i: int| if 0 <= i < s.len() { forget_term(s[i]) } else { Term::TypeUniv { span: None } })
}

pub open spec fn forget_typ_ctor(t: TypCtorM) -> TypCtorM
    decreases t,
{
    TypCtorM { span: t.span, name: t.name, args: forget_terms(t.args) }
}

pub open spec fn forget_params(s: Seq<ParamM>) -> Seq<ParamM>
    decreases s,
{
    Seq::new(
        s.len(),
        |j: int|
            if 0 <= j < s.len() {
                forget_param(s[j])
            } else {
                ParamM { span: None, info: None, name: Seq::empty(), typ: None }
            },
    )
}

pub open spec fn forget_case(c: CaseM) -> CaseM
    decreases c,
{
    CaseM { span: c.span, name: c.name, params: forget_params(c.params), body: forget_opt(c.body) }
}

pub open spec fn forget_match(m: MatchM) -> MatchM
    decreases m,
{
    MatchM {
        span: m.span,
        cases: Seq::new(
            m.cases.len(),
            |i: int|
                if 0 <= i < m.cases.len() {
                    forget_case(m.cases[i])
                } else {
                    CaseM { span: None, name: Seq::empty(), params: Seq::empty(), body: None }
                },
        ),
        omit_absurd: m.omit_absurd,
    }
}

/// The term without elaboration annotations.
pub open spec fn forget_term(t: Term) -> Term
    decreases t,
{
    match t {
        Term::Variable { span, idx, name, .. } => Term::Variable { span, idx, name, inferred_type: None },
        Term::TypCtor(tc) => Term::TypCtor(forget_typ_ctor(tc)),
        Term::Call { span, name, args, .. } => Term::Call {
            span,
            name,
            args: forget_terms(args),
            inferred_type: None,
        },
        Term::DotCall { span, exp, name, args, .. } => Term::DotCall {
            span,
            exp: Box::new(forget_term(*exp)),
            name,
            args: forget_terms(args),
            inferred_type: None,
        },
        Term::Anno { span, exp, typ, .. } => Term::Anno {
            span,
            exp: Box::new(forget_term(*exp)),
            typ: Box::new(forget_term(*typ)),
            normalized_type: None,
        },
        Term::TypeUniv { span } => Term::TypeUniv { span },
        Term::LocalMatch { span, name, on_exp, motive, ret_typ, body, .. } => Term::LocalMatch {
            span,
            name,
            on_exp: Box::new(forget_term(*on_exp)),
            motive: match motive {
                Some(m) => Some(
                    MotiveM { span: m.span, param: forget_param(m.param), ret_typ: Box::new(forget_term(*m.ret_typ)) },
                ),
                None => None,
            },
            ret_typ: forget_opt(ret_typ),
            body: forget_match(body),
            inferred_type: None,
        },
        Term::LocalComatch { span, name, is_lambda_sugar, body, .. } => Term::LocalComatch {
            span,
            name,
            is_lambda_sugar,
            body: forget_match(body),
            inferred_type: None,
        },
        Term::Hole { span, .. } => Term::Hole { span, inferred_type: None, inferred_ctx: None },
    }
}

// ---------------------------------------------------------------------------
// Implementation
// ---------------------------------------------------------------------------

/// Forget the annotations of an optional expression.
pub fn forget_opt_exp(o: &Option<Box<Exp>>) -> (r: Option<Box<Exp>>)
    ensures
        opt_view(r) == forget_opt(opt_view(*o)),
    decreases o,
{
    match o {
        Some(e) => Some(Box::new(e.forget_tst())),
        None => None,
    }
}

impl ForgetTST for ParamInst {
    fn forget_tst(&self) -> (r: ParamInst)
        ensures
            r@ == forget_param(self@),
        decreases self,
    {
        let r = ParamInst { span: self.span, info: None, name: self.name.clone(), typ: forget_opt_exp(&self.typ) };
        assert(opt_view(None) == None::<Box<Term>>);
        r
    }
}

/// Forget the annotations of a parameter.
pub fn forget_param_inst(p: &ParamInst) -> (r: ParamInst)
    ensures
        param_view(r) == forget_param(param_view(*p)),
    decreases p,
{
    let r = ParamInst { span: p.span, info: None, name: p.name.clone(), typ: forget_opt_exp(&p.typ) };
    assert(opt_view(None) == None::<Box<Term>>);
    r
}

/// Forget the annotations of each parameter.
#[verifier::loop_isolation(false)]
#[verifier::spinoff_prover]
#[verifier::rlimit(100)]
pub fn forget_params_exec(s: &Vec<ParamInst>) -> (r: Vec<ParamInst>)
    ensures
        params_view(r@) == forget_params(params_view(s@)),
    decreases s,
{
    let mut out: Vec<ParamInst> = Vec::new();
    let mut i: usize = 0;
    while i < s.len()
        invariant
            i <= s@.len(),
            out@.len() == i,
            forall|j: int| 0 <= j < i ==> #[trigger] param_view(out@[j]) == forget_param(param_view(s@[j])),
        decreases s@.len() - i,
    {
        proof {
            assert(decreases_to!(s@ => s@[i as int]));
        }
        let np = forget_param_inst(&s[i]);
        out.push(np);
        i += 1;
    }
    assert forall|j: int| 0 <= j < s@.len() implies params_view(out@)[j] == forget_params(params_view(s@))[j] by {
        assert(params_view(s@)[j] == param_view(s@[j]));
        assert(params_view(out@)[j] == param_view(out@[j]));
    }
    assert(params_view(out@) =~= forget_params(params_view(s@)));
    out
}

impl ForgetTST for TelescopeInst {
    fn forget_tst(&self) -> (r: TelescopeInst)
        ensures
            params_view(r.params@) == forget_params(params_view(self.params@)),
        decreases self,
    {
        TelescopeInst { params: forget_params_exec(&self.params) }
    }
}

impl ForgetTST for Args {
    #[verifier::loop_isolation(false)]
    fn forget_tst(&self) -> (r: Args)
        ensures
            r@ == forget_terms(self@),
        decreases self,
    {
        let mut out: Vec<Exp> = Vec::new();
        let mut i: usize = 0;
        while i < self.args.len()
            invariant
                i <= self.args@.len(),
                out@.len() == i,
                forall|j: int| 0 <= j < i ==> exp_view(#[trigger] out@[j]) == forget_term(exp_view(self.args@[j])),
            decreases self.args@.len() - i,
        {
            proof {
                assert(decreases_to!(self.args@ => self.args@[i as int]));
            }
            let e = self.args[i].forget_tst();
            out.push(e);
            i += 1;
        }
        let r = Args { args: out };
        assert(r@ =~= forget_terms(self@));
        r
    }
}

impl ForgetTST for TypCtor {
    fn forget_tst(&self) -> (r: TypCtor)
        ensures
            r@ == forget_typ_ctor(self@),
        decreases self,
    {
        let r = TypCtor { span: self.span, name: self.name.clone(), args: self.args.forget_tst() };
        assert(r@.args == r.args@ && self@.args == self.args@);
        r
    }
}

impl ForgetTST for Match {
    #[verifier::loop_isolation(false)]
    fn forget_tst(&self) -> (r: Match)
        ensures
            r@ == forget_match(self@),
        decreases self,
    {
        let mut out: Vec<Case> = Vec::new();
        let mut i: usize = 0;
        while i < self.cases.len()
            invariant
                i <= self.cases@.len(),
                out@.len() == i,
                forall|j: int| 0 <= j < i ==> #[trigger] case_view(out@[j]) == forget_match(self@).cases[j],
            decreases self.cases@.len() - i,
        {
            proof {
                assert(decreases_to!(self.cases@ => self.cases@[i as int]));
            }
            let c = &self.cases[i];
            assert(self@.cases[i as int] == case_view(*c));
            let params = c.params.forget_tst();
            let body = forget_opt_exp(&c.body);
            let nc = Case { span: c.span, name: c.name.clone(), params, body };
            assert(case_view(nc) == forget_case(case_view(*c)));
            out.push(nc);
            i += 1;
        }
        let r = Match { span: self.span, cases: out, omit_absurd: self.omit_absurd };
        assert forall|j: int| 0 <= j < r@.cases.len() implies r@.cases[j] == forget_match(self@).cases[j] by {
            assert(r@.cases[j] == case_view(out@[j]));
        }
        assert(r@.cases =~= forget_match(self@).cases);
        r
    }
}

impl ForgetTST for Exp {
    fn forget_tst(&self) -> (r: Exp)
        ensures
            r@ == forget_term(self@),
        decreases self,
    {
        let res = match self {
            Exp::Variable(v) => Exp::Variable(
                Variable { span: v.span, idx: v.idx, name: v.name.clone(), inferred_type: None },
            ),
            Exp::TypCtor(t) => Exp::TypCtor(t.forget_tst()),
            Exp::Call(c) => Exp::Call(
                Call { span: c.span, name: c.name.clone(), args: c.args.forget_tst(), inferred_type: None },
            ),
            Exp::DotCall(d) => Exp::DotCall(
                DotCall {
                    span: d.span,
                    exp: Box::new(d.exp.forget_tst()),
                    name: d.name.clone(),
                    args: d.args.forget_tst(),
                    inferred_type: None,
                },
            ),
            Exp::Anno(a) => Exp::Anno(
                Anno {
                    span: a.span,
                    exp: Box::new(a.exp.forget_tst()),
                    typ: Box::new(a.typ.forget_tst()),
                    normalized_type: None,
                },
            ),
            Exp::TypeUniv(t) => Exp::TypeUniv(TypeUniv { span: t.span }),
            Exp::LocalMatch(m) => {
                let motive = match &m.motive {
                    Some(mo) => Some(
                        Motive { span: mo.span, param: mo.param.forget_tst(), ret_typ: Box::new(mo.ret_typ.forget_tst()) },
                    ),
                    None => None,
                };
                Exp::LocalMatch(
                    LocalMatch {
                        span: m.span,
                        name: copy_label(&m.name),
                        on_exp: Box::new(m.on_exp.forget_tst()),
                        motive,
                        ret_typ: forget_opt_exp(&m.ret_typ),
                        body: m.body.forget_tst(),
                        inferred_type: None,
                    },
                )
            },
            Exp::LocalComatch(m) => Exp::LocalComatch(
                LocalComatch {
                    span: m.span,
                    name: copy_label(&m.name),
                    is_lambda_sugar: m.is_lambda_sugar,
                    body: m.body.forget_tst(),
                    inferred_type: None,
                },
            ),
            Exp::Hole(h) => {
                assert(crate::exp::opt_type_ctx_view(None) == None::<Seq<Seq<(Seq<char>, Term)>>>);
                assert(crate::exp::opt_view(None) == None::<Box<Term>>);
                Exp::Hole(Hole { span: h.span, inferred_type: None, inferred_ctx: None })
            },
        };
        proof {
            assert(crate::exp::opt_typ_ctor_view(None) == None::<TypCtorM>);
            assert(opt_view(None) == None::<Box<Term>>);
            if let Exp::LocalMatch(m) = self {
                if let Exp::LocalMatch(n) = &res {
                    assert(crate::exp::label_view(n.name) == crate::exp::label_view(m.name));
                    assert(crate::exp::opt_motive_view(n.motive) == match crate::exp::opt_motive_view(m.motive) {
                        Some(mo) => Some(MotiveM { span: mo.span, param: forget_param(mo.param), ret_typ: Box::new(forget_term(*mo.ret_typ)) }),
                        None => None,
                    });
                }
            }
            if let Exp::LocalComatch(m) = self {
                if let Exp::LocalComatch(n) = &res {
                    assert(crate::exp::label_view(n.name) == crate::exp::label_view(m.name));
                }
            }
        }
        res
    }
}

// ---------------------------------------------------------------------------
// Laws
// ---------------------------------------------------------------------------

proof fn lemma_forget_terms(s: Seq<Term>)
    ensures
        terms_eq(forget_terms(s), s),
        forget_terms(forget_terms(s)) == forget_terms(s),
    decreases s,
{
    assert forall|i: int| 0 <= i < s.len() implies term_eq(#[trigger] forget_terms(s)[i], s[i]) by {
        lemma_forget(s[i]);
    }
    assert forall|i: int| 0 <= i < s.len() implies forget_terms(forget_terms(s))[i] == forget_terms(s)[i] by {
        lemma_forget(s[i]);
    }
    assert(forget_terms(forget_terms(s)) =~= forget_terms(s));
}

proof fn lemma_forget_opt(o: Option<Box<Term>>)
    ensures
        opt_eq(forget_opt(o), o),
        forget_opt(forget_opt(o)) == forget_opt(o),
    decreases o,
{
    if let Some(t) = o {
        lemma_forget(*t);
    }
}

proof fn lemma_forget_param(p: ParamM)
    ensures
        forget_param(forget_param(p)) == forget_param(p),
    decreases p,
{
    lemma_forget_opt(p.typ);
}

proof fn lemma_forget_case(c: CaseM)
    ensures
        opt_eq(forget_case(c).body, c.body),
        forget_case(forget_case(c)) == forget_case(c),
    decreases c,
{
    lemma_forget_opt(c.body);
    let f = forget_params(c.params);
    assert forall|j: int| 0 <= j < c.params.len() implies forget_params(f)[j] == f[j] by {
        lemma_forget_param(c.params[j]);
    }
    assert(forget_params(f) =~= f);
}

proof fn lemma_forget_match(m: MatchM)
    ensures
        cases_eq(forget_match(m), m),
        forget_match(forget_match(m)) == forget_match(m),
    decreases m,
{
    let f = forget_match(m);
    let ff = forget_match(f);
    assert forall|i: int| 0 <= i < f.cases.len() implies opt_eq(#[trigger] f.cases[i].body, m.cases[i].body) by {
        lemma_forget_case(m.cases[i]);
    }
    assert forall|i: int| 0 <= i < f.cases.len() implies ff.cases[i] == f.cases[i] by {
        lemma_forget_case(m.cases[i]);
    }
    assert(ff.cases =~= f.cases);
}

/// Forgetting annotations gives an alpha-equivalent term, and forgetting
/// twice is the same as forgetting once.
pub proof fn lemma_forget(t: Term)
    ensures
        term_eq(forget_term(t), t),
        forget_term(forget_term(t)) == forget_term(t),
    decreases t,
{
    match t {
        Term::TypCtor(tc) => {
            lemma_forget_terms(tc.args);
            assert(forget_typ_ctor(tc).args == forget_terms(tc.args));
            assert(forget_typ_ctor(forget_typ_ctor(tc)).args == forget_terms(forget_terms(tc.args)));
        },
        Term::Call { args, .. } => lemma_forget_terms(args),
        Term::DotCall { exp, args, .. } => {
            lemma_forget(*exp);
            lemma_forget_terms(args);
        },
        Term::Anno { exp, typ, .. } => {
            lemma_forget(*exp);
            lemma_forget(*typ);
        },
        Term::LocalMatch { on_exp, motive, ret_typ, body, .. } => {
            lemma_forget(*on_exp);
            if let Some(mo) = motive {
                lemma_forget(*mo.ret_typ);
                lemma_forget_param(mo.param);
            }
            lemma_forget_opt(ret_typ);
            lemma_forget_match(body);
        },
        Term::LocalComatch { body, .. } => lemma_forget_match(body),
        _ => {},
    }
}

/// The arguments forgotten one by one, in the same order.
pub open spec fn forgot_each(a: Seq<Term>, b: Seq<Term>) -> bool {
    &&& b.len() == a.len()
    &&& forall|i: int| 0 <= i < a.len() ==> #[trigger] b[i] == forget_term(a[i])
}

/// The clauses forgotten one by one: same names and parameter counts, each
/// body forgotten.
pub open spec fn forgot_cases(a: MatchM, b: MatchM) -> bool {
    &&& b.omit_absurd == a.omit_absurd
    &&& b.cases.len() == a.cases.len()
    &&& forall|i: int|
        0 <= i < a.cases.len() ==> {
            &&& (#[trigger] b.cases[i]).name == a.cases[i].name
            &&& b.cases[i].params.len() == a.cases[i].params.len()
            &&& b.cases[i].body == forget_opt(a.cases[i].body)
        }
}

/// Forgetting the annotations of an expression gives the same variant: its
/// names, labels, indices and the lambda flag are kept, its annotations are
/// dropped, and every sub-expression, argument list, motive, return type and
/// clause body is forgotten part by part, in the same order.
pub proof fn lemma_forget_parts(t: Term)
    ensures
        match (t, forget_term(t)) {
            (Term::Variable { span, idx, name, .. }, Term::Variable { span: s2, idx: i2, name: n2, inferred_type }) => s2
                == span && i2 == idx && n2 == name && inferred_type is None,
            (Term::TypCtor(a), Term::TypCtor(b)) => b.span == a.span && b.name == a.name && forgot_each(a.args, b.args),
            (Term::Call { span, name, args, .. }, Term::Call { span: s2, name: n2, args: a2, inferred_type }) => s2 == span
                && n2 == name && forgot_each(args, a2) && inferred_type is None,
            (
                Term::DotCall { span, exp, name, args, .. },
                Term::DotCall { span: s2, exp: e2, name: n2, args: a2, inferred_type },
            ) => s2 == span && *e2 == forget_term(*exp) && n2 == name && forgot_each(args, a2) && inferred_type is None,
            (Term::Anno { span, exp, typ, .. }, Term::Anno { span: s2, exp: e2, typ: t2, normalized_type }) => s2 == span
                && *e2 == forget_term(*exp) && *t2 == forget_term(*typ) && normalized_type is None,
            (Term::TypeUniv { span }, Term::TypeUniv { span: s2 }) => s2 == span,
            (
                Term::LocalMatch { span, name, on_exp, motive, ret_typ, body, .. },
                Term::LocalMatch { span: s2, name: n2, on_exp: o2, motive: m2, ret_typ: r2, body: b2, inferred_type },
            ) => {
                &&& s2 == span && n2 == name && *o2 == forget_term(*on_exp)
                &&& (motive is Some) == (m2 is Some)
                &&& motive matches Some(m) ==> m2->0.ret_typ == Box::new(forget_term(*m.ret_typ))
                &&& r2 == forget_opt(ret_typ)
                &&& forgot_cases(body, b2)
                &&& inferred_type is None
            },
            (
                Term::LocalComatch { span, name, is_lambda_sugar, body, .. },
                Term::LocalComatch { span: s2, name: n2, is_lambda_sugar: l2, body: b2, inferred_type },
            ) => s2 == span && n2 == name && l2 == is_lambda_sugar && forgot_cases(body, b2) && inferred_type is None,
            (Term::Hole { span, .. }, Term::Hole { span: s2, inferred_type, inferred_ctx }) => s2 == span && inferred_type is None
                && inferred_ctx is None,
            _ => false,
        },
{
    match t {
        Term::TypCtor(tc) => {
            assert(forget_typ_ctor(tc).args == forget_terms(tc.args));
            lemma_forgot_each(tc.args);
        },
        Term::Call { args, .. } => lemma_forgot_each(args),
        Term::DotCall { args, .. } => lemma_forgot_each(args),
        Term::LocalMatch { body, .. } => lemma_forgot_cases(body),
        Term::LocalComatch { body, .. } => lemma_forgot_cases(body),
        _ => {},
    }
}

proof fn lemma_forgot_each(s: Seq<Term>)
    ensures
        forgot_each(s, forget_terms(s)),
{
    let b = forget_terms(s);
    assert forall|i: int| 0 <= i < s.len() implies #[trigger] b[i] == forget_term(s[i]) by {}
}

proof fn lemma_forgot_cases(m: MatchM)
    ensures
        forgot_cases(m, forget_match(m)),
{
    let b = forget_match(m);
    assert forall|i: int| 0 <= i < m.cases.len() implies {
        &&& (#[trigger] b.cases[i]).name == m.cases[i].name
        &&& b.cases[i].params.len() == m.cases[i].params.len()
        &&& b.cases[i].body == forget_opt(m.cases[i].body)
    } by {
        assert(b.cases[i] == forget_case(m.cases[i]));
        assert(forget_params(m.cases[i].params).len() == m.cases[i].params.len());
    }
}

} // verus!
