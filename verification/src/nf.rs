//! Normal forms, and their embedding into expressions.

use vstd::prelude::*;
use codespan::Span;
use crate::de_bruijn::Idx;
use crate::shift::{ShiftRange, shift_term, shift_terms, shift_match, shift_ok, terms_shift_ok, match_shift_ok, range_ok, bump};
use crate::equiv::{term_eq, terms_eq, cases_eq, opt_eq};
use crate::exp::{Exp, Term, MatchM, CaseM, Label, TelescopeInst, Args, Match, Case, Variable, TypCtor, Call, DotCall, TypeUniv, LocalMatch, LocalComatch, Hole, TypCtorM, label_view, params_view, opt_view, exp_view, case_view, copy_label, copy_telescope_inst};

verus! {

broadcast use vstd::std_specs::vec::group_vec_axioms, vstd::seq::group_seq_axioms;

/// A term in normal form.
#[derive(Debug)]
pub enum Nf {
    TypCtor { info: Option<Span>, name: String, args: Vec<Nf> },
    Ctor { info: Option<Span>, name: String, args: Vec<Nf> },
    Type { info: Option<Span> },
    Comatch { info: Option<Span>, name: Label, is_lambda_sugar: bool, body: NfMatch },
    Neu { exp: Neu },
}

/// A term whose normalization is blocked on a variable or a hole.
#[derive(Debug)]
pub enum Neu {
    Var { info: Option<Span>, name: String, idx: Idx },
    Dtor { info: Option<Span>, exp: Box<Neu>, name: String, args: Vec<Nf> },
    Match { info: Option<Span>, name: Label, on_exp: Box<Neu>, body: NfMatch },
    Hole { info: Option<Span> },
}

/// The clauses of a (co)match in normal form.
#[derive(Debug)]
pub struct NfMatch {
    pub info: Option<Span>,
    pub cases: Vec<NfCase>,
    pub omit_absurd: bool,
}

/// A clause in normal form; a body of `None` is an absurd clause.
#[derive(Debug)]
pub struct NfCase {
    pub info: Option<Span>,
    pub name: String,
    pub args: TelescopeInst,
    pub body: Option<Box<Nf>>,
}

/// The expression that a normal form denotes.
pub open spec fn nf_term(n: Nf) -> Term
    decreases n,
{
    match n {
        Nf::TypCtor { info, name, args } => Term::TypCtor(TypCtorM { span: info, name: name@, args: nfs_terms(args@) }),
        Nf::Ctor { info, name, args } => Term::Call { span: info, name: name@, args: nfs_terms(args@), inferred_type: None },
        Nf::Type { info } => Term::TypeUniv { span: info },
        Nf::Comatch { info, name, is_lambda_sugar, body } => Term::LocalComatch {
            span: info,
            name: label_view(name),
            is_lambda_sugar,
            body: nf_match(body),
            inferred_type: None,
        },
        Nf::Neu { exp } => neu_term(exp),
    }
}

/// The expression that a neutral term denotes.
pub open spec fn neu_term(n: Neu) -> Term
    decreases n,
{
    match n {
        Neu::Var { info, name, idx } => Term::Variable { span: info, idx, name: name@, inferred_type: None },
        Neu::Dtor { info, exp, name, args } => Term::DotCall {
            span: info,
            exp: Box::new(neu_term(*exp)),
            name: name@,
            args: nfs_terms(args@),
            inferred_type: None,
        },
        Neu::Match { info, name, on_exp, body } => Term::LocalMatch {
            span: info,
            name: label_view(name),
            on_exp: Box::new(neu_term(*on_exp)),
            motive: None,
            ret_typ: None,
            body: nf_match(body),
            inferred_type: None,
        },
        Neu::Hole { info } => Term::Hole { span: info, inferred_type: None, inferred_ctx: None },
    }
}

pub open spec fn nfs_terms(s: Seq<Nf>) -> Seq<Term>
    decreases s,
{
    Seq::new(s.len(), |i: int| if 0 <= i < s.len() { nf_term(s[i]) } else { Term::TypeUniv { span: None } })
}

pub open spec fn nf_case(c: NfCase) -> CaseM
    decreases c,
{
    CaseM {
        span: c.info,
        name: c.name@,
        params: params_view(c.args.params@),
        body: match c.body {
            Some(b) => Some(Box::new(nf_term(*b))),
            None => None,
        },
    }
}

pub open spec fn nf_match(m: NfMatch) -> MatchM
    decreases m,
{
    MatchM {
        span: m.info,
        cases: Seq::new(
            m.cases@.len(),
            |i: int|
                if 0 <= i < m.cases@.len() {
                    nf_case(m.cases@[i])
                } else {
                    CaseM { span: None, name: Seq::empty(), params: Seq::empty(), body: None }
                },
        ),
        omit_absurd: m.omit_absurd,
    }
}

/// Forgetting that a term is in normal form.
pub trait ForgetNF {
    type Target;

    fn forget_nf(&self) -> Self::Target;
}

/// The expressions that a list of normal forms denotes.
#[verifier::loop_isolation(false)]
pub fn forget_nfs(s: &Vec<Nf>) -> (r: Args)
    ensures
        r@ == nfs_terms(s@),
    decreases s,
{
    let mut out: Vec<Exp> = Vec::new();
    let mut i: usize = 0;
    while i < s.len()
        invariant
            i <= s@.len(),
            out@.len() == i,
            forall|j: int| 0 <= j < i ==> exp_view(#[trigger] out@[j]) == nf_term(s@[j]),
        decreases s@.len() - i,
    {
        proof {
            assert(decreases_to!(s@ => s@[i as int]));
        }
        let e = s[i].forget_nf();
        out.push(e);
        i += 1;
    }
    let r = Args { args: out };
    assert(r@ =~= nfs_terms(s@));
    r
}

impl ForgetNF for NfMatch {
    type Target = Match;

    #[verifier::loop_isolation(false)]
    fn forget_nf(&self) -> (r: Match)
        ensures
            r@ == nf_match(*self),
        decreases self,
    {
        let mut out: Vec<Case> = Vec::new();
        let mut i: usize = 0;
        while i < self.cases.len()
            invariant
                i <= self.cases@.len(),
                out@.len() == i,
                forall|j: int| 0 <= j < i ==> #[trigger] case_view(out@[j]) == nf_case(self.cases@[j]),
            decreases self.cases@.len() - i,
        {
            proof {
                assert(decreases_to!(self.cases@ => self.cases@[i as int]));
            }
            let c = &self.cases[i];
            let body = match &c.body {
                Some(b) => Some(Box::new(b.forget_nf())),
                None => None,
            };
            let nc = Case { span: c.info, name: c.name.clone(), params: copy_telescope_inst(&c.args), body };
            assert(case_view(nc) == nf_case(*c));
            out.push(nc);
            i += 1;
        }
        let r = Match { span: self.info, cases: out, omit_absurd: self.omit_absurd };
        assert forall|j: int| 0 <= j < r@.cases.len() implies r@.cases[j] == nf_match(*self).cases[j] by {
            assert(r@.cases[j] == case_view(out@[j]));
        }
        assert(r@.cases =~= nf_match(*self).cases);
        r
    }
}

impl ForgetNF for Neu {
    type Target = Exp;

    fn forget_nf(&self) -> (r: Exp)
        ensures
            r@ == neu_term(*self),
        decreases self,
    {
        let res = match self {
            Neu::Var { info, name, idx } => Exp::Variable(
                Variable { span: *info, idx: *idx, name: name.clone(), inferred_type: None },
            ),
            Neu::Dtor { info, exp, name, args } => Exp::DotCall(
                DotCall {
                    span: *info,
                    exp: Box::new(exp.forget_nf()),
                    name: name.clone(),
                    args: forget_nfs(args),
                    inferred_type: None,
                },
            ),
            Neu::Match { info, name, on_exp, body } => Exp::LocalMatch(
                LocalMatch {
                    span: *info,
                    name: copy_label(name),
                    on_exp: Box::new(on_exp.forget_nf()),
                    motive: None,
                    ret_typ: None,
                    body: body.forget_nf(),
                    inferred_type: None,
                },
            ),
            Neu::Hole { info } => Exp::Hole(Hole { span: *info, inferred_type: None, inferred_ctx: None }),
        };
        proof {
            assert(crate::exp::opt_typ_ctor_view(None) == None::<TypCtorM>);
            assert(opt_view(None) == None::<Box<Term>>);
            assert(crate::exp::opt_motive_view(None) == None::<crate::exp::MotiveM>);
        }
        res
    }
}

impl ForgetNF for Nf {
    type Target = Exp;

    fn forget_nf(&self) -> (r: Exp)
        ensures
            r@ == nf_term(*self),
        decreases self,
    {
        let res = match self {
            Nf::TypCtor { info, name, args } => {
                let t = TypCtor { span: *info, name: name.clone(), args: forget_nfs(args) };
                assert(t@.args == t.args@);
                Exp::TypCtor(t)
            },
            Nf::Ctor { info, name, args } => Exp::Call(
                Call { span: *info, name: name.clone(), args: forget_nfs(args), inferred_type: None },
            ),
            Nf::Type { info } => Exp::TypeUniv(TypeUniv { span: *info }),
            Nf::Comatch { info, name, is_lambda_sugar, body } => Exp::LocalComatch(
                LocalComatch {
                    span: *info,
                    name: copy_label(name),
                    is_lambda_sugar: *is_lambda_sugar,
                    body: body.forget_nf(),
                    inferred_type: None,
                },
            ),
            Nf::Neu { exp } => exp.forget_nf(),
        };
        proof {
            assert(crate::exp::opt_typ_ctor_view(None) == None::<TypCtorM>);
            assert(opt_view(None) == None::<Box<Term>>);
        }
        res
    }
}

// ---------------------------------------------------------------------------
// Equality of normal forms
// ---------------------------------------------------------------------------

/// Element-wise equality of two lists of normal forms.
pub open spec fn nfs_eq(s1: Seq<Nf>, s2: Seq<Nf>) -> bool
    decreases s1,
{
    &&& s1.len() == s2.len()
    &&& forall|i: int| 0 <= i < s1.len() ==> nf_eq(#[trigger] s1[i], s2[i])
}

/// Equality of two optional clause bodies.
pub open spec fn nf_opt_eq(x: Option<Box<Nf>>, y: Option<Box<Nf>>) -> bool
    decreases x,
{
    match (x, y) {
        (Some(x), Some(y)) => nf_eq(*x, *y),
        (None, None) => true,
        _ => false,
    }
}

/// Equality of two clause lists: clause by clause, the names, the number of
/// parameters and the bodies agree.
pub open spec fn nf_match_eq(m1: NfMatch, m2: NfMatch) -> bool
    decreases m1,
{
    &&& m1.omit_absurd == m2.omit_absurd
    &&& m1.cases@.len() == m2.cases@.len()
    &&& forall|i: int|
        0 <= i < m1.cases@.len() ==> {
            &&& m1.cases@[i].name@ == m2.cases@[i].name@
            &&& m1.cases@[i].args.params@.len() == m2.cases@[i].args.params@.len()
            &&& nf_opt_eq(#[trigger] m1.cases@[i].body, m2.cases@[i].body)
        }
}

/// Equality of neutral terms: spans, variable names and hole kinds are ignored,
/// variables are compared by their de Bruijn index, matches by their label id.
pub open spec fn neu_eq(a: Neu, b: Neu) -> bool
    decreases a,
{
    match (a, b) {
        (Neu::Var { idx: i1, .. }, Neu::Var { idx: i2, .. }) => i1 == i2,
        (Neu::Dtor { exp: e1, name: n1, args: a1, .. }, Neu::Dtor { exp: e2, name: n2, args: a2, .. }) => {
            &&& neu_eq(*e1, *e2)
            &&& n1@ == n2@
            &&& nfs_eq(a1@, a2@)
        },
        (
            Neu::Match { name: l1, on_exp: o1, body: b1, .. },
            Neu::Match { name: l2, on_exp: o2, body: b2, .. },
        ) => {
            &&& l1.id == l2.id
            &&& neu_eq(*o1, *o2)
            &&& nf_match_eq(b1, b2)
        },
        (Neu::Hole { .. }, Neu::Hole { .. }) => true,
        _ => false,
    }
}

/// Equality of normal forms, which decides whether two types are convertible.
pub open spec fn nf_eq(a: Nf, b: Nf) -> bool
    decreases a,
{
    match (a, b) {
        (Nf::TypCtor { name: n1, args: a1, .. }, Nf::TypCtor { name: n2, args: a2, .. }) => {
            n1@ == n2@ && nfs_eq(a1@, a2@)
        },
        (Nf::Ctor { name: n1, args: a1, .. }, Nf::Ctor { name: n2, args: a2, .. }) => {
            n1@ == n2@ && nfs_eq(a1@, a2@)
        },
        (Nf::Type { .. }, Nf::Type { .. }) => true,
        (
            Nf::Comatch { name: l1, is_lambda_sugar: s1, body: b1, .. },
            Nf::Comatch { name: l2, is_lambda_sugar: s2, body: b2, .. },
        ) => {
            &&& l1.id == l2.id
            &&& s1 == s2
            &&& nf_match_eq(b1, b2)
        },
        (Nf::Neu { exp: e1 }, Nf::Neu { exp: e2 }) => neu_eq(e1, e2),
        _ => false,
    }
}

proof fn lemma_nfs_eq_refl(s: Seq<Nf>)
    ensures
        nfs_eq(s, s),
    decreases s,
{
    assert forall|i: int| 0 <= i < s.len() implies nf_eq(#[trigger] s[i], s[i]) by {
        lemma_nf_eq_refl(s[i]);
    }
}

proof fn lemma_nf_match_eq_refl(m: NfMatch)
    ensures
        nf_match_eq(m, m),
    decreases m,
{
    assert forall|i: int| 0 <= i < m.cases@.len() implies nf_opt_eq(
        #[trigger] m.cases@[i].body,
        m.cases@[i].body,
    ) by {
        assert(decreases_to!(m => m.cases));
        assert(decreases_to!(m.cases => m.cases@));
        assert(decreases_to!(m.cases@ => m.cases@[i]));
        if let Some(b) = m.cases@[i].body {
            lemma_nf_eq_refl(*b);
        }
    }
}

proof fn lemma_neu_eq_refl(a: Neu)
    ensures
        neu_eq(a, a),
    decreases a,
{
    match a {
        Neu::Dtor { exp, args, .. } => {
            lemma_neu_eq_refl(*exp);
            lemma_nfs_eq_refl(args@);
        },
        Neu::Match { on_exp, body, .. } => {
            lemma_neu_eq_refl(*on_exp);
            lemma_nf_match_eq_refl(body);
        },
        _ => {},
    }
}

/// Every normal form is equal to itself, so every type is convertible with itself.
pub proof fn lemma_nf_eq_refl(a: Nf)
    ensures
        nf_eq(a, a),
    decreases a,
{
    match a {
        Nf::TypCtor { args, .. } => lemma_nfs_eq_refl(args@),
        Nf::Ctor { args, .. } => lemma_nfs_eq_refl(args@),
        Nf::Comatch { body, .. } => lemma_nf_match_eq_refl(body),
        Nf::Neu { exp } => lemma_neu_eq_refl(exp),
        _ => {},
    }
}

/// Whether no hole occurs in the normal form.
pub open spec fn nf_hole_free(n: Nf) -> bool
    decreases n,
{
    match n {
        Nf::TypCtor { args, .. } => forall|i: int| 0 <= i < args@.len() ==> nf_hole_free(#[trigger] args@[i]),
        Nf::Ctor { args, .. } => forall|i: int| 0 <= i < args@.len() ==> nf_hole_free(#[trigger] args@[i]),
        Nf::Type { .. } => true,
        Nf::Comatch { body, .. } => nf_match_hole_free(body),
        Nf::Neu { exp } => neu_hole_free(exp),
    }
}

/// Whether no hole occurs in the neutral term.
pub open spec fn neu_hole_free(n: Neu) -> bool
    decreases n,
{
    match n {
        Neu::Var { .. } => true,
        Neu::Dtor { exp, args, .. } => {
            &&& neu_hole_free(*exp)
            &&& forall|i: int| 0 <= i < args@.len() ==> nf_hole_free(#[trigger] args@[i])
        },
        Neu::Match { on_exp, body, .. } => neu_hole_free(*on_exp) && nf_match_hole_free(body),
        Neu::Hole { .. } => false,
    }
}

/// Whether no hole occurs in a clause body.
pub open spec fn nf_match_hole_free(m: NfMatch) -> bool
    decreases m,
{
    forall|i: int|
        0 <= i < m.cases@.len() ==> match #[trigger] m.cases@[i].body {
            Some(b) => nf_hole_free(*b),
            None => true,
        }
}

/// Two normal forms are equal when the expressions they denote are
/// alpha-equivalent; and the converse holds where no hole occurs (holes are
/// all equal as normal forms, while alpha-equivalence compares their spans).
/// So two type constructors are equal only with the same name and pairwise
/// equal arguments, and likewise constructors, destructor calls, comatches
/// and matches part by part.
pub proof fn lemma_nf_eq_iff_term_eq(a: Nf, b: Nf)
    ensures
        term_eq(nf_term(a), nf_term(b)) ==> nf_eq(a, b),
        nf_hole_free(a) ==> (nf_eq(a, b) <==> term_eq(nf_term(a), nf_term(b))),
    decreases a,
{
    match (a, b) {
        (Nf::TypCtor { args: a1, .. }, Nf::TypCtor { args: a2, .. }) => lemma_nfs_eq_iff_terms_eq(a1@, a2@),
        (Nf::Ctor { args: a1, .. }, Nf::Ctor { args: a2, .. }) => lemma_nfs_eq_iff_terms_eq(a1@, a2@),
        (Nf::Comatch { body: b1, .. }, Nf::Comatch { body: b2, .. }) => lemma_nf_match_eq_iff_cases_eq(b1, b2),
        (Nf::Neu { exp: e1 }, Nf::Neu { exp: e2 }) => lemma_neu_eq_iff_term_eq(e1, e2),
        _ => {},
    }
}

proof fn lemma_neu_eq_iff_term_eq(a: Neu, b: Neu)
    ensures
        term_eq(neu_term(a), neu_term(b)) ==> neu_eq(a, b),
        neu_hole_free(a) ==> (neu_eq(a, b) <==> term_eq(neu_term(a), neu_term(b))),
    decreases a,
{
    match (a, b) {
        (Neu::Dtor { exp: e1, args: a1, .. }, Neu::Dtor { exp: e2, args: a2, .. }) => {
            lemma_neu_eq_iff_term_eq(*e1, *e2);
            lemma_nfs_eq_iff_terms_eq(a1@, a2@);
        },
        (Neu::Match { on_exp: o1, body: b1, .. }, Neu::Match { on_exp: o2, body: b2, .. }) => {
            lemma_neu_eq_iff_term_eq(*o1, *o2);
            lemma_nf_match_eq_iff_cases_eq(b1, b2);
        },
        _ => {},
    }
}

proof fn lemma_nfs_eq_iff_terms_eq(s1: Seq<Nf>, s2: Seq<Nf>)
    ensures
        terms_eq(nfs_terms(s1), nfs_terms(s2)) ==> nfs_eq(s1, s2),
        (forall|i: int| 0 <= i < s1.len() ==> nf_hole_free(#[trigger] s1[i])) ==> (nfs_eq(s1, s2) <==> terms_eq(
            nfs_terms(s1),
            nfs_terms(s2),
        )),
    decreases s1,
{
    assert forall|i: int| 0 <= i < s1.len() && i < s2.len() implies {
        &&& term_eq(nf_term(#[trigger] s1[i]), nf_term(s2[i])) ==> nf_eq(s1[i], s2[i])
        &&& nf_hole_free(s1[i]) ==> (nf_eq(s1[i], s2[i]) <==> term_eq(nf_term(s1[i]), nf_term(s2[i])))
    } by {
        lemma_nf_eq_iff_term_eq(s1[i], s2[i]);
    }
    if terms_eq(nfs_terms(s1), nfs_terms(s2)) {
        assert forall|i: int| 0 <= i < s1.len() implies nf_eq(#[trigger] s1[i], s2[i]) by {
            assert(term_eq(nfs_terms(s1)[i], nfs_terms(s2)[i]));
        }
    }
    if nfs_eq(s1, s2) && (forall|i: int| 0 <= i < s1.len() ==> nf_hole_free(#[trigger] s1[i])) {
        assert forall|i: int| 0 <= i < s1.len() implies term_eq(#[trigger] nfs_terms(s1)[i], nfs_terms(s2)[i]) by {
            assert(nf_eq(s1[i], s2[i]));
        }
    }
}

proof fn lemma_nf_match_eq_iff_cases_eq(m1: NfMatch, m2: NfMatch)
    ensures
        cases_eq(nf_match(m1), nf_match(m2)) ==> nf_match_eq(m1, m2),
        nf_match_hole_free(m1) ==> (nf_match_eq(m1, m2) <==> cases_eq(nf_match(m1), nf_match(m2))),
    decreases m1,
{
    let c1 = nf_match(m1).cases;
    let c2 = nf_match(m2).cases;
    assert forall|i: int| 0 <= i < m1.cases@.len() && i < m2.cases@.len() implies {
        &&& (#[trigger] c1[i]).name == m1.cases@[i].name@
        &&& c2[i].name == m2.cases@[i].name@
        &&& c1[i].params.len() == m1.cases@[i].args.params@.len()
        &&& c2[i].params.len() == m2.cases@[i].args.params@.len()
        &&& opt_eq(c1[i].body, c2[i].body) ==> nf_opt_eq(m1.cases@[i].body, m2.cases@[i].body)
        &&& match m1.cases@[i].body {
            Some(b) => nf_hole_free(*b),
            None => true,
        } ==> (nf_opt_eq(m1.cases@[i].body, m2.cases@[i].body) <==> opt_eq(c1[i].body, c2[i].body))
    } by {
        assert(decreases_to!(m1 => m1.cases));
        assert(decreases_to!(m1.cases => m1.cases@));
        assert(decreases_to!(m1.cases@ => m1.cases@[i]));
        assert(c1[i] == nf_case(m1.cases@[i]));
        assert(c2[i] == nf_case(m2.cases@[i]));
        if let (Some(x), Some(y)) = (m1.cases@[i].body, m2.cases@[i].body) {
            lemma_nf_eq_iff_term_eq(*x, *y);
        }
    }
    if cases_eq(nf_match(m1), nf_match(m2)) {
        assert forall|i: int| 0 <= i < m1.cases@.len() implies {
            &&& m1.cases@[i].name@ == m2.cases@[i].name@
            &&& m1.cases@[i].args.params@.len() == m2.cases@[i].args.params@.len()
            &&& nf_opt_eq(#[trigger] m1.cases@[i].body, m2.cases@[i].body)
        } by {
            assert(opt_eq(c1[i].body, c2[i].body));
        }
    }
    if nf_match_eq(m1, m2) && nf_match_hole_free(m1) {
        assert forall|i: int| 0 <= i < c1.len() implies {
            &&& c1[i].name == c2[i].name
            &&& c1[i].params.len() == c2[i].params.len()
            &&& opt_eq(#[trigger] c1[i].body, c2[i].body)
        } by {
            assert(nf_opt_eq(m1.cases@[i].body, m2.cases@[i].body));
        }
    }
}

/// Element-wise equality of two lists of normal forms.
#[verifier::loop_isolation(false)]
pub fn nfs_alpha_eq(a: &Vec<Nf>, b: &Vec<Nf>) -> (r: bool)
    ensures
        r == nfs_eq(a@, b@),
    decreases a,
{
    if a.len() != b.len() {
        return false;
    }
    let mut i: usize = 0;
    while i < a.len()
        invariant
            i <= a@.len(),
            a@.len() == b@.len(),
            forall|j: int| 0 <= j < i ==> nf_eq(#[trigger] a@[j], b@[j]),
        decreases a@.len() - i,
    {
        proof {
            assert(decreases_to!(a@ => a@[i as int]));
        }
        if !a[i].alpha_eq(&b[i]) {
            return false;
        }
        i += 1;
    }
    true
}

/// Equality of two clause lists in normal form.
#[verifier::loop_isolation(false)]
pub fn nf_match_alpha_eq(a: &NfMatch, b: &NfMatch) -> (r: bool)
    ensures
        r == nf_match_eq(*a, *b),
    decreases a,
{
    if a.omit_absurd != b.omit_absurd || a.cases.len() != b.cases.len() {
        return false;
    }
    let mut i: usize = 0;
    while i < a.cases.len()
        invariant
            i <= a.cases@.len(),
            a.cases@.len() == b.cases@.len(),
            a.omit_absurd == b.omit_absurd,
            forall|j: int|
                0 <= j < i ==> {
                    &&& a.cases@[j].name@ == b.cases@[j].name@
                    &&& a.cases@[j].args.params@.len() == b.cases@[j].args.params@.len()
                    &&& nf_opt_eq(#[trigger] a.cases@[j].body, b.cases@[j].body)
                },
        decreases a.cases@.len() - i,
    {
        proof {
            assert(decreases_to!(a.cases@ => a.cases@[i as int]));
        }
        let c1: &NfCase = &a.cases[i];
        let c2: &NfCase = &b.cases[i];
        if c1.name != c2.name || c1.args.params.len() != c2.args.params.len() {
            return false;
        }
        let same = match (&c1.body, &c2.body) {
            (Some(x), Some(y)) => x.alpha_eq(y),
            (None, None) => true,
            _ => false,
        };
        if !same {
            return false;
        }
        i += 1;
    }
    true
}

impl Neu {
    /// Equality of neutral terms.
    pub fn alpha_eq(&self, other: &Neu) -> (r: bool)
        ensures
            r == neu_eq(*self, *other),
        decreases self,
    {
        match (self, other) {
            (Neu::Var { idx: i1, .. }, Neu::Var { idx: i2, .. }) => i1.fst == i2.fst && i1.snd == i2.snd,
            (Neu::Dtor { exp: e1, name: n1, args: a1, .. }, Neu::Dtor { exp: e2, name: n2, args: a2, .. }) => {
                e1.alpha_eq(e2) && *n1 == *n2 && nfs_alpha_eq(a1, a2)
            },
            (
                Neu::Match { name: l1, on_exp: o1, body: b1, .. },
                Neu::Match { name: l2, on_exp: o2, body: b2, .. },
            ) => l1.id == l2.id && o1.alpha_eq(o2) && nf_match_alpha_eq(b1, b2),
            (Neu::Hole { .. }, Neu::Hole { .. }) => true,
            _ => false,
        }
    }
}

impl Nf {
    /// Equality of normal forms.
    pub fn alpha_eq(&self, other: &Nf) -> (r: bool)
        ensures
            r == nf_eq(*self, *other),
        decreases self,
    {
        match (self, other) {
            (Nf::TypCtor { name: n1, args: a1, .. }, Nf::TypCtor { name: n2, args: a2, .. }) => {
                *n1 == *n2 && nfs_alpha_eq(a1, a2)
            },
            (Nf::Ctor { name: n1, args: a1, .. }, Nf::Ctor { name: n2, args: a2, .. }) => {
                *n1 == *n2 && nfs_alpha_eq(a1, a2)
            },
            (Nf::Type { .. }, Nf::Type { .. }) => true,
            (
                Nf::Comatch { name: l1, is_lambda_sugar: s1, body: b1, .. },
                Nf::Comatch { name: l2, is_lambda_sugar: s2, body: b2, .. },
            ) => l1.id == l2.id && *s1 == *s2 && nf_match_alpha_eq(b1, b2),
            (Nf::Neu { exp: e1 }, Nf::Neu { exp: e2 }) => e1.alpha_eq(e2),
            _ => false,
        }
    }
}

// ---------------------------------------------------------------------------
// Shifting normal forms
// ---------------------------------------------------------------------------

/// Shift every normal form of a list.
#[verifier::loop_isolation(false)]
pub fn shift_nfs(s: &Vec<Nf>, range: &ShiftRange, by: (isize, isize)) -> (r: Vec<Nf>)
    requires
        range_ok(range@),
        terms_shift_ok(nfs_terms(s@), range@, by),
    ensures
        nfs_terms(r@) == shift_terms(nfs_terms(s@), range@, by),
    decreases s,
{
    let mut out: Vec<Nf> = Vec::new();
    let mut i: usize = 0;
    while i < s.len()
        invariant
            i <= s@.len(),
            out@.len() == i,
            forall|j: int| 0 <= j < i ==> nf_term(#[trigger] out@[j]) == shift_term(nf_term(s@[j]), range@, by),
        decreases s@.len() - i,
    {
        proof {
            assert(decreases_to!(s@ => s@[i as int]));
            assert(nfs_terms(s@)[i as int] == nf_term(s@[i as int]));
        }
        let n = s[i].shift_in_range(range, by);
        out.push(n);
        i += 1;
    }
    assert(nfs_terms(out@) =~= shift_terms(nfs_terms(s@), range@, by));
    out
}

impl NfMatch {
    /// Shift every clause body; each body lies under the telescope of its clause.
    #[verifier::loop_isolation(false)]
    pub fn shift_in_range(&self, range: &ShiftRange, by: (isize, isize)) -> (r: NfMatch)
        requires
            range_ok(range@),
            match_shift_ok(nf_match(*self), range@, by),
        ensures
            nf_match(r) == shift_match(nf_match(*self), range@, by),
        decreases self,
    {
        let inner = range.shift(1);
        let mut out: Vec<NfCase> = Vec::new();
        let mut i: usize = 0;
        while i < self.cases.len()
            invariant
                i <= self.cases@.len(),
                out@.len() == i,
                inner@ == bump(range@),
                forall|j: int|
                    0 <= j < i ==> #[trigger] nf_case(out@[j]) == shift_match(nf_match(*self), range@, by).cases[j],
            decreases self.cases@.len() - i,
        {
            proof {
                assert(decreases_to!(self.cases@ => self.cases@[i as int]));
                assert(nf_match(*self).cases[i as int] == nf_case(self.cases@[i as int]));
            }
            let c = &self.cases[i];
            let body = match &c.body {
                Some(b) => {
                    assert(shift_ok(nf_term(**b), bump(range@), by));
                    Some(Box::new(b.shift_in_range(&inner, by)))
                },
                None => None,
            };
            let nc = NfCase { info: c.info, name: c.name.clone(), args: copy_telescope_inst(&c.args), body };
            assert(nf_case(nc) == shift_match(nf_match(*self), range@, by).cases[i as int]);
            out.push(nc);
            i += 1;
        }
        let r = NfMatch { info: self.info, cases: out, omit_absurd: self.omit_absurd };
        assert forall|j: int| 0 <= j < nf_match(r).cases.len() implies nf_match(r).cases[j] == shift_match(
            nf_match(*self),
            range@,
            by,
        ).cases[j] by {
            assert(nf_match(r).cases[j] == nf_case(out@[j]));
        }
        assert(nf_match(r).cases =~= shift_match(nf_match(*self), range@, by).cases);
        r
    }
}

impl Neu {
    /// The neutral term with its variable indices shifted by `by` in `range`.
    pub fn shift_in_range(&self, range: &ShiftRange, by: (isize, isize)) -> (r: Neu)
        requires
            range_ok(range@),
            shift_ok(neu_term(*self), range@, by),
        ensures
            neu_term(r) == shift_term(neu_term(*self), range@, by),
        decreases self,
    {
        match self {
            Neu::Var { info, name, idx } => Neu::Var { info: *info, name: name.clone(), idx: idx.shift_in_range(range, by) },
            Neu::Dtor { info, exp, name, args } => Neu::Dtor {
                info: *info,
                exp: Box::new(exp.shift_in_range(range, by)),
                name: name.clone(),
                args: shift_nfs(args, range, by),
            },
            Neu::Match { info, name, on_exp, body } => Neu::Match {
                info: *info,
                name: copy_label(name),
                on_exp: Box::new(on_exp.shift_in_range(range, by)),
                body: body.shift_in_range(range, by),
            },
            Neu::Hole { info } => Neu::Hole { info: *info },
        }
    }
}

impl Nf {
    /// The normal form with its variable indices shifted by `by` in `range`:
    /// it denotes the shifted expression.
    pub fn shift_in_range(&self, range: &ShiftRange, by: (isize, isize)) -> (r: Nf)
        requires
            range_ok(range@),
            shift_ok(nf_term(*self), range@, by),
        ensures
            nf_term(r) == shift_term(nf_term(*self), range@, by),
        decreases self,
    {
        match self {
            Nf::TypCtor { info, name, args } => Nf::TypCtor { info: *info, name: name.clone(), args: shift_nfs(args, range, by) },
            Nf::Ctor { info, name, args } => Nf::Ctor { info: *info, name: name.clone(), args: shift_nfs(args, range, by) },
            Nf::Type { info } => Nf::Type { info: *info },
            Nf::Comatch { info, name, is_lambda_sugar, body } => Nf::Comatch {
                info: *info,
                name: copy_label(name),
                is_lambda_sugar: *is_lambda_sugar,
                body: body.shift_in_range(range, by),
            },
            Nf::Neu { exp } => Nf::Neu { exp: exp.shift_in_range(range, by) },
        }
    }
}

} // verus!
