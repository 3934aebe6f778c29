//! Alpha-equivalence of expressions.
//!
//! Two expressions are alpha-equivalent when they have the same binding
//! structure: variables are compared by their de Bruijn index only, and source
//! spans, variable names, parameter names and elaboration annotations are
//! ignored. (Co)matches are compared by their label ids, so that two matches
//! written in different places of the source are never equal. Holes are
//! compared by their source span.

use vstd::prelude::*;
use crate::exp::{Exp, Term, MatchM, CaseM, MotiveM, TypCtorM, LabelM, ParamM, Args, Match, Case, Motive, opt_view, case_view};
use crate::span::span_eq;

verus! {

broadcast use vstd::std_specs::vec::group_vec_axioms, vstd::seq::group_seq_axioms;

/// Alpha-equivalence of optional terms.
pub open spec fn opt_eq(x: Option<Box<Term>>, y: Option<Box<Term>>) -> bool
    decreases x,
{
    match (x, y) {
        (Some(x), Some(y)) => term_eq(*x, *y),
        (None, None) => true,
        _ => false,
    }
}

/// Alpha-equivalence of two sequences of terms, element by element.
pub open spec fn terms_eq(s1: Seq<Term>, s2: Seq<Term>) -> bool
    decreases s1,
{
    &&& s1.len() == s2.len()
    &&& forall|i: int| 0 <= i < s1.len() ==> term_eq(#[trigger] s1[i], s2[i])
}

/// Whether two clause lists agree clause by clause, as alpha-equivalence compares them.
pub open spec fn cases_eq(m1: MatchM, m2: MatchM) -> bool
    decreases m1,
{
    &&& m1.omit_absurd == m2.omit_absurd
    &&& m1.cases.len() == m2.cases.len()
    &&& forall|i: int|
        0 <= i < m1.cases.len() ==> {
            &&& m1.cases[i].name == m2.cases[i].name
            &&& m1.cases[i].params.len() == m2.cases[i].params.len()
            &&& opt_eq(#[trigger] m1.cases[i].body, m2.cases[i].body)
        }
}

/// Alpha-equivalence of terms.
pub open spec fn term_eq(a: Term, b: Term) -> bool
    decreases a,
{
    match (a, b) {
        (Term::Variable { idx: i1, .. }, Term::Variable { idx: i2, .. }) => i1 == i2,
        (Term::TypCtor(t1), Term::TypCtor(t2)) => {
            &&& t1.name == t2.name
            &&& terms_eq(t1.args, t2.args)
        },
        (Term::Call { name: n1, args: a1, .. }, Term::Call { name: n2, args: a2, .. }) => {
            &&& n1 == n2
            &&& terms_eq(a1, a2)
        },
        (
            Term::DotCall { exp: e1, name: n1, args: a1, .. },
            Term::DotCall { exp: e2, name: n2, args: a2, .. },
        ) => {
            &&& term_eq(*e1, *e2)
            &&& n1 == n2
            &&& terms_eq(a1, a2)
        },
        (Term::Anno { exp: e1, typ: t1, .. }, Term::Anno { exp: e2, typ: t2, .. }) => {
            term_eq(*e1, *e2) && term_eq(*t1, *t2)
        },
        (Term::TypeUniv { .. }, Term::TypeUniv { .. }) => true,
        (
            Term::LocalMatch { name: l1, on_exp: o1, motive: m1, body: b1, .. },
            Term::LocalMatch { name: l2, on_exp: o2, motive: m2, body: b2, .. },
        ) => {
            &&& l1.id == l2.id
            &&& term_eq(*o1, *o2)
            &&& match (m1, m2) {
                (Some(m1), Some(m2)) => term_eq(*m1.ret_typ, *m2.ret_typ),
                (None, None) => true,
                _ => false,
            }
            &&& cases_eq(b1, b2)
        },
        (
            Term::LocalComatch { name: l1, is_lambda_sugar: s1, body: b1, .. },
            Term::LocalComatch { name: l2, is_lambda_sugar: s2, body: b2, .. },
        ) => {
            &&& l1.id == l2.id
            &&& s1 == s2
            &&& cases_eq(b1, b2)
        },
        (Term::Hole { span: s1, .. }, Term::Hole { span: s2, .. }) => s1 == s2,
        _ => false,
    }
}

// ---------------------------------------------------------------------------
// Laws
// ---------------------------------------------------------------------------

proof fn lemma_opt_eq_refl(a: Option<Box<Term>>)
    ensures
        opt_eq(a, a),
    decreases a,
{
    if let Some(x) = a {
        lemma_term_eq_refl(*x);
    }
}

proof fn lemma_terms_eq_refl(s: Seq<Term>)
    ensures
        terms_eq(s, s),
    decreases s,
{
    assert forall|i: int| 0 <= i < s.len() implies term_eq(#[trigger] s[i], s[i]) by {
        lemma_term_eq_refl(s[i]);
    }
}

proof fn lemma_cases_eq_refl(m: MatchM)
    ensures
        cases_eq(m, m),
    decreases m,
{
    assert forall|i: int| 0 <= i < m.cases.len() implies opt_eq(
        #[trigger] m.cases[i].body,
        m.cases[i].body,
    ) by {
        lemma_opt_eq_refl(m.cases[i].body);
    }
}

/// Alpha-equivalence is reflexive.
pub proof fn lemma_term_eq_refl(a: Term)
    ensures
        term_eq(a, a),
    decreases a,
{
    match a {
        Term::TypCtor(t) => lemma_terms_eq_refl(t.args),
        Term::Call { args, .. } => lemma_terms_eq_refl(args),
        Term::DotCall { exp, args, .. } => {
            lemma_term_eq_refl(*exp);
            lemma_terms_eq_refl(args);
        },
        Term::Anno { exp, typ, .. } => {
            lemma_term_eq_refl(*exp);
            lemma_term_eq_refl(*typ);
        },
        Term::LocalMatch { on_exp, motive, body, .. } => {
            lemma_term_eq_refl(*on_exp);
            if let Some(m) = motive {
                lemma_term_eq_refl(*m.ret_typ);
            }
            lemma_cases_eq_refl(body);
        },
        Term::LocalComatch { body, .. } => lemma_cases_eq_refl(body),
        _ => {},
    }
}

proof fn lemma_opt_eq_symm(a: Option<Box<Term>>, b: Option<Box<Term>>)
    requires
        opt_eq(a, b),
    ensures
        opt_eq(b, a),
    decreases a,
{
    if let (Some(x), Some(y)) = (a, b) {
        lemma_term_eq_symm(*x, *y);
    }
}

proof fn lemma_terms_eq_symm(s1: Seq<Term>, s2: Seq<Term>)
    requires
        terms_eq(s1, s2),
    ensures
        terms_eq(s2, s1),
    decreases s1,
{
    assert forall|i: int| 0 <= i < s2.len() implies term_eq(#[trigger] s2[i], s1[i]) by {
        lemma_term_eq_symm(s1[i], s2[i]);
    }
}

proof fn lemma_cases_eq_symm(m1: MatchM, m2: MatchM)
    requires
        cases_eq(m1, m2),
    ensures
        cases_eq(m2, m1),
    decreases m1,
{
    assert forall|i: int| 0 <= i < m2.cases.len() implies opt_eq(
        #[trigger] m2.cases[i].body,
        m1.cases[i].body,
    ) by {
        assert(opt_eq(m1.cases[i].body, m2.cases[i].body));
        lemma_opt_eq_symm(m1.cases[i].body, m2.cases[i].body);
    }
}

/// Alpha-equivalence is symmetric.
pub proof fn lemma_term_eq_symm(a: Term, b: Term)
    requires
        term_eq(a, b),
    ensures
        term_eq(b, a),
    decreases a,
{
    match (a, b) {
        (Term::TypCtor(t1), Term::TypCtor(t2)) => lemma_terms_eq_symm(t1.args, t2.args),
        (Term::Call { args: a1, .. }, Term::Call { args: a2, .. }) => lemma_terms_eq_symm(a1, a2),
        (Term::DotCall { exp: e1, args: a1, .. }, Term::DotCall { exp: e2, args: a2, .. }) => {
            lemma_term_eq_symm(*e1, *e2);
            lemma_terms_eq_symm(a1, a2);
        },
        (Term::Anno { exp: e1, typ: t1, .. }, Term::Anno { exp: e2, typ: t2, .. }) => {
            lemma_term_eq_symm(*e1, *e2);
            lemma_term_eq_symm(*t1, *t2);
        },
        (
            Term::LocalMatch { on_exp: o1, motive: m1, body: b1, .. },
            Term::LocalMatch { on_exp: o2, motive: m2, body: b2, .. },
        ) => {
            lemma_term_eq_symm(*o1, *o2);
            if let (Some(x), Some(y)) = (m1, m2) {
                lemma_term_eq_symm(*x.ret_typ, *y.ret_typ);
            }
            lemma_cases_eq_symm(b1, b2);
        },
        (Term::LocalComatch { body: b1, .. }, Term::LocalComatch { body: b2, .. }) => {
            lemma_cases_eq_symm(b1, b2);
        },
        _ => {},
    }
}

proof fn lemma_opt_eq_trans(a: Option<Box<Term>>, b: Option<Box<Term>>, c: Option<Box<Term>>)
    requires
        opt_eq(a, b),
        opt_eq(b, c),
    ensures
        opt_eq(a, c),
    decreases a,
{
    if let (Some(x), Some(y), Some(z)) = (a, b, c) {
        lemma_term_eq_trans(*x, *y, *z);
    }
}

proof fn lemma_terms_eq_trans(s1: Seq<Term>, s2: Seq<Term>, s3: Seq<Term>)
    requires
        terms_eq(s1, s2),
        terms_eq(s2, s3),
    ensures
        terms_eq(s1, s3),
    decreases s1,
{
    assert forall|i: int| 0 <= i < s1.len() implies term_eq(#[trigger] s1[i], s3[i]) by {
        assert(term_eq(s2[i], s3[i]));
        lemma_term_eq_trans(s1[i], s2[i], s3[i]);
    }
}

proof fn lemma_cases_eq_trans(m1: MatchM, m2: MatchM, m3: MatchM)
    requires
        cases_eq(m1, m2),
        cases_eq(m2, m3),
    ensures
        cases_eq(m1, m3),
    decreases m1,
{
    assert forall|i: int| 0 <= i < m1.cases.len() implies opt_eq(
        #[trigger] m1.cases[i].body,
        m3.cases[i].body,
    ) by {
        assert(opt_eq(m2.cases[i].body, m3.cases[i].body));
        lemma_opt_eq_trans(m1.cases[i].body, m2.cases[i].body, m3.cases[i].body);
    }
}

/// Alpha-equivalence is transitive.
pub proof fn lemma_term_eq_trans(a: Term, b: Term, c: Term)
    requires
        term_eq(a, b),
        term_eq(b, c),
    ensures
        term_eq(a, c),
    decreases a,
{
    match (a, b, c) {
        (Term::TypCtor(t1), Term::TypCtor(t2), Term::TypCtor(t3)) => {
            lemma_terms_eq_trans(t1.args, t2.args, t3.args);
        },
        (Term::Call { args: a1, .. }, Term::Call { args: a2, .. }, Term::Call { args: a3, .. }) => {
            lemma_terms_eq_trans(a1, a2, a3);
        },
        (
            Term::DotCall { exp: e1, args: a1, .. },
            Term::DotCall { exp: e2, args: a2, .. },
            Term::DotCall { exp: e3, args: a3, .. },
        ) => {
            lemma_term_eq_trans(*e1, *e2, *e3);
            lemma_terms_eq_trans(a1, a2, a3);
        },
        (
            Term::Anno { exp: e1, typ: t1, .. },
            Term::Anno { exp: e2, typ: t2, .. },
            Term::Anno { exp: e3, typ: t3, .. },
        ) => {
            lemma_term_eq_trans(*e1, *e2, *e3);
            lemma_term_eq_trans(*t1, *t2, *t3);
        },
        (
            Term::LocalMatch { on_exp: o1, motive: m1, body: b1, .. },
            Term::LocalMatch { on_exp: o2, motive: m2, body: b2, .. },
            Term::LocalMatch { on_exp: o3, motive: m3, body: b3, .. },
        ) => {
            lemma_term_eq_trans(*o1, *o2, *o3);
            if let (Some(x), Some(y), Some(z)) = (m1, m2, m3) {
                lemma_term_eq_trans(*x.ret_typ, *y.ret_typ, *z.ret_typ);
            }
            lemma_cases_eq_trans(b1, b2, b3);
        },
        (
            Term::LocalComatch { body: b1, .. },
            Term::LocalComatch { body: b2, .. },
            Term::LocalComatch { body: b3, .. },
        ) => {
            lemma_cases_eq_trans(b1, b2, b3);
        },
        _ => {},
    }
}

// ---------------------------------------------------------------------------
// What alpha-equivalence compares
// ---------------------------------------------------------------------------

/// A parameter with nothing but its place.
pub open spec fn blank_param() -> ParamM {
    ParamM { span: None, info: None, name: Seq::empty(), typ: None }
}

/// The term with everything erased that is not part of its binding
/// structure: source spans (but those of holes), variable, parameter and
/// label names, elaboration annotations (inferred and normalized types, the
/// annotated return type of a match) and the parameters of motives and
/// clauses, of which only the number is kept.
pub open spec fn skeleton(t: Term) -> Term
    decreases t,
{
    match t {
        Term::Variable { idx, .. } => Term::Variable { span: None, idx, name: Seq::empty(), inferred_type: None },
        Term::TypCtor(tc) => Term::TypCtor(TypCtorM { span: None, name: tc.name, args: skeletons(tc.args) }),
        Term::Call { name, args, .. } => Term::Call { span: None, name, args: skeletons(args), inferred_type: None },
        Term::DotCall { exp, name, args, .. } => Term::DotCall {
            span: None,
            exp: Box::new(skeleton(*exp)),
            name,
            args: skeletons(args),
            inferred_type: None,
        },
        Term::Anno { exp, typ, .. } => Term::Anno {
            span: None,
            exp: Box::new(skeleton(*exp)),
            typ: Box::new(skeleton(*typ)),
            normalized_type: None,
        },
        Term::TypeUniv { .. } => Term::TypeUniv { span: None },
        Term::LocalMatch { name, on_exp, motive, body, .. } => Term::LocalMatch {
            span: None,
            name: LabelM { id: name.id, user_name: None },
            on_exp: Box::new(skeleton(*on_exp)),
            motive: match motive {
                Some(m) => Some(MotiveM { span: None, param: blank_param(), ret_typ: Box::new(skeleton(*m.ret_typ)) }),
                None => None,
            },
            ret_typ: None,
            body: skeleton_match(body),
            inferred_type: None,
        },
        Term::LocalComatch { name, is_lambda_sugar, body, .. } => Term::LocalComatch {
            span: None,
            name: LabelM { id: name.id, user_name: None },
            is_lambda_sugar,
            body: skeleton_match(body),
            inferred_type: None,
        },
        Term::Hole { span, .. } => Term::Hole { span, inferred_type: None, inferred_ctx: None },
    }
}

/// The skeletons of a sequence of terms.
pub open spec fn skeletons(s: Seq<Term>) -> Seq<Term>
    decreases s,
{
    Seq::new(s.len(), |i: int| if 0 <= i < s.len() { skeleton(s[i]) } else { Term::TypeUniv { span: None } })
}

/// The skeleton of an optional term.
pub open spec fn skeleton_opt(o: Option<Box<Term>>) -> Option<Box<Term>>
    decreases o,
{
    match o {
        Some(t) => Some(Box::new(skeleton(*t))),
        None => None,
    }
}

/// The skeleton of a clause: its name, the number of its parameters and the
/// skeleton of its body.
pub open spec fn skeleton_case(c: CaseM) -> CaseM
    decreases c,
{
    CaseM { span: None, name: c.name, params: Seq::new(c.params.len(), |_j: int| blank_param()), body: skeleton_opt(c.body) }
}

/// The skeleton of a clause list.
pub open spec fn skeleton_match(m: MatchM) -> MatchM
    decreases m,
{
    MatchM {
        span: None,
        cases: Seq::new(
            m.cases.len(),
            |i: int|
                if 0 <= i < m.cases.len() {
                    skeleton_case(m.cases[i])
                } else {
                    CaseM { span: None, name: Seq::empty(), params: Seq::empty(), body: None }
                },
        ),
        omit_absurd: m.omit_absurd,
    }
}

/// Two expressions are alpha-equivalent exactly when their skeletons are
/// equal: they have the same shape, the same names of type constructors,
/// calls and clauses, the same indices, label ids and hole spans, and every
/// pair of corresponding parts (the destructee and each argument of a
/// destructor call, each argument of a call or a type constructor, both sides
/// of an annotation, the scrutinee, the motive's return type and each clause
/// body of a match) is alpha-equivalent in turn.
pub proof fn lemma_term_eq_iff_skeleton(a: Term, b: Term)
    ensures
        term_eq(a, b) <==> skeleton(a) == skeleton(b),
    decreases a,
{
    match (a, b) {
        (Term::TypCtor(t1), Term::TypCtor(t2)) => lemma_terms_eq_iff_skeletons(t1.args, t2.args),
        (Term::Call { args: a1, .. }, Term::Call { args: a2, .. }) => lemma_terms_eq_iff_skeletons(a1, a2),
        (Term::DotCall { exp: e1, args: a1, .. }, Term::DotCall { exp: e2, args: a2, .. }) => {
            lemma_term_eq_iff_skeleton(*e1, *e2);
            lemma_terms_eq_iff_skeletons(a1, a2);
        },
        (Term::Anno { exp: e1, typ: t1, .. }, Term::Anno { exp: e2, typ: t2, .. }) => {
            lemma_term_eq_iff_skeleton(*e1, *e2);
            lemma_term_eq_iff_skeleton(*t1, *t2);
        },
        (
            Term::LocalMatch { on_exp: o1, motive: m1, body: b1, .. },
            Term::LocalMatch { on_exp: o2, motive: m2, body: b2, .. },
        ) => {
            lemma_term_eq_iff_skeleton(*o1, *o2);
            if let (Some(x), Some(y)) = (m1, m2) {
                lemma_term_eq_iff_skeleton(*x.ret_typ, *y.ret_typ);
            }
            lemma_cases_eq_iff_skeleton(b1, b2);
        },
        (Term::LocalComatch { body: b1, .. }, Term::LocalComatch { body: b2, .. }) => {
            lemma_cases_eq_iff_skeleton(b1, b2);
        },
        _ => {},
    }
}

proof fn lemma_terms_eq_iff_skeletons(s1: Seq<Term>, s2: Seq<Term>)
    ensures
        terms_eq(s1, s2) <==> skeletons(s1) == skeletons(s2),
    decreases s1,
{
    assert forall|i: int| 0 <= i < s1.len() && i < s2.len() implies (term_eq(#[trigger] s1[i], s2[i]) <==> skeleton(
        s1[i],
    ) == skeleton(s2[i])) by {
        lemma_term_eq_iff_skeleton(s1[i], s2[i]);
    }
    if terms_eq(s1, s2) {
        assert(skeletons(s1) =~= skeletons(s2));
    }
    if skeletons(s1) == skeletons(s2) {
        assert(s1.len() == skeletons(s1).len());
        assert forall|i: int| 0 <= i < s1.len() implies term_eq(#[trigger] s1[i], s2[i]) by {
            assert(skeletons(s1)[i] == skeletons(s2)[i]);
        }
    }
}

proof fn lemma_opt_eq_iff_skeleton(x: Option<Box<Term>>, y: Option<Box<Term>>)
    ensures
        opt_eq(x, y) <==> skeleton_opt(x) == skeleton_opt(y),
    decreases x,
{
    if let (Some(p), Some(q)) = (x, y) {
        lemma_term_eq_iff_skeleton(*p, *q);
    }
}

proof fn lemma_cases_eq_iff_skeleton(m1: MatchM, m2: MatchM)
    ensures
        cases_eq(m1, m2) <==> skeleton_match(m1) == skeleton_match(m2),
    decreases m1,
{
    let c1 = skeleton_match(m1).cases;
    let c2 = skeleton_match(m2).cases;
    assert forall|i: int| 0 <= i < m1.cases.len() && i < m2.cases.len() implies {
        &&& #[trigger] c1[i] == skeleton_case(m1.cases[i])
        &&& c2[i] == skeleton_case(m2.cases[i])
        &&& (opt_eq(m1.cases[i].body, m2.cases[i].body) <==> skeleton_opt(m1.cases[i].body) == skeleton_opt(
            m2.cases[i].body,
        ))
    } by {
        lemma_opt_eq_iff_skeleton(m1.cases[i].body, m2.cases[i].body);
    }
    if cases_eq(m1, m2) {
        assert forall|i: int| 0 <= i < c1.len() implies #[trigger] c1[i] == c2[i] by {
            assert(opt_eq(m1.cases[i].body, m2.cases[i].body));
            assert(skeleton_case(m1.cases[i]).params =~= skeleton_case(m2.cases[i]).params);
        }
        assert(c1 =~= c2);
    }
    if skeleton_match(m1) == skeleton_match(m2) {
        assert(c1.len() == m1.cases.len());
        assert forall|i: int| 0 <= i < m1.cases.len() implies {
            &&& m1.cases[i].name == m2.cases[i].name
            &&& m1.cases[i].params.len() == m2.cases[i].params.len()
            &&& opt_eq(#[trigger] m1.cases[i].body, m2.cases[i].body)
        } by {
            assert(c1[i] == c2[i]);
            assert(skeleton_case(m1.cases[i]).params.len() == m1.cases[i].params.len());
            assert(skeleton_case(m2.cases[i]).params.len() == m2.cases[i].params.len());
        }
    }
}

// ---------------------------------------------------------------------------
// Executable comparison
// ---------------------------------------------------------------------------

/// Alpha-equivalence of two argument lists.
#[verifier::loop_isolation(false)]
pub fn args_alpha_eq(a: &Args, b: &Args) -> (r: bool)
    ensures
        r == terms_eq(a@, b@),
    decreases a,
{
    if a.args.len() != b.args.len() {
        return false;
    }
    let mut i: usize = 0;
    while i < a.args.len()
        invariant
            i <= a@.len(),
            a.args@.len() == b.args@.len(),
            forall|j: int| 0 <= j < i ==> term_eq(#[trigger] a@[j], b@[j]),
        decreases a@.len() - i,
    {
        proof {
            assert(decreases_to!(a.args@ => a.args@[i as int]));
        }
        if !alpha_eq(&a.args[i], &b.args[i]) {
            assert(!term_eq(a@[i as int], b@[i as int]));
            return false;
        }
        i += 1;
    }
    true
}

/// Alpha-equivalence of two optional expressions.
pub fn opt_alpha_eq(a: &Option<Box<Exp>>, b: &Option<Box<Exp>>) -> (r: bool)
    ensures
        r == opt_eq(opt_view(*a), opt_view(*b)),
    decreases a,
{
    match (a, b) {
        (Some(x), Some(y)) => alpha_eq(x, y),
        (None, None) => true,
        _ => false,
    }
}

/// Alpha-equivalence of two (co)match bodies.
#[verifier::loop_isolation(false)]
pub fn match_alpha_eq(a: &Match, b: &Match) -> (r: bool)
    ensures
        r == cases_eq(a@, b@),
    decreases a,
{
    if a.omit_absurd != b.omit_absurd || a.cases.len() != b.cases.len() {
        return false;
    }
    let mut i: usize = 0;
    while i < a.cases.len()
        invariant
            i <= a.cases@.len(),
            a.cases@.len() == b.cases@.len(),
            a.omit_absurd == b.omit_absurd,
            forall|j: int|
                0 <= j < i ==> {
                    &&& a@.cases[j].name == b@.cases[j].name
                    &&& a@.cases[j].params.len() == b@.cases[j].params.len()
                    &&& opt_eq(#[trigger] a@.cases[j].body, b@.cases[j].body)
                },
        decreases a.cases@.len() - i,
    {
        proof {
            assert(decreases_to!(a.cases@ => a.cases@[i as int]));
        }
        let c1: &Case = &a.cases[i];
        let c2: &Case = &b.cases[i];
        assert(a@.cases[i as int] == case_view(*c1));
        assert(b@.cases[i as int] == case_view(*c2));
        if c1.name != c2.name || c1.params.params.len() != c2.params.params.len() {
            return false;
        }
        if !opt_alpha_eq(&c1.body, &c2.body) {
            assert(!opt_eq(a@.cases[i as int].body, b@.cases[i as int].body));
            return false;
        }
        i += 1;
    }
    true
}

/// Alpha-equivalence of two optional motives.
fn motive_alpha_eq(a: &Option<Motive>, b: &Option<Motive>) -> (r: bool)
    ensures
        r == match (crate::exp::opt_motive_view(*a), crate::exp::opt_motive_view(*b)) {
            (Some(m1), Some(m2)) => term_eq(*m1.ret_typ, *m2.ret_typ),
            (None, None) => true,
            _ => false,
        },
    decreases a,
{
    match (a, b) {
        (Some(x), Some(y)) => alpha_eq(&x.ret_typ, &y.ret_typ),
        (None, None) => true,
        _ => false,
    }
}

/// Alpha-equivalence of two expressions: the equality of the language.
pub fn alpha_eq(a: &Exp, b: &Exp) -> (r: bool)
    ensures
        r == term_eq(a@, b@),
    decreases a,
{
    match (a, b) {
        (Exp::Variable(x), Exp::Variable(y)) => {
            let r = x.idx.fst == y.idx.fst && x.idx.snd == y.idx.snd;
            assert(r == term_eq(a@, b@));
            r
        },
        (Exp::TypCtor(x), Exp::TypCtor(y)) => {
            let r = x.name == y.name && args_alpha_eq(&x.args, &y.args);
            assert(x@.args == x.args@ && y@.args == y.args@);
            assert(r == term_eq(a@, b@));
            r
        },
        (Exp::Call(x), Exp::Call(y)) => {
            let r = x.name == y.name && args_alpha_eq(&x.args, &y.args);
            assert(r == term_eq(a@, b@));
            r
        },
        (Exp::DotCall(x), Exp::DotCall(y)) => {
            let r = alpha_eq(&x.exp, &y.exp) && x.name == y.name && args_alpha_eq(&x.args, &y.args);
            assert(r == term_eq(a@, b@));
            r
        },
        (Exp::Anno(x), Exp::Anno(y)) => {
            let r = alpha_eq(&x.exp, &y.exp) && alpha_eq(&x.typ, &y.typ);
            assert(r == term_eq(a@, b@));
            r
        },
        (Exp::TypeUniv(_), Exp::TypeUniv(_)) => true,
        (Exp::LocalMatch(x), Exp::LocalMatch(y)) => {
            let r = x.name.id == y.name.id && alpha_eq(&x.on_exp, &y.on_exp) && motive_alpha_eq(
                &x.motive,
                &y.motive,
            ) && match_alpha_eq(&x.body, &y.body);
            assert(r == term_eq(a@, b@));
            r
        },
        (Exp::LocalComatch(x), Exp::LocalComatch(y)) => {
            let r = x.name.id == y.name.id && x.is_lambda_sugar == y.is_lambda_sugar && match_alpha_eq(
                &x.body,
                &y.body,
            );
            assert(r == term_eq(a@, b@));
            r
        },
        (Exp::Hole(x), Exp::Hole(y)) => {
            let r = span_eq(&x.span, &y.span);
            assert(r == term_eq(a@, b@));
            r
        },
        _ => {
            assert(!term_eq(a@, b@));
            false
        },
    }
}

} // verus!
