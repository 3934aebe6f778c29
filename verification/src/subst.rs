//! Substitution of expressions for variables.
//!
//! A substitution maps de Bruijn levels to expressions. Applying it to an
//! expression replaces every variable whose level is mapped. Under a binder
//! the context grows by one telescope and the substituted expressions are
//! shifted by one telescope, so that they keep denoting the same variables.
//! Like shifting, substitution drops elaboration annotations.

use vstd::prelude::*;
use crate::de_bruijn::{Lvl, LevelCtx, idx_in_ctx, lvl_in_ctx, idx_to_lvl_spec, lvl_to_idx_spec, swap_spec};
use crate::exp::{Exp, Term, TypCtorM, MotiveM, MatchM, CaseM, Args, Match, Case, Variable, TypCtor, Call, DotCall, Anno, TypeUniv, LocalMatch, LocalComatch, Hole, Motive, args_view, opt_view, exp_view, case_view, copy_telescope_inst, copy_param, copy_label, copy_exp};
use crate::shift::{RangeM, shift_ok, shift_term};
use crate::equiv::{term_eq, terms_eq, cases_eq, opt_eq};
use crate::de_bruijn::lemma_lvl_idx_roundtrip;

verus! {

broadcast use vstd::std_specs::vec::group_vec_axioms, vstd::seq::group_seq_axioms;

/// The range of all telescopes.
pub open spec fn full_range() -> RangeM {
    RangeM { lo: 0, hi: None }
}

/// A substitution.
#[derive(Debug)]
pub enum Substitution {
    /// Replace the variable at each level of the list by the expression paired with it;
    /// when a level occurs several times, its first entry counts.
    Entries(Vec<(Lvl, Exp)>),
    /// Exchange the variables of the telescopes at levels `fst1` and `fst2`.
    Swap { fst1: usize, fst2: usize },
}

/// Model of a [`Substitution`].
pub enum SubstM {
    Entries(Seq<(Lvl, Term)>),
    Swap(usize, usize),
}

pub open spec fn entries_view(s: Seq<(Lvl, Exp)>) -> Seq<(Lvl, Term)> {
    Seq::new(s.len(), |i: int| (s[i].0, exp_view(s[i].1)))
}

impl View for Substitution {
    type V = SubstM;

    open spec fn view(&self) -> SubstM {
        match self {
            Substitution::Entries(m) => SubstM::Entries(entries_view(m@)),
            Substitution::Swap { fst1, fst2 } => SubstM::Swap(*fst1, *fst2),
        }
    }
}

/// The expression that the first entry for `lvl` holds, if any.
pub open spec fn map_lookup(m: Seq<(Lvl, Term)>, lvl: Lvl) -> Option<Term>
    decreases m.len(),
{
    if m.len() == 0 {
        None
    } else if m[0].0 == lvl {
        Some(m[0].1)
    } else {
        map_lookup(m.drop_first(), lvl)
    }
}

/// The variable that denotes `lvl` in the context `bound`, as the swap substitution builds it.
pub open spec fn fresh_var(bound: Seq<usize>, lvl: Lvl) -> Term {
    Term::Variable { span: None, idx: lvl_to_idx_spec(bound, lvl), name: Seq::empty(), inferred_type: None }
}

/// What the substitution replaces the variable at `lvl` by, in the context `bound`.
pub open spec fn lookup(s: SubstM, bound: Seq<usize>, lvl: Lvl) -> Option<Term> {
    match s {
        SubstM::Entries(m) => map_lookup(m, lvl),
        SubstM::Swap(f1, f2) => {
            let nb = swap_spec(bound, f1 as int, f2 as int);
            if lvl.fst == f1 {
                Some(fresh_var(nb, Lvl { fst: f2, snd: lvl.snd }))
            } else if lvl.fst == f2 {
                Some(fresh_var(nb, Lvl { fst: f1, snd: lvl.snd }))
            } else {
                None
            }
        },
    }
}

/// Whether looking up `lvl` is defined.
pub open spec fn lookup_ok(s: SubstM, bound: Seq<usize>, lvl: Lvl) -> bool {
    match s {
        SubstM::Entries(_) => true,
        SubstM::Swap(f1, f2) => f1 < bound.len() && f2 < bound.len() && lvl_in_ctx(bound, lvl),
    }
}

/// The substitution as seen under one more binder.
pub open spec fn shift_subst(s: SubstM) -> SubstM {
    match s {
        SubstM::Entries(m) => SubstM::Entries(
            Seq::new(m.len(), |i: int| (m[i].0, shift_term(m[i].1, full_range(), (1, 0)))),
        ),
        SubstM::Swap(f1, f2) => SubstM::Swap(f1, f2),
    }
}

/// Whether the substitution can be moved under one more binder.
pub open spec fn shift_subst_ok(s: SubstM) -> bool {
    match s {
        SubstM::Entries(m) => forall|i: int| 0 <= i < m.len() ==> shift_ok(#[trigger] m[i].1, full_range(), (1, 0)),
        SubstM::Swap(_, _) => true,
    }
}

/// Whether entering a binder of `n` variables is possible.
pub open spec fn bind_ok(bound: Seq<usize>, s: SubstM) -> bool {
    bound.len() < usize::MAX && shift_subst_ok(s)
}

/// Whether substituting in `t` under `bound` is defined.
pub open spec fn subst_ok(t: Term, bound: Seq<usize>, s: SubstM) -> bool
    decreases t,
{
    match t {
        Term::Variable { idx, .. } => idx_in_ctx(bound, idx) && lookup_ok(s, bound, idx_to_lvl_spec(bound, idx)),
        Term::TypCtor(tc) => forall|i: int| 0 <= i < tc.args.len() ==> subst_ok(#[trigger] tc.args[i], bound, s),
        Term::Call { args, .. } => forall|i: int| 0 <= i < args.len() ==> subst_ok(#[trigger] args[i], bound, s),
        Term::DotCall { exp, args, .. } => {
            &&& subst_ok(*exp, bound, s)
            &&& forall|i: int| 0 <= i < args.len() ==> subst_ok(#[trigger] args[i], bound, s)
        },
        Term::Anno { exp, typ, .. } => subst_ok(*exp, bound, s) && subst_ok(*typ, bound, s),
        Term::TypeUniv { .. } => true,
        Term::LocalMatch { on_exp, motive, body, .. } => {
            &&& subst_ok(*on_exp, bound, s)
            &&& motive matches Some(m) ==> bind_ok(bound, s) && subst_ok(*m.ret_typ, bound.push(1), shift_subst(s))
            &&& match_subst_ok(body, bound, s)
        },
        Term::LocalComatch { body, .. } => match_subst_ok(body, bound, s),
        Term::Hole { .. } => true,
    }
}

pub open spec fn match_subst_ok(m: MatchM, bound: Seq<usize>, s: SubstM) -> bool
    decreases m,
{
    &&& bind_ok(bound, s)
    &&& forall|i: int|
        0 <= i < m.cases.len() ==> match #[trigger] m.cases[i].body {
            Some(b) => subst_ok(*b, bound.push(m.cases[i].params.len() as usize), shift_subst(s)),
            None => true,
        }
}

/// The result of substituting in `t` under the context `bound`.
pub open spec fn subst_term(t: Term, bound: Seq<usize>, s: SubstM) -> Term
    decreases t,
{
    match t {
        Term::Variable { span, idx, name, .. } => match lookup(s, bound, idx_to_lvl_spec(bound, idx)) {
            Some(e) => e,
            None => Term::Variable { span, idx, name, inferred_type: None },
        },
        Term::TypCtor(tc) => Term::TypCtor(
            TypCtorM { span: tc.span, name: tc.name, args: subst_terms(tc.args, bound, s) },
        ),
        Term::Call { span, name, args, .. } => Term::Call {
            span,
            name,
            args: subst_terms(args, bound, s),
            inferred_type: None,
        },
        Term::DotCall { span, exp, name, args, .. } => Term::DotCall {
            span,
            exp: Box::new(subst_term(*exp, bound, s)),
            name,
            args: subst_terms(args, bound, s),
            inferred_type: None,
        },
        Term::Anno { span, exp, typ, .. } => Term::Anno {
            span,
            exp: Box::new(subst_term(*exp, bound, s)),
            typ: Box::new(subst_term(*typ, bound, s)),
            normalized_type: None,
        },
        Term::TypeUniv { span } => Term::TypeUniv { span },
        Term::LocalMatch { span, name, on_exp, motive, body, .. } => Term::LocalMatch {
            span,
            name,
            on_exp: Box::new(subst_term(*on_exp, bound, s)),
            motive: match motive {
                Some(m) => Some(
                    MotiveM {
                        span: m.span,
                        param: m.param,
                        ret_typ: Box::new(subst_term(*m.ret_typ, bound.push(1), shift_subst(s))),
                    },
                ),
                None => None,
            },
            ret_typ: None,
            body: subst_match(body, bound, s),
            inferred_type: None,
        },
        Term::LocalComatch { span, name, is_lambda_sugar, body, .. } => Term::LocalComatch {
            span,
            name,
            is_lambda_sugar,
            body: subst_match(body, bound, s),
            inferred_type: None,
        },
        Term::Hole { span, .. } => Term::Hole { span, inferred_type: None, inferred_ctx: None },
    }
}

pub open spec fn subst_terms(a: Seq<Term>, bound: Seq<usize>, s: SubstM) -> Seq<Term>
    decreases a,
{
    Seq::new(
        a.len(),
        |i: int| if 0 <= i < a.len() { subst_term(a[i], bound, s) } else { Term::TypeUniv { span: None } },
    )
}

pub open spec fn subst_opt(o: Option<Box<Term>>, bound: Seq<usize>, s: SubstM) -> Option<Box<Term>>
    decreases o,
{
    match o {
        Some(t) => Some(Box::new(subst_term(*t, bound, s))),
        None => None,
    }
}

/// Each clause body lies under the telescope of its clause.
pub open spec fn subst_match(m: MatchM, bound: Seq<usize>, s: SubstM) -> MatchM
    decreases m,
{
    MatchM {
        span: m.span,
        cases: Seq::new(
            m.cases.len(),
            |i: int|
                if 0 <= i < m.cases.len() {
                    CaseM {
                        span: m.cases[i].span,
                        name: m.cases[i].name,
                        params: m.cases[i].params,
                        body: subst_opt(
                            m.cases[i].body,
                            bound.push(m.cases[i].params.len() as usize),
                            shift_subst(s),
                        ),
                    }
                } else {
                    CaseM { span: None, name: Seq::empty(), params: Seq::empty(), body: None }
                },
        ),
        omit_absurd: m.omit_absurd,
    }
}

// ---------------------------------------------------------------------------
// Implementation
// ---------------------------------------------------------------------------

/// The expression that the first entry for `lvl` holds, if any.
#[verifier::loop_isolation(false)]
pub fn lookup_entries(m: &Vec<(Lvl, Exp)>, lvl: Lvl) -> (r: Option<Exp>)
    ensures
        r matches Some(e) ==> map_lookup(entries_view(m@), lvl) == Some(e@),
        r is None ==> map_lookup(entries_view(m@), lvl) is None,
{
    let mut i: usize = 0;
    assert(entries_view(m@).skip(0) =~= entries_view(m@));
    while i < m.len()
        invariant
            i <= m@.len(),
            map_lookup(entries_view(m@), lvl) == map_lookup(entries_view(m@).skip(i as int), lvl),
        decreases m@.len() - i,
    {
        let ghost rest = entries_view(m@).skip(i as int);
        assert(rest[0] == (m@[i as int].0, exp_view(m@[i as int].1)));
        if m[i].0.fst == lvl.fst && m[i].0.snd == lvl.snd {
            return Some(copy_exp(&m[i].1));
        }
        assert(rest.drop_first() =~= entries_view(m@).skip(i + 1));
        i += 1;
    }
    None
}

impl Substitution {
    /// The substitution that replaces the variable at `lvl` by `exp` and nothing else.
    pub fn assign(lvl: Lvl, exp: Exp) -> (s: Substitution)
        ensures
            s@ == SubstM::Entries(seq![(lvl, exp@)]),
    {
        let mut m: Vec<(Lvl, Exp)> = Vec::new();
        m.push((lvl, exp));
        proof {
            assert(entries_view(m@) =~= seq![(lvl, exp@)]);
        }
        Substitution::Entries(m)
    }

    /// What the substitution replaces the variable at `lvl` by, in the context `ctx`.
    pub fn get_subst(&self, ctx: &LevelCtx, lvl: Lvl) -> (r: Option<Exp>)
        requires
            lookup_ok(self@, ctx@, lvl),
        ensures
            r matches Some(e) ==> lookup(self@, ctx@, lvl) == Some(e@),
            r is None ==> lookup(self@, ctx@, lvl) is None,
    {
        match self {
            Substitution::Entries(m) => lookup_entries(m, lvl),
            Substitution::Swap { fst1, fst2 } => {
                let new_lvl = if lvl.fst == *fst1 {
                    Some(Lvl { fst: *fst2, snd: lvl.snd })
                } else if lvl.fst == *fst2 {
                    Some(Lvl { fst: *fst1, snd: lvl.snd })
                } else {
                    None
                };
                match new_lvl {
                    Some(nl) => {
                        let new_ctx = ctx.swap(*fst1, *fst2);
                        let idx = new_ctx.lvl_to_idx(nl);
                        let r = Exp::Variable(Variable { span: None, idx, name: String::new(), inferred_type: None });
                        assert(opt_view(None) == None::<Box<Term>>);
                        Some(r)
                    },
                    None => None,
                }
            },
        }
    }

    /// The substitution as seen under one more binder.
    #[verifier::loop_isolation(false)]
    pub fn shift(&self) -> (r: Substitution)
        requires
            shift_subst_ok(self@),
        ensures
            r@ == shift_subst(self@),
    {
        match self {
            Substitution::Entries(m) => {
                let mut out: Vec<(Lvl, Exp)> = Vec::new();
                let mut i: usize = 0;
                let range = crate::shift::ShiftRange::full();
                while i < m.len()
                    invariant
                        i <= m@.len(),
                        out@.len() == i,
                        range@ == full_range(),
                        forall|j: int|
                            0 <= j < i ==> #[trigger] out@[j].0 == m@[j].0 && exp_view(out@[j].1) == shift_term(
                                exp_view(m@[j].1),
                                full_range(),
                                (1, 0),
                            ),
                    decreases m@.len() - i,
                {
                    assert(entries_view(m@)[i as int].1 == exp_view(m@[i as int].1));
                    let e = m[i].1.shift_in_range(&range, (1, 0));
                    out.push((m[i].0, e));
                    i += 1;
                }
                let r = Substitution::Entries(out);
                assert(entries_view(out@) =~= Seq::new(
                    entries_view(m@).len(),
                    |i: int| (entries_view(m@)[i].0, shift_term(entries_view(m@)[i].1, full_range(), (1, 0))),
                ));
                r
            },
            Substitution::Swap { fst1, fst2 } => Substitution::Swap { fst1: *fst1, fst2: *fst2 },
        }
    }
}

/// Substitute in every argument.
#[verifier::loop_isolation(false)]
pub fn subst_exps(a: &Vec<Exp>, ctx: &mut LevelCtx, by: &Substitution) -> (r: Vec<Exp>)
    requires
        forall|i: int| 0 <= i < a@.len() ==> subst_ok(#[trigger] args_view(a@)[i], old(ctx)@, by@),
    ensures
        final(ctx)@ == old(ctx)@,
        args_view(r@) == subst_terms(args_view(a@), old(ctx)@, by@),
    decreases a,
{
    let mut out: Vec<Exp> = Vec::new();
    let mut i: usize = 0;
    while i < a.len()
        invariant
            i <= a@.len(),
            out@.len() == i,
            ctx@ == old(ctx)@,
            forall|j: int| 0 <= j < i ==> exp_view(#[trigger] out@[j]) == subst_term(exp_view(a@[j]), old(ctx)@, by@),
        decreases a@.len() - i,
    {
        proof {
            assert(decreases_to!(a@ => a@[i as int]));
            assert(args_view(a@)[i as int] == exp_view(a@[i as int]));
        }
        let c = a[i].subst(ctx, by);
        out.push(c);
        i += 1;
    }
    assert(args_view(out@) =~= subst_terms(args_view(a@), old(ctx)@, by@));
    out
}

impl Args {
    /// Substitute in every argument.
    pub fn subst(&self, ctx: &mut LevelCtx, by: &Substitution) -> (r: Args)
        requires
            forall|i: int| 0 <= i < self@.len() ==> subst_ok(#[trigger] self@[i], old(ctx)@, by@),
        ensures
            final(ctx)@ == old(ctx)@,
            r@ == subst_terms(self@, old(ctx)@, by@),
        decreases self,
    {
        assert(self@ == args_view(self.args@));
        Args { args: subst_exps(&self.args, ctx, by) }
    }
}

/// Substitute in an optional clause body.
pub fn subst_opt_exp(o: &Option<Box<Exp>>, ctx: &mut LevelCtx, by: &Substitution) -> (r: Option<Box<Exp>>)
    requires
        opt_view(*o) matches Some(t) ==> subst_ok(*t, old(ctx)@, by@),
    ensures
        final(ctx)@ == old(ctx)@,
        opt_view(r) == subst_opt(opt_view(*o), old(ctx)@, by@),
    decreases o,
{
    match o {
        Some(e) => Some(Box::new(e.subst(ctx, by))),
        None => None,
    }
}

impl Match {
    /// Substitute in every clause body, each under the telescope of its clause.
    #[verifier::loop_isolation(false)]
    pub fn subst(&self, ctx: &mut LevelCtx, by: &Substitution) -> (r: Match)
        requires
            match_subst_ok(self@, old(ctx)@, by@),
        ensures
            final(ctx)@ == old(ctx)@,
            r@ == subst_match(self@, old(ctx)@, by@),
        decreases self,
    {
        let inner = by.shift();
        let mut out: Vec<Case> = Vec::new();
        let mut i: usize = 0;
        while i < self.cases.len()
            invariant
                i <= self.cases@.len(),
                out@.len() == i,
                ctx@ == old(ctx)@,
                inner@ == shift_subst(by@),
                forall|j: int|
                    0 <= j < i ==> #[trigger] case_view(out@[j]) == subst_match(self@, old(ctx)@, by@).cases[j],
            decreases self.cases@.len() - i,
        {
            proof {
                assert(decreases_to!(self.cases@ => self.cases@[i as int]));
                assert(self@.cases[i as int] == case_view(self.cases@[i as int]));
            }
            let c = &self.cases[i];
            assert(self@.cases[i as int].body == opt_view(c.body));
            assert(self@.cases[i as int].params.len() == c.params.params@.len());
            assert(match self@.cases[i as int].body {
                Some(b) => subst_ok(*b, old(ctx)@.push(self@.cases[i as int].params.len() as usize), shift_subst(by@)),
                None => true,
            });
            ctx.bind(c.params.params.len());
            let body = subst_opt_exp(&c.body, ctx, &inner);
            ctx.unbind();
            assert(ctx@ =~= old(ctx)@);
            let params = copy_telescope_inst(&c.params);
            out.push(Case { span: c.span, name: c.name.clone(), params, body });
            i += 1;
        }
        let r = Match { span: self.span, cases: out, omit_absurd: self.omit_absurd };
        assert forall|j: int| 0 <= j < r@.cases.len() implies r@.cases[j] == subst_match(
            self@,
            old(ctx)@,
            by@,
        ).cases[j] by {
            assert(r@.cases[j] == case_view(out@[j]));
        }
        assert(r@.cases =~= subst_match(self@, old(ctx)@, by@).cases);
        r
    }
}

impl Exp {
    /// The expression with the substitution applied, in the context `ctx`.
    #[verifier::spinoff_prover]
    #[verifier::rlimit(50)]
    pub fn subst(&self, ctx: &mut LevelCtx, by: &Substitution) -> (r: Exp)
        requires
            subst_ok(self@, old(ctx)@, by@),
        ensures
            final(ctx)@ == old(ctx)@,
            r@ == subst_term(self@, old(ctx)@, by@),
        decreases self,
    {
        let res = match self {
            Exp::Variable(v) => {
                let lvl = ctx.idx_to_lvl(v.idx);
                match by.get_subst(ctx, lvl) {
                    Some(e) => e,
                    None => Exp::Variable(
                        Variable { span: v.span, idx: v.idx, name: v.name.clone(), inferred_type: None },
                    ),
                }
            },
            Exp::TypCtor(t) => {
                assert(t@.args == t.args@);
                Exp::TypCtor(TypCtor { span: t.span, name: t.name.clone(), args: t.args.subst(ctx, by) })
            },
            Exp::Call(c) => {
                assert(self@ matches Term::Call { args, .. } && args == c.args@);
                Exp::Call(
                    Call {
                        span: c.span,
                        name: c.name.clone(),
                        args: c.args.subst(ctx, by),
                        inferred_type: None,
                    },
                )
            },
            Exp::DotCall(d) => {
                assert(self@ matches Term::DotCall { args, .. } && args == d.args@);
                let exp = d.exp.subst(ctx, by);
                Exp::DotCall(
                    DotCall {
                        span: d.span,
                        exp: Box::new(exp),
                        name: d.name.clone(),
                        args: d.args.subst(ctx, by),
                        inferred_type: None,
                    },
                )
            },
            Exp::Anno(a) => {
                let exp = a.exp.subst(ctx, by);
                let typ = a.typ.subst(ctx, by);
                Exp::Anno(Anno { span: a.span, exp: Box::new(exp), typ: Box::new(typ), normalized_type: None })
            },
            Exp::TypeUniv(t) => Exp::TypeUniv(TypeUniv { span: t.span }),
            Exp::LocalMatch(m) => {
                assert(self@ matches Term::LocalMatch { body, .. } && body == m.body@);
                let on_exp = m.on_exp.subst(ctx, by);
                let motive = match &m.motive {
                    Some(mo) => {
                        assert(crate::exp::opt_motive_view(m.motive) == Some(crate::exp::motive_view(*mo)));
                        let inner = by.shift();
                        ctx.bind(1);
                        let ret_typ = mo.ret_typ.subst(ctx, &inner);
                        ctx.unbind();
                        assert(ctx@ =~= old(ctx)@);
                        Some(Motive { span: mo.span, param: copy_param(&mo.param), ret_typ: Box::new(ret_typ) })
                    },
                    None => None,
                };
                let body = m.body.subst(ctx, by);
                Exp::LocalMatch(
                    LocalMatch {
                        span: m.span,
                        name: copy_label(&m.name),
                        on_exp: Box::new(on_exp),
                        motive,
                        ret_typ: None,
                        body,
                        inferred_type: None,
                    },
                )
            },
            Exp::LocalComatch(m) => {
                assert(self@ matches Term::LocalComatch { body, .. } && body == m.body@);
                Exp::LocalComatch(
                    LocalComatch {
                        span: m.span,
                        name: copy_label(&m.name),
                        is_lambda_sugar: m.is_lambda_sugar,
                        body: m.body.subst(ctx, by),
                        inferred_type: None,
                    },
                )
            },
            Exp::Hole(h) => {
                assert(crate::exp::opt_type_ctx_view(None) == None::<Seq<Seq<(Seq<char>, Term)>>>);
                assert(crate::exp::opt_view(None) == None::<Box<Term>>);
                Exp::Hole(Hole { span: h.span, inferred_type: None, inferred_ctx: None })
            },
        };
        proof {
            assert(crate::exp::opt_typ_ctor_view(None) == None::<TypCtorM>);
            assert(opt_view(None) == None::<Box<Term>>);
            if let Exp::TypCtor(t) = self {
                if let Exp::TypCtor(u) = &res {
                    assert(u@.args == u.args@);
                }
            }
            if let Exp::LocalMatch(m) = self {
                if let Exp::LocalMatch(n) = &res {
                    assert(crate::exp::label_view(n.name) == crate::exp::label_view(m.name));
                    assert(n.body@ == subst_match(m.body@, old(ctx)@, by@));
                    assert(opt_view(n.ret_typ) == None::<Box<Term>>);
                    assert(exp_view(*n.on_exp) == subst_term(exp_view(*m.on_exp), old(ctx)@, by@));
                    assert(crate::exp::opt_motive_view(n.motive) == match crate::exp::opt_motive_view(m.motive) {
                        Some(mo) => Some(MotiveM { span: mo.span, param: mo.param, ret_typ: Box::new(subst_term(*mo.ret_typ, old(ctx)@.push(1), shift_subst(by@))) }),
                        None => None,
                    });
                }
            }
            if let Exp::LocalComatch(m) = self {
                if let Exp::LocalComatch(n) = &res {
                    assert(crate::exp::label_view(n.name) == crate::exp::label_view(m.name));
                }
            }
        }
        res
    }
}

// ---------------------------------------------------------------------------
// Laws
// ---------------------------------------------------------------------------

proof fn lemma_swap_push(bound: Seq<usize>, f1: usize, f2: usize, n: usize)
    requires
        f1 < bound.len(),
        f2 < bound.len(),
    ensures
        swap_spec(bound.push(n), f1 as int, f2 as int) == swap_spec(bound, f1 as int, f2 as int).push(n),
{
    assert(swap_spec(bound.push(n), f1 as int, f2 as int) =~= swap_spec(bound, f1 as int, f2 as int).push(n));
}

proof fn lemma_swap_twice_terms(s: Seq<Term>, bound: Seq<usize>, f1: usize, f2: usize)
    requires
        f1 < bound.len(),
        f2 < bound.len(),
        forall|i: int| 0 <= i < s.len() ==> subst_ok(#[trigger] s[i], bound, SubstM::Swap(f1, f2)),
    ensures
        terms_eq(
            subst_terms(subst_terms(s, bound, SubstM::Swap(f1, f2)), swap_spec(bound, f1 as int, f2 as int), SubstM::Swap(f1, f2)),
            s,
        ),
    decreases s,
{
    let sw = SubstM::Swap(f1, f2);
    let r = subst_terms(subst_terms(s, bound, sw), swap_spec(bound, f1 as int, f2 as int), sw);
    assert forall|i: int| 0 <= i < s.len() implies term_eq(#[trigger] r[i], s[i]) by {
        lemma_swap_twice(s[i], bound, f1, f2);
    }
}

proof fn lemma_swap_twice_opt(o: Option<Box<Term>>, bound: Seq<usize>, f1: usize, f2: usize)
    requires
        f1 < bound.len(),
        f2 < bound.len(),
        o matches Some(t) ==> subst_ok(*t, bound, SubstM::Swap(f1, f2)),
    ensures
        opt_eq(subst_opt(subst_opt(o, bound, SubstM::Swap(f1, f2)), swap_spec(bound, f1 as int, f2 as int), SubstM::Swap(f1, f2)), o),
    decreases o,
{
    if let Some(t) = o {
        lemma_swap_twice(*t, bound, f1, f2);
    }
}

proof fn lemma_swap_twice_match(m: MatchM, bound: Seq<usize>, f1: usize, f2: usize)
    requires
        match_subst_ok(m, bound, SubstM::Swap(f1, f2)),
        f1 < bound.len(),
        f2 < bound.len(),
    ensures
        cases_eq(subst_match(subst_match(m, bound, SubstM::Swap(f1, f2)), swap_spec(bound, f1 as int, f2 as int), SubstM::Swap(f1, f2)), m),
    decreases m,
{
    let sw = SubstM::Swap(f1, f2);
    let nb = swap_spec(bound, f1 as int, f2 as int);
    let r = subst_match(subst_match(m, bound, sw), nb, sw);
    assert forall|i: int| 0 <= i < r.cases.len() implies {
        &&& r.cases[i].name == m.cases[i].name
        &&& r.cases[i].params.len() == m.cases[i].params.len()
        &&& opt_eq(#[trigger] r.cases[i].body, m.cases[i].body)
    } by {
        let c = m.cases[i];
        let n = c.params.len() as usize;
        lemma_swap_push(bound, f1, f2, n);
        assert(match c.body {
            Some(b) => subst_ok(*b, bound.push(n), sw),
            None => true,
        });
        lemma_swap_twice_opt(c.body, bound.push(n), f1, f2);
    }
}

/// Exchanging two telescopes of the context twice gives back the term, up to
/// alpha-equivalence: the first exchange reads the term in the context with
/// the telescopes exchanged, the second one reads it back.
pub proof fn lemma_swap_twice(t: Term, bound: Seq<usize>, f1: usize, f2: usize)
    requires
        f1 < bound.len(),
        f2 < bound.len(),
        subst_ok(t, bound, SubstM::Swap(f1, f2)),
    ensures
        term_eq(subst_term(subst_term(t, bound, SubstM::Swap(f1, f2)), swap_spec(bound, f1 as int, f2 as int), SubstM::Swap(f1, f2)), t),
    decreases t,
{
    let sw = SubstM::Swap(f1, f2);
    let nb = swap_spec(bound, f1 as int, f2 as int);
    match t {
        Term::Variable { idx, .. } => {
            let lvl = idx_to_lvl_spec(bound, idx);
            if lvl.fst == f1 || lvl.fst == f2 {
                let other = if lvl.fst == f1 { f2 } else { f1 };
                let l2 = Lvl { fst: other, snd: lvl.snd };
                assert(lvl_in_ctx(nb, l2));
                lemma_lvl_idx_roundtrip(nb, l2);
                assert(swap_spec(nb, f1 as int, f2 as int) =~= bound);
                lemma_lvl_idx_roundtrip(bound, lvl);
            } else {
                assert(nb[lvl.fst as int] == bound[lvl.fst as int]);
                assert(idx_to_lvl_spec(nb, idx) == lvl);
            }
        },
        Term::TypCtor(tc) => lemma_swap_twice_terms(tc.args, bound, f1, f2),
        Term::Call { args, .. } => lemma_swap_twice_terms(args, bound, f1, f2),
        Term::DotCall { exp, args, .. } => {
            lemma_swap_twice(*exp, bound, f1, f2);
            lemma_swap_twice_terms(args, bound, f1, f2);
        },
        Term::Anno { exp, typ, .. } => {
            lemma_swap_twice(*exp, bound, f1, f2);
            lemma_swap_twice(*typ, bound, f1, f2);
        },
        Term::LocalMatch { on_exp, motive, body, .. } => {
            lemma_swap_twice(*on_exp, bound, f1, f2);
            if let Some(m) = motive {
                lemma_swap_push(bound, f1, f2, 1);
                lemma_swap_twice(*m.ret_typ, bound.push(1), f1, f2);
            }
            lemma_swap_twice_match(body, bound, f1, f2);
        },
        Term::LocalComatch { body, .. } => {
            lemma_swap_twice_match(body, bound, f1, f2);
        },
        _ => {},
    }
}

proof fn lemma_shift_empty()
    ensures
        shift_subst(SubstM::Entries(Seq::empty())) == SubstM::Entries(Seq::<(Lvl, Term)>::empty()),
{
    match shift_subst(SubstM::Entries(Seq::empty())) {
        SubstM::Entries(m) => assert(m =~= Seq::<(Lvl, Term)>::empty()),
        _ => {},
    }
}

proof fn lemma_subst_empty_terms(s: Seq<Term>, bound: Seq<usize>)
    ensures
        terms_eq(subst_terms(s, bound, SubstM::Entries(Seq::empty())), s),
    decreases s,
{
    let r = subst_terms(s, bound, SubstM::Entries(Seq::empty()));
    assert forall|i: int| 0 <= i < s.len() implies term_eq(#[trigger] r[i], s[i]) by {
        lemma_subst_empty(s[i], bound);
    }
}

proof fn lemma_subst_empty_match(m: MatchM, bound: Seq<usize>)
    ensures
        cases_eq(subst_match(m, bound, SubstM::Entries(Seq::empty())), m),
    decreases m,
{
    let e = SubstM::Entries(Seq::<(Lvl, Term)>::empty());
    let r = subst_match(m, bound, e);
    lemma_shift_empty();
    assert forall|i: int| 0 <= i < r.cases.len() implies {
        &&& r.cases[i].name == m.cases[i].name
        &&& r.cases[i].params.len() == m.cases[i].params.len()
        &&& opt_eq(#[trigger] r.cases[i].body, m.cases[i].body)
    } by {
        if let Some(b) = m.cases[i].body {
            lemma_subst_empty(*b, bound.push(m.cases[i].params.len() as usize));
        }
    }
}

/// Substituting with the empty substitution, such as the empty unifier,
/// gives an alpha-equivalent expression.
pub proof fn lemma_subst_empty(t: Term, bound: Seq<usize>)
    ensures
        term_eq(subst_term(t, bound, SubstM::Entries(Seq::empty())), t),
    decreases t,
{
    lemma_shift_empty();
    match t {
        Term::TypCtor(tc) => lemma_subst_empty_terms(tc.args, bound),
        Term::Call { args, .. } => lemma_subst_empty_terms(args, bound),
        Term::DotCall { exp, args, .. } => {
            lemma_subst_empty(*exp, bound);
            lemma_subst_empty_terms(args, bound);
        },
        Term::Anno { exp, typ, .. } => {
            lemma_subst_empty(*exp, bound);
            lemma_subst_empty(*typ, bound);
        },
        Term::LocalMatch { on_exp, motive, body, .. } => {
            lemma_subst_empty(*on_exp, bound);
            if let Some(m) = motive {
                lemma_subst_empty(*m.ret_typ, bound.push(1));
            }
            lemma_subst_empty_match(body, bound);
        },
        Term::LocalComatch { body, .. } => lemma_subst_empty_match(body, bound),
        _ => {},
    }
}

proof fn lemma_swap_ok_terms(s: Seq<Term>, bound: Seq<usize>, f1: usize, f2: usize)
    requires
        f1 < bound.len(),
        f2 < bound.len(),
        forall|i: int| 0 <= i < s.len() ==> subst_ok(#[trigger] s[i], bound, SubstM::Swap(f1, f2)),
    ensures
        forall|i: int|
            0 <= i < s.len() ==> subst_ok(
                #[trigger] subst_terms(s, bound, SubstM::Swap(f1, f2))[i],
                swap_spec(bound, f1 as int, f2 as int),
                SubstM::Swap(f1, f2),
            ),
    decreases s,
{
    assert forall|i: int| 0 <= i < s.len() implies subst_ok(
        #[trigger] subst_terms(s, bound, SubstM::Swap(f1, f2))[i],
        swap_spec(bound, f1 as int, f2 as int),
        SubstM::Swap(f1, f2),
    ) by {
        lemma_swap_ok(s[i], bound, f1, f2);
    }
}

proof fn lemma_swap_ok_match(m: MatchM, bound: Seq<usize>, f1: usize, f2: usize)
    requires
        f1 < bound.len(),
        f2 < bound.len(),
        match_subst_ok(m, bound, SubstM::Swap(f1, f2)),
    ensures
        match_subst_ok(
            subst_match(m, bound, SubstM::Swap(f1, f2)),
            swap_spec(bound, f1 as int, f2 as int),
            SubstM::Swap(f1, f2),
        ),
    decreases m,
{
    let sw = SubstM::Swap(f1, f2);
    let nb = swap_spec(bound, f1 as int, f2 as int);
    assert(nb.len() == bound.len());
    let r = subst_match(m, bound, sw);
    assert forall|i: int| 0 <= i < r.cases.len() implies match #[trigger] r.cases[i].body {
        Some(b) => subst_ok(*b, nb.push(r.cases[i].params.len() as usize), shift_subst(sw)),
        None => true,
    } by {
        let c = m.cases[i];
        let n = c.params.len() as usize;
        lemma_swap_push(bound, f1, f2, n);
        assert(match c.body {
            Some(b) => subst_ok(*b, bound.push(n), sw),
            None => true,
        });
        if let Some(b) = c.body {
            lemma_swap_ok(*b, bound.push(n), f1, f2);
        }
    }
}

/// After two telescopes are exchanged, exchanging them back is defined in
/// the context with the two telescopes exchanged.
pub proof fn lemma_swap_ok(t: Term, bound: Seq<usize>, f1: usize, f2: usize)
    requires
        f1 < bound.len(),
        f2 < bound.len(),
        subst_ok(t, bound, SubstM::Swap(f1, f2)),
    ensures
        subst_ok(
            subst_term(t, bound, SubstM::Swap(f1, f2)),
            swap_spec(bound, f1 as int, f2 as int),
            SubstM::Swap(f1, f2),
        ),
    decreases t,
{
    let sw = SubstM::Swap(f1, f2);
    let nb = swap_spec(bound, f1 as int, f2 as int);
    assert(nb.len() == bound.len());
    match t {
        Term::Variable { idx, .. } => {
            let lvl = idx_to_lvl_spec(bound, idx);
            if lvl.fst == f1 || lvl.fst == f2 {
                let other = if lvl.fst == f1 { f2 } else { f1 };
                let l2 = Lvl { fst: other, snd: lvl.snd };
                assert(lvl_in_ctx(nb, l2));
                lemma_lvl_idx_roundtrip(nb, l2);
            } else {
                assert(nb[lvl.fst as int] == bound[lvl.fst as int]);
                assert(idx_to_lvl_spec(nb, idx) == lvl);
            }
        },
        Term::TypCtor(tc) => {
            lemma_swap_ok_terms(tc.args, bound, f1, f2);
            let a2 = subst_terms(tc.args, bound, sw);
            assert forall|i: int| 0 <= i < a2.len() implies subst_ok(#[trigger] a2[i], nb, sw) by {
                assert(subst_ok(subst_terms(tc.args, bound, sw)[i], nb, sw));
            }
        },
        Term::Call { args, .. } => {
            lemma_swap_ok_terms(args, bound, f1, f2);
            let a2 = subst_terms(args, bound, sw);
            assert forall|i: int| 0 <= i < a2.len() implies subst_ok(#[trigger] a2[i], nb, sw) by {
                assert(subst_ok(subst_terms(args, bound, sw)[i], nb, sw));
            }
        },
        Term::DotCall { exp, args, .. } => {
            lemma_swap_ok(*exp, bound, f1, f2);
            lemma_swap_ok_terms(args, bound, f1, f2);
            let a2 = subst_terms(args, bound, sw);
            assert forall|i: int| 0 <= i < a2.len() implies subst_ok(#[trigger] a2[i], nb, sw) by {
                assert(subst_ok(subst_terms(args, bound, sw)[i], nb, sw));
            }
        },
        Term::Anno { exp, typ, .. } => {
            lemma_swap_ok(*exp, bound, f1, f2);
            lemma_swap_ok(*typ, bound, f1, f2);
        },
        Term::LocalMatch { on_exp, motive, body, .. } => {
            lemma_swap_ok(*on_exp, bound, f1, f2);
            if let Some(m) = motive {
                lemma_swap_push(bound, f1, f2, 1);
                lemma_swap_ok(*m.ret_typ, bound.push(1), f1, f2);
            }
            lemma_swap_ok_match(body, bound, f1, f2);
        },
        Term::LocalComatch { body, .. } => lemma_swap_ok_match(body, bound, f1, f2),
        _ => {},
    }
}

impl Exp {
    /// The expression with the telescopes `fst1` and `fst2` of the context
    /// exchanged. Exchanging them back, in the context with the two
    /// telescopes exchanged, is defined and gives an alpha-equivalent
    /// expression.
    pub fn swap_with_ctx(&self, ctx: &mut LevelCtx, fst1: usize, fst2: usize) -> (r: Exp)
        requires
            fst1 < old(ctx)@.len(),
            fst2 < old(ctx)@.len(),
            subst_ok(self@, old(ctx)@, SubstM::Swap(fst1, fst2)),
        ensures
            final(ctx)@ == old(ctx)@,
            r@ == subst_term(self@, old(ctx)@, SubstM::Swap(fst1, fst2)),
            subst_ok(r@, swap_spec(old(ctx)@, fst1 as int, fst2 as int), SubstM::Swap(fst1, fst2)),
            term_eq(
                subst_term(r@, swap_spec(old(ctx)@, fst1 as int, fst2 as int), SubstM::Swap(fst1, fst2)),
                self@,
            ),
    {
        proof {
            lemma_swap_ok(self@, ctx@, fst1, fst2);
            lemma_swap_twice(self@, ctx@, fst1, fst2);
        }
        let s = Substitution::Swap { fst1, fst2 };
        self.subst(ctx, &s)
    }
}

} // verus!
