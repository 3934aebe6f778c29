//! Renaming: inventing names for the binders of an expression that reflect
//! its binding structure.
//!
//! Expressions use de Bruijn indices; the names they carry are only kept for
//! printing. Renaming walks the expression with the context of the names
//! bound so far. A binder keeps its name unless that name is bound already,
//! in which case it gets the first renaming of it that is not bound. A
//! variable takes the name of the binder that its index denotes.

use vstd::prelude::*;
use crate::de_bruijn::Idx;
use crate::exp::{
    Exp, Term, ParamM, CaseM, MatchM, MotiveM, TypCtorM, ParamInst, TelescopeInst, Case, Match, Motive, Variable,
    TypCtor, Call, DotCall, Anno, TypeUniv, LocalMatch, LocalComatch, Hole, Args, exp_view, opt_view, args_view,
    param_view, params_view, case_view, match_view, motive_view, opt_motive_view, copy_label, copy_opt,
};
use crate::equiv::{term_eq, terms_eq, cases_eq, opt_eq};
use crate::decl::{
    Param, Telescope, SelfParam, Data, Codata, Ctor, Dtor, Def, Codef, Let, Decl, opt_name_view, doc_view, copy_doc,
    copy_attr, copy_strings, strings_view,
};
use crate::renaming::{is_bound_name, iterate_name, ends_in_prime, name_number, flat_names, Ctx, VarBind, bind_view};

verus! {

broadcast use vstd::seq::group_seq_axioms;

/// The names bound so far, telescope by telescope; `None` is a wildcard.
pub type NameCtx = Seq<Seq<Option<Seq<char>>>>;

/// Whether the index denotes a binder of the context.
pub open spec fn idx_in_names(c: NameCtx, idx: Idx) -> bool {
    &&& idx.fst < c.len()
    &&& idx.snd < c[c.len() - 1 - idx.fst].len()
}

/// The binder that the index denotes in the context.
pub open spec fn lookup_binder(c: NameCtx, idx: Idx) -> Option<Seq<char>> {
    let t = c[c.len() - 1 - idx.fst];
    t[t.len() - 1 - idx.snd]
}

/// Whether renaming `start` until it is not bound in `c` stays within the machine's integers.
pub open spec fn fresh_ok(c: NameCtx, start: Seq<char>) -> bool {
    !ends_in_prime(start) ==> name_number(start) + flat_names(c).len() <= usize::MAX
}

/// The number of renamings of `start` that are bound in `c` before the first one that is not.
pub open spec fn fresh_steps(c: NameCtx, start: Seq<char>) -> nat {
    choose|k: nat|
        !is_bound_name(c, iterate_name(start, k)) && forall|j: nat| j < k ==> is_bound_name(c, #[trigger] iterate_name(start, j))
}

/// The first renaming of `start` that is not bound in `c`.
pub open spec fn fresh_name(c: NameCtx, start: Seq<char>) -> Seq<char> {
    iterate_name(start, fresh_steps(c, start))
}

/// The context with `n` bound at the end of its innermost telescope.
pub open spec fn push_binder(c: NameCtx, n: Seq<char>) -> NameCtx {
    c.update(c.len() - 1, c.last().push(Some(n)))
}

/// The parameter renamed in the context `c`: its type is renamed, and its
/// name replaced by the first renaming that is not bound.
pub open spec fn rename_param(p: ParamM, c: NameCtx) -> ParamM
    decreases p,
{
    ParamM { span: p.span, info: p.info, name: fresh_name(c, p.name), typ: rename_opt(p.typ, c) }
}

/// The context after the first `i` parameters of a telescope have been renamed and bound.
pub open spec fn params_ctx(ps: Seq<ParamM>, c: NameCtx, i: nat) -> NameCtx
    decreases i,
{
    if i == 0 {
        c
    } else {
        let prev = params_ctx(ps, c, (i - 1) as nat);
        push_binder(prev, fresh_name(prev, ps[i - 1].name))
    }
}

/// The parameters of a telescope renamed one after another, each in the
/// context that binds the ones before it.
pub open spec fn rename_params(ps: Seq<ParamM>, c: NameCtx) -> Seq<ParamM>
    decreases ps,
{
    Seq::new(
        ps.len(),
        |i: int|
            if 0 <= i < ps.len() {
                rename_param(ps[i], params_ctx(ps, c, i as nat))
            } else {
                ParamM { span: None, info: None, name: Seq::empty(), typ: None }
            },
    )
}

/// A clause renamed: its parameters form a new telescope, and its body is
/// renamed in the context that binds them.
pub open spec fn rename_case(cs: CaseM, c: NameCtx) -> CaseM
    decreases cs,
{
    let inner = c.push(Seq::empty());
    CaseM {
        span: cs.span,
        name: cs.name,
        params: rename_params(cs.params, inner),
        body: rename_opt(cs.body, params_ctx(cs.params, inner, cs.params.len())),
    }
}

pub open spec fn rename_match(m: MatchM, c: NameCtx) -> MatchM
    decreases m,
{
    MatchM {
        span: m.span,
        cases: Seq::new(
            m.cases.len(),
            |i: int|
                if 0 <= i < m.cases.len() {
                    rename_case(m.cases[i], c)
                } else {
                    CaseM { span: None, name: Seq::empty(), params: Seq::empty(), body: None }
                },
        ),
        omit_absurd: m.omit_absurd,
    }
}

pub open spec fn rename_opt(o: Option<Box<Term>>, c: NameCtx) -> Option<Box<Term>>
    decreases o,
{
    match o {
        Some(t) => Some(Box::new(rename_term(*t, c))),
        None => None,
    }
}

pub open spec fn rename_terms(s: Seq<Term>, c: NameCtx) -> Seq<Term>
    decreases s,
{
    Seq::new(s.len(), |i: int| if 0 <= i < s.len() { rename_term(s[i], c) } else { Term::TypeUniv { span: None } })
}

/// The motive renamed: its parameter is renamed, and its return type renamed
/// in the context that binds the parameter in a telescope of its own.
pub open spec fn rename_motive(m: MotiveM, c: NameCtx) -> MotiveM
    decreases m,
{
    let p = rename_param(m.param, c);
    MotiveM { span: m.span, param: p, ret_typ: Box::new(rename_term(*m.ret_typ, c.push(seq![Some(p.name)]))) }
}

/// The expression renamed in the context `c`. The types inferred for
/// (co)matches are dropped; all other annotations are renamed too.
pub open spec fn rename_term(t: Term, c: NameCtx) -> Term
    decreases t,
{
    match t {
        Term::Variable { span, idx, inferred_type, .. } => Term::Variable {
            span,
            idx,
            name: match lookup_binder(c, idx) {
                Some(n) => n,
                None => Seq::empty(),
            },
            inferred_type: rename_opt(inferred_type, c),
        },
        Term::TypCtor(tc) => Term::TypCtor(TypCtorM { span: tc.span, name: tc.name, args: rename_terms(tc.args, c) }),
        Term::Call { span, name, args, inferred_type } => Term::Call {
            span,
            name,
            args: rename_terms(args, c),
            inferred_type: rename_opt(inferred_type, c),
        },
        Term::DotCall { span, exp, name, args, inferred_type } => Term::DotCall {
            span,
            exp: Box::new(rename_term(*exp, c)),
            name,
            args: rename_terms(args, c),
            inferred_type: rename_opt(inferred_type, c),
        },
        Term::Anno { span, exp, typ, normalized_type } => Term::Anno {
            span,
            exp: Box::new(rename_term(*exp, c)),
            typ: Box::new(rename_term(*typ, c)),
            normalized_type: rename_opt(normalized_type, c),
        },
        Term::TypeUniv { span } => Term::TypeUniv { span },
        Term::LocalMatch { span, name, on_exp, motive, ret_typ, body, .. } => Term::LocalMatch {
            span,
            name,
            on_exp: Box::new(rename_term(*on_exp, c)),
            motive: match motive {
                Some(m) => Some(rename_motive(m, c)),
                None => None,
            },
            ret_typ: rename_opt(ret_typ, c),
            body: rename_match(body, c),
            inferred_type: None,
        },
        Term::LocalComatch { span, name, is_lambda_sugar, body, .. } => Term::LocalComatch {
            span,
            name,
            is_lambda_sugar,
            body: rename_match(body, c),
            inferred_type: None,
        },
        Term::Hole { span, inferred_type, .. } => Term::Hole {
            span,
            inferred_type: rename_opt(inferred_type, c),
            inferred_ctx: None,
        },
    }
}

/// Whether renaming a parameter in `c` is defined.
pub open spec fn param_ok(p: ParamM, c: NameCtx) -> bool
    decreases p,
{
    fresh_ok(c, p.name) && rename_opt_ok(p.typ, c)
}

pub open spec fn params_ok(ps: Seq<ParamM>, c: NameCtx) -> bool
    decreases ps,
{
    forall|i: int| 0 <= i < ps.len() ==> param_ok(#[trigger] ps[i], params_ctx(ps, c, i as nat))
}

pub open spec fn case_ok(cs: CaseM, c: NameCtx) -> bool
    decreases cs,
{
    let inner = c.push(Seq::empty());
    params_ok(cs.params, inner) && rename_opt_ok(cs.body, params_ctx(cs.params, inner, cs.params.len()))
}

pub open spec fn match_ok(m: MatchM, c: NameCtx) -> bool
    decreases m,
{
    forall|i: int| 0 <= i < m.cases.len() ==> case_ok(#[trigger] m.cases[i], c)
}

pub open spec fn motive_ok(m: MotiveM, c: NameCtx) -> bool
    decreases m,
{
    param_ok(m.param, c) && rename_ok(*m.ret_typ, c.push(seq![Some(fresh_name(c, m.param.name))]))
}

pub open spec fn rename_opt_ok(o: Option<Box<Term>>, c: NameCtx) -> bool
    decreases o,
{
    match o {
        Some(t) => rename_ok(*t, c),
        None => true,
    }
}

/// Whether renaming `t` in `c` is defined: every variable denotes a named
/// binder, and renaming each binder stays within the machine's integers.
pub open spec fn rename_ok(t: Term, c: NameCtx) -> bool
    decreases t,
{
    match t {
        Term::Variable { idx, inferred_type, .. } => idx_in_names(c, idx) && lookup_binder(c, idx) is Some
            && rename_opt_ok(inferred_type, c),
        Term::TypCtor(tc) => forall|i: int| 0 <= i < tc.args.len() ==> rename_ok(#[trigger] tc.args[i], c),
        Term::Call { args, inferred_type, .. } => {
            &&& forall|i: int| 0 <= i < args.len() ==> rename_ok(#[trigger] args[i], c)
            &&& rename_opt_ok(inferred_type, c)
        },
        Term::DotCall { exp, args, inferred_type, .. } => {
            &&& rename_ok(*exp, c)
            &&& forall|i: int| 0 <= i < args.len() ==> rename_ok(#[trigger] args[i], c)
            &&& rename_opt_ok(inferred_type, c)
        },
        Term::Anno { exp, typ, normalized_type, .. } => rename_ok(*exp, c) && rename_ok(*typ, c) && rename_opt_ok(
            normalized_type,
            c,
        ),
        Term::TypeUniv { .. } => true,
        Term::LocalMatch { on_exp, motive, ret_typ, body, .. } => {
            &&& rename_ok(*on_exp, c)
            &&& motive matches Some(m) ==> motive_ok(m, c)
            &&& rename_opt_ok(ret_typ, c)
            &&& match_ok(body, c)
        },
        Term::LocalComatch { body, .. } => match_ok(body, c),
        Term::Hole { inferred_type, .. } => rename_opt_ok(inferred_type, c),
    }
}

proof fn lemma_fresh_name_is(c: NameCtx, start: Seq<char>, k: nat)
    requires
        !is_bound_name(c, iterate_name(start, k)),
        forall|j: nat| j < k ==> is_bound_name(c, #[trigger] iterate_name(start, j)),
    ensures
        fresh_name(c, start) == iterate_name(start, k),
{
    let k2 = fresh_steps(c, start);
    assert(!is_bound_name(c, iterate_name(start, k2)) && forall|j: nat| j < k2 ==> is_bound_name(c, #[trigger] iterate_name(start, j)));
    if k2 < k {
        assert(is_bound_name(c, iterate_name(start, k2)));
    }
    if k < k2 {
        assert(is_bound_name(c, iterate_name(start, k)));
    }
}

// ---------------------------------------------------------------------------
// The context of names
// ---------------------------------------------------------------------------

impl Ctx {
    /// The empty context.
    pub fn empty() -> (r: Ctx)
        ensures
            r@ == Seq::<Seq<Option<Seq<char>>>>::empty(),
    {
        let r = Ctx { binders: Vec::new() };
        assert(r@ =~= Seq::<Seq<Option<Seq<char>>>>::empty());
        r
    }

    /// Open a new, empty telescope.
    fn push_telescope(&mut self)
        ensures
            final(self)@ == old(self)@.push(Seq::empty()),
    {
        let t: Vec<VarBind> = Vec::new();
        assert(t@.map_values(|v: VarBind| bind_view(v)) =~= Seq::<Option<Seq<char>>>::empty());
        self.binders.push(t);
        assert(self@ =~= old(self)@.push(Seq::empty()));
    }

    /// Close the innermost telescope.
    fn pop_telescope(&mut self)
        requires
            old(self)@.len() > 0,
        ensures
            final(self)@ == old(self)@.drop_last(),
    {
        let _ = self.binders.pop();
        assert(self@ =~= old(self)@.drop_last());
    }

    /// Bind `name` at the end of the innermost telescope.
    fn push_name(&mut self, name: String)
        requires
            old(self)@.len() > 0,
        ensures
            final(self)@ == push_binder(old(self)@, name@),
    {
        let mut t = self.binders.pop().unwrap();
        let ghost tm = t@;
        t.push(VarBind::Var { span: None, id: name });
        assert(t@.map_values(|v: VarBind| bind_view(v)) =~= tm.map_values(|v: VarBind| bind_view(v)).push(Some(name@)));
        self.binders.push(t);
        assert(self@ =~= push_binder(old(self)@, name@));
    }

    /// The name of the binder that the index denotes.
    fn lookup_name(&self, idx: Idx) -> (r: String)
        requires
            idx_in_names(self@, idx),
            lookup_binder(self@, idx) is Some,
        ensures
            Some(r@) == lookup_binder(self@, idx),
    {
        let t = &self.binders[self.binders.len() - 1 - idx.fst];
        assert(t@.map_values(|v: VarBind| bind_view(v)) == self@[self@.len() - 1 - idx.fst]);
        match &t[t.len() - 1 - idx.snd] {
            VarBind::Var { id, .. } => id.clone(),
            VarBind::Wildcard { .. } => {
                assert(false);
                String::new()
            },
        }
    }

    /// The first renaming of `name` that is not bound.
    fn fresh(&self, name: &String) -> (r: String)
        requires
            fresh_ok(self@, name@),
        ensures
            r@ == fresh_name(self@, name@),
    {
        match self.disambiguate_var_bind(VarBind::Var { span: None, id: name.clone() }) {
            VarBind::Var { id, .. } => {
                proof {
                    let k = choose|k: nat|
                        id@ == iterate_name(name@, k) && !is_bound_name(self@, id@) && forall|j: nat|
                            j < k ==> is_bound_name(self@, #[trigger] iterate_name(name@, j));
                    lemma_fresh_name_is(self@, name@, k);
                }
                id
            },
            VarBind::Wildcard { .. } => {
                assert(false);
                String::new()
            },
        }
    }
}

// ---------------------------------------------------------------------------
// Renaming expressions
// ---------------------------------------------------------------------------

proof fn lemma_params_ctx_shape(ps: Seq<ParamM>, c: NameCtx, i: nat)
    requires
        c.len() > 0,
    ensures
        params_ctx(ps, c, i).len() == c.len(),
        params_ctx(ps, c, i).drop_last() == c.drop_last(),
    decreases i,
{
    if i > 0 {
        lemma_params_ctx_shape(ps, c, (i - 1) as nat);
        let prev = params_ctx(ps, c, (i - 1) as nat);
        assert(push_binder(prev, fresh_name(prev, ps[i - 1].name)).drop_last() =~= prev.drop_last());
    }
}

/// Rename every expression of a list.
#[verifier::loop_isolation(false)]
pub fn rename_exps(s: &Vec<Exp>, ctx: &mut Ctx) -> (r: Vec<Exp>)
    requires
        forall|i: int| 0 <= i < s@.len() ==> rename_ok(#[trigger] args_view(s@)[i], old(ctx)@),
    ensures
        final(ctx)@ == old(ctx)@,
        args_view(r@) == rename_terms(args_view(s@), old(ctx)@),
    decreases s,
{
    let mut out: Vec<Exp> = Vec::new();
    let mut i: usize = 0;
    while i < s.len()
        invariant
            i <= s@.len(),
            ctx@ == old(ctx)@,
            out@.len() == i,
            forall|j: int| 0 <= j < i ==> exp_view(#[trigger] out@[j]) == rename_term(exp_view(s@[j]), old(ctx)@),
        decreases s@.len() - i,
    {
        proof {
            assert(decreases_to!(s@ => s@[i as int]));
            assert(args_view(s@)[i as int] == exp_view(s@[i as int]));
        }
        let e = rename_exp(&s[i], ctx);
        out.push(e);
        i += 1;
    }
    assert(args_view(out@) =~= rename_terms(args_view(s@), old(ctx)@));
    out
}

/// Rename an optional expression.
pub fn rename_opt_exp(o: &Option<Box<Exp>>, ctx: &mut Ctx) -> (r: Option<Box<Exp>>)
    requires
        rename_opt_ok(opt_view(*o), old(ctx)@),
    ensures
        final(ctx)@ == old(ctx)@,
        opt_view(r) == rename_opt(opt_view(*o), old(ctx)@),
    decreases o,
{
    match o {
        Some(e) => Some(Box::new(rename_exp(e, ctx))),
        None => None,
    }
}

/// Rename a parameter: its type, and its name unless that is not bound yet.
pub fn rename_param_inst(p: &ParamInst, ctx: &mut Ctx) -> (r: ParamInst)
    requires
        param_ok(param_view(*p), old(ctx)@),
    ensures
        final(ctx)@ == old(ctx)@,
        param_view(r) == rename_param(param_view(*p), old(ctx)@),
    decreases p,
{
    let typ = rename_opt_exp(&p.typ, ctx);
    let name = ctx.fresh(&p.name);
    ParamInst { span: p.span, info: copy_opt(&p.info), name, typ }
}

/// Rename the parameters of a telescope, binding each of them in the
/// innermost telescope of the context once it is renamed.
#[verifier::loop_isolation(false)]
pub fn rename_params_exec(ps: &Vec<ParamInst>, ctx: &mut Ctx) -> (r: Vec<ParamInst>)
    requires
        old(ctx)@.len() > 0,
        params_ok(params_view(ps@), old(ctx)@),
    ensures
        final(ctx)@ == params_ctx(params_view(ps@), old(ctx)@, ps@.len()),
        params_view(r@) == rename_params(params_view(ps@), old(ctx)@),
    decreases ps,
{
    let ghost pv = params_view(ps@);
    let ghost c0 = ctx@;
    let mut out: Vec<ParamInst> = Vec::new();
    let mut i: usize = 0;
    while i < ps.len()
        invariant
            i <= ps@.len(),
            pv == params_view(ps@),
            ctx@ == params_ctx(pv, c0, i as nat),
            c0 == old(ctx)@,
            out@.len() == i,
            forall|j: int| 0 <= j < i ==> param_view(#[trigger] out@[j]) == rename_param(pv[j], params_ctx(pv, c0, j as nat)),
        decreases ps@.len() - i,
    {
        proof {
            assert(decreases_to!(ps@ => ps@[i as int]));
            assert(pv[i as int] == param_view(ps@[i as int]));
            assert(param_ok(pv[i as int], params_ctx(pv, c0, i as nat)));
            lemma_params_ctx_shape(pv, c0, i as nat);
        }
        let p = rename_param_inst(&ps[i], ctx);
        let name = p.name.clone();
        out.push(p);
        ctx.push_name(name);
        i += 1;
    }
    assert(params_view(out@) =~= rename_params(pv, c0));
    out
}

/// Rename a clause: its parameters form a new telescope, in which its body is renamed.
pub fn rename_case_exec(c: &Case, ctx: &mut Ctx) -> (r: Case)
    requires
        case_ok(case_view(*c), old(ctx)@),
    ensures
        final(ctx)@ == old(ctx)@,
        case_view(r) == rename_case(case_view(*c), old(ctx)@),
    decreases c,
{
    let ghost c0 = ctx@;
    ctx.push_telescope();
    let params = rename_params_exec(&c.params.params, ctx);
    let body = rename_opt_exp(&c.body, ctx);
    proof {
        lemma_params_ctx_shape(params_view(c.params.params@), c0.push(Seq::empty()), c.params.params@.len() as nat);
        assert(c0.push(Seq::empty()).drop_last() =~= c0);
    }
    ctx.pop_telescope();
    Case { span: c.span, name: c.name.clone(), params: TelescopeInst { params }, body }
}

/// Rename every clause of a (co)match.
#[verifier::loop_isolation(false)]
pub fn rename_match_exec(m: &Match, ctx: &mut Ctx) -> (r: Match)
    requires
        match_ok(m@, old(ctx)@),
    ensures
        final(ctx)@ == old(ctx)@,
        r@ == rename_match(m@, old(ctx)@),
    decreases m,
{
    let mut out: Vec<Case> = Vec::new();
    let mut i: usize = 0;
    while i < m.cases.len()
        invariant
            i <= m.cases@.len(),
            ctx@ == old(ctx)@,
            out@.len() == i,
            forall|j: int| 0 <= j < i ==> #[trigger] case_view(out@[j]) == rename_match(m@, old(ctx)@).cases[j],
        decreases m.cases@.len() - i,
    {
        proof {
            assert(decreases_to!(m.cases@ => m.cases@[i as int]));
            assert(m@.cases[i as int] == case_view(m.cases@[i as int]));
        }
        let c = rename_case_exec(&m.cases[i], ctx);
        out.push(c);
        i += 1;
    }
    let r = Match { span: m.span, cases: out, omit_absurd: m.omit_absurd };
    assert forall|j: int| 0 <= j < r@.cases.len() implies r@.cases[j] == rename_match(m@, old(ctx)@).cases[j] by {
        assert(r@.cases[j] == case_view(out@[j]));
    }
    assert(r@.cases =~= rename_match(m@, old(ctx)@).cases);
    r
}

/// Rename a motive: its parameter, and its return type in a telescope that binds the parameter.
pub fn rename_motive_exec(m: &Motive, ctx: &mut Ctx) -> (r: Motive)
    requires
        motive_ok(motive_view(*m), old(ctx)@),
    ensures
        final(ctx)@ == old(ctx)@,
        motive_view(r) == rename_motive(motive_view(*m), old(ctx)@),
    decreases m,
{
    let ghost c0 = ctx@;
    let param = rename_param_inst(&m.param, ctx);
    ctx.push_telescope();
    ctx.push_name(param.name.clone());
    assert(ctx@ =~= c0.push(seq![Some(param.name@)]));
    let ret_typ = rename_exp(&m.ret_typ, ctx);
    ctx.pop_telescope();
    assert(ctx@ =~= c0);
    Motive { span: m.span, param, ret_typ: Box::new(ret_typ) }
}

/// Rename an expression in the context `ctx`.
pub fn rename_exp(e: &Exp, ctx: &mut Ctx) -> (r: Exp)
    requires
        rename_ok(e@, old(ctx)@),
    ensures
        final(ctx)@ == old(ctx)@,
        r@ == rename_term(e@, old(ctx)@),
    decreases e,
{
    proof {
        reveal_with_fuel(exp_view, 2);
    }
    match e {
        Exp::Variable(v) => {
            let name = ctx.lookup_name(v.idx);
            let inferred_type = rename_opt_exp(&v.inferred_type, ctx);
            Exp::Variable(Variable { span: v.span, idx: v.idx, name, inferred_type })
        },
        Exp::TypCtor(t) => {
            assert(t@.args == t.args@);
            let args = rename_exps(&t.args.args, ctx);
            let r = TypCtor { span: t.span, name: t.name.clone(), args: Args { args } };
            assert(r@.args == r.args@);
            Exp::TypCtor(r)
        },
        Exp::Call(c) => {
            let args = rename_exps(&c.args.args, ctx);
            let inferred_type = rename_opt_exp(&c.inferred_type, ctx);
            Exp::Call(Call { span: c.span, name: c.name.clone(), args: Args { args }, inferred_type })
        },
        Exp::DotCall(d) => {
            let exp = rename_exp(&d.exp, ctx);
            let args = rename_exps(&d.args.args, ctx);
            let inferred_type = rename_opt_exp(&d.inferred_type, ctx);
            Exp::DotCall(DotCall { span: d.span, exp: Box::new(exp), name: d.name.clone(), args: Args { args }, inferred_type })
        },
        Exp::Anno(a) => {
            let exp = rename_exp(&a.exp, ctx);
            let typ = rename_exp(&a.typ, ctx);
            let normalized_type = rename_opt_exp(&a.normalized_type, ctx);
            Exp::Anno(Anno { span: a.span, exp: Box::new(exp), typ: Box::new(typ), normalized_type })
        },
        Exp::TypeUniv(t) => Exp::TypeUniv(TypeUniv { span: t.span }),
        Exp::LocalMatch(m) => {
            let on_exp = rename_exp(&m.on_exp, ctx);
            let motive = match &m.motive {
                Some(mo) => {
                    assert(opt_motive_view(m.motive) == Some(motive_view(*mo)));
                    Some(rename_motive_exec(mo, ctx))
                },
                None => None,
            };
            let ret_typ = rename_opt_exp(&m.ret_typ, ctx);
            let body = rename_match_exec(&m.body, ctx);
            let r = LocalMatch {
                span: m.span,
                name: copy_label(&m.name),
                on_exp: Box::new(on_exp),
                motive,
                ret_typ,
                body,
                inferred_type: None,
            };
            assert(crate::exp::opt_typ_ctor_view(None) == None::<TypCtorM>);
            assert(opt_motive_view(r.motive) == match opt_motive_view(m.motive) {
                Some(mo) => Some(rename_motive(mo, old(ctx)@)),
                None => None,
            });
            Exp::LocalMatch(r)
        },
        Exp::LocalComatch(m) => {
            let body = rename_match_exec(&m.body, ctx);
            assert(crate::exp::opt_typ_ctor_view(None) == None::<TypCtorM>);
            Exp::LocalComatch(
                LocalComatch {
                    span: m.span,
                    name: copy_label(&m.name),
                    is_lambda_sugar: m.is_lambda_sugar,
                    body,
                    inferred_type: None,
                },
            )
        },
        Exp::Hole(h) => {
            let inferred_type = rename_opt_exp(&h.inferred_type, ctx);
            Exp::Hole(Hole { span: h.span, inferred_type, inferred_ctx: None })
        },
    }
}

/// Syntax whose binders can be renamed.
pub trait Rename: Sized {
    /// Whether renaming in the context `c` is defined.
    spec fn renamable(&self, c: NameCtx) -> bool;

    /// Whether `self` is `orig` renamed in the context `c`.
    spec fn renamed_from(&self, orig: &Self, c: NameCtx) -> bool;

    /// Assign consistent names to all binding and bound variable
    /// occurrences; `ctx` holds the names of the free variables.
    fn rename_in_ctx(&mut self, ctx: &mut Ctx)
        requires
            old(self).renamable(old(ctx)@),
        ensures
            final(ctx)@ == old(ctx)@,
            final(self).renamed_from(old(self), old(ctx)@),
    ;

    /// Assign consistent names to all binding and bound variable occurrences
    /// of a closed piece of syntax.
    fn rename(&mut self)
        requires
            old(self).renamable(Seq::empty()),
        ensures
            final(self).renamed_from(old(self), Seq::empty()),
    {
        let mut ctx = Ctx::empty();
        self.rename_in_ctx(&mut ctx);
    }
}

impl Rename for Exp {
    open spec fn renamable(&self, c: NameCtx) -> bool {
        rename_ok(self@, c)
    }

    open spec fn renamed_from(&self, orig: &Self, c: NameCtx) -> bool {
        self@ == rename_term(orig@, c)
    }

    fn rename_in_ctx(&mut self, ctx: &mut Ctx) {
        let r = rename_exp(self, ctx);
        *self = r;
    }
}

// ---------------------------------------------------------------------------
// Renaming declarations
// ---------------------------------------------------------------------------

/// The context after the first `i` parameters of a telescope of declared
/// parameters have been renamed and bound.
pub open spec fn tel_ctx(ps: Seq<(Seq<char>, Term)>, c: NameCtx, i: nat) -> NameCtx
    decreases i,
{
    if i == 0 {
        c
    } else {
        let prev = tel_ctx(ps, c, (i - 1) as nat);
        push_binder(prev, fresh_name(prev, ps[i - 1].0))
    }
}

/// A telescope renamed in a context whose innermost telescope it extends:
/// each type is renamed, then the name is made unambiguous and bound.
pub open spec fn rename_tel(ps: Seq<(Seq<char>, Term)>, c: NameCtx) -> Seq<(Seq<char>, Term)> {
    Seq::new(ps.len(), |i: int| (fresh_name(tel_ctx(ps, c, i as nat), ps[i].0), rename_term(ps[i].1, tel_ctx(ps, c, i as nat))))
}

pub open spec fn tel_ok(ps: Seq<(Seq<char>, Term)>, c: NameCtx) -> bool {
    forall|i: int|
        0 <= i < ps.len() ==> fresh_ok(tel_ctx(ps, c, i as nat), #[trigger] ps[i].0) && rename_ok(
            ps[i].1,
            tel_ctx(ps, c, i as nat),
        )
}

/// The context that binds a renamed telescope as a new telescope of `c`.
pub open spec fn tel_bound(ps: Seq<(Seq<char>, Term)>, c: NameCtx) -> NameCtx {
    tel_ctx(ps, c.push(Seq::empty()), ps.len())
}

/// The name that renaming a self parameter starts from: its name, or `x`.
pub open spec fn self_start(sp: SelfParam) -> Seq<char> {
    match sp.name {
        Some(n) => n@,
        None => "x"@,
    }
}

pub open spec fn self_ok(sp: SelfParam, c: NameCtx) -> bool {
    fresh_ok(c, self_start(sp)) && forall|i: int| 0 <= i < sp.typ@.args.len() ==> rename_ok(#[trigger] sp.typ@.args[i], c)
}

/// `r` is the self parameter `sp` renamed in `c`.
pub open spec fn self_renamed(sp: SelfParam, r: SelfParam, c: NameCtx) -> bool {
    &&& r.info == sp.info
    &&& opt_name_view(r.name) == Some(fresh_name(c, self_start(sp)))
    &&& r.typ@ == (TypCtorM { span: sp.typ@.span, name: sp.typ@.name, args: rename_terms(sp.typ@.args, c) })
}

pub open spec fn typ_ctor_ok(t: TypCtorM, c: NameCtx) -> bool {
    forall|i: int| 0 <= i < t.args.len() ==> rename_ok(#[trigger] t.args[i], c)
}

pub open spec fn rename_typ_ctor(t: TypCtorM, c: NameCtx) -> TypCtorM {
    TypCtorM { span: t.span, name: t.name, args: rename_terms(t.args, c) }
}

/// Whether renaming the declaration in `c` is defined.
pub open spec fn decl_ok(d: Decl, c: NameCtx) -> bool {
    match d {
        Decl::Data(x) => tel_ok(x.typ@, c.push(Seq::empty())),
        Decl::Codata(x) => tel_ok(x.typ@, c.push(Seq::empty())),
        Decl::Ctor(x) => tel_ok(x.params@, c.push(Seq::empty())) && typ_ctor_ok(x.typ@, tel_bound(x.params@, c)),
        Decl::Dtor(x) => {
            let p = tel_bound(x.params@, c);
            &&& tel_ok(x.params@, c.push(Seq::empty()))
            &&& self_ok(x.self_param, p)
            &&& rename_ok(exp_view(*x.ret_typ), p.push(seq![Some(fresh_name(p, self_start(x.self_param)))]))
        },
        Decl::Def(x) => {
            let p = tel_bound(x.params@, c);
            &&& tel_ok(x.params@, c.push(Seq::empty()))
            &&& self_ok(x.self_param, p)
            &&& match_ok(x.body@, p)
            &&& rename_ok(exp_view(*x.ret_typ), p.push(seq![Some(fresh_name(p, self_start(x.self_param)))]))
        },
        Decl::Codef(x) => {
            let p = tel_bound(x.params@, c);
            &&& tel_ok(x.params@, c.push(Seq::empty()))
            &&& typ_ctor_ok(x.typ@, p)
            &&& match_ok(x.body@, p)
        },
        Decl::Let(x) => {
            let p = tel_bound(x.params@, c);
            &&& tel_ok(x.params@, c.push(Seq::empty()))
            &&& rename_ok(exp_view(*x.typ), p)
            &&& rename_ok(exp_view(*x.body), p)
        },
    }
}

/// `r` is the declaration `d` renamed in `c`: the parameters are renamed as a
/// new telescope, in which the rest of the declaration is renamed; a self
/// parameter is renamed inside that telescope and bound in a telescope of its
/// own for the return type. Spans, names, documentation and attributes stay.
pub open spec fn decl_renamed(d: Decl, r: Decl, c: NameCtx) -> bool {
    match (d, r) {
        (Decl::Data(x), Decl::Data(y)) => {
            &&& y.span == x.span && doc_view(y.doc) == doc_view(x.doc) && y.name@ == x.name@ && y.attr@ == x.attr@
            &&& y.typ@ == rename_tel(x.typ@, c.push(Seq::empty()))
            &&& strings_view(y.ctors@) == strings_view(x.ctors@)
        },
        (Decl::Codata(x), Decl::Codata(y)) => {
            &&& y.span == x.span && doc_view(y.doc) == doc_view(x.doc) && y.name@ == x.name@ && y.attr@ == x.attr@
            &&& y.typ@ == rename_tel(x.typ@, c.push(Seq::empty()))
            &&& strings_view(y.dtors@) == strings_view(x.dtors@)
        },
        (Decl::Ctor(x), Decl::Ctor(y)) => {
            &&& y.span == x.span && doc_view(y.doc) == doc_view(x.doc) && y.name@ == x.name@
            &&& y.params@ == rename_tel(x.params@, c.push(Seq::empty()))
            &&& y.typ@ == rename_typ_ctor(x.typ@, tel_bound(x.params@, c))
        },
        (Decl::Dtor(x), Decl::Dtor(y)) => {
            let p = tel_bound(x.params@, c);
            &&& y.span == x.span && doc_view(y.doc) == doc_view(x.doc) && y.name@ == x.name@
            &&& y.params@ == rename_tel(x.params@, c.push(Seq::empty()))
            &&& self_renamed(x.self_param, y.self_param, p)
            &&& exp_view(*y.ret_typ) == rename_term(
                exp_view(*x.ret_typ),
                p.push(seq![Some(fresh_name(p, self_start(x.self_param)))]),
            )
        },
        (Decl::Def(x), Decl::Def(y)) => {
            let p = tel_bound(x.params@, c);
            &&& y.span == x.span && doc_view(y.doc) == doc_view(x.doc) && y.name@ == x.name@ && y.attr@ == x.attr@
            &&& y.params@ == rename_tel(x.params@, c.push(Seq::empty()))
            &&& self_renamed(x.self_param, y.self_param, p)
            &&& y.body@ == rename_match(x.body@, p)
            &&& exp_view(*y.ret_typ) == rename_term(
                exp_view(*x.ret_typ),
                p.push(seq![Some(fresh_name(p, self_start(x.self_param)))]),
            )
        },
        (Decl::Codef(x), Decl::Codef(y)) => {
            let p = tel_bound(x.params@, c);
            &&& y.span == x.span && doc_view(y.doc) == doc_view(x.doc) && y.name@ == x.name@ && y.attr@ == x.attr@
            &&& y.params@ == rename_tel(x.params@, c.push(Seq::empty()))
            &&& y.typ@ == rename_typ_ctor(x.typ@, p)
            &&& y.body@ == rename_match(x.body@, p)
        },
        (Decl::Let(x), Decl::Let(y)) => {
            let p = tel_bound(x.params@, c);
            &&& y.span == x.span && doc_view(y.doc) == doc_view(x.doc) && y.name@ == x.name@ && y.attr@ == x.attr@
            &&& y.params@ == rename_tel(x.params@, c.push(Seq::empty()))
            &&& exp_view(*y.typ) == rename_term(exp_view(*x.typ), p)
            &&& exp_view(*y.body) == rename_term(exp_view(*x.body), p)
        },
        _ => false,
    }
}

proof fn lemma_tel_ctx_shape(ps: Seq<(Seq<char>, Term)>, c: NameCtx, i: nat)
    requires
        c.len() > 0,
    ensures
        tel_ctx(ps, c, i).len() == c.len(),
        tel_ctx(ps, c, i).drop_last() == c.drop_last(),
    decreases i,
{
    if i > 0 {
        lemma_tel_ctx_shape(ps, c, (i - 1) as nat);
        let prev = tel_ctx(ps, c, (i - 1) as nat);
        assert(push_binder(prev, fresh_name(prev, ps[i - 1].0)).drop_last() =~= prev.drop_last());
    }
}

/// Rename the parameters of a declared telescope, binding each of them in the
/// innermost telescope of the context once it is renamed.
#[verifier::loop_isolation(false)]
fn rename_tel_in(t: &Telescope, ctx: &mut Ctx) -> (r: Telescope)
    requires
        old(ctx)@.len() > 0,
        tel_ok(t@, old(ctx)@),
    ensures
        final(ctx)@ == tel_ctx(t@, old(ctx)@, t@.len()),
        r@ == rename_tel(t@, old(ctx)@),
{
    let ghost c0 = ctx@;
    let mut out: Vec<Param> = Vec::new();
    let mut i: usize = 0;
    while i < t.params.len()
        invariant
            i <= t@.len(),
            t@.len() == t.params@.len(),
            ctx@ == tel_ctx(t@, c0, i as nat),
            c0 == old(ctx)@,
            out@.len() == i,
            forall|j: int| 0 <= j < i ==> (#[trigger] out@[j])@ == rename_tel(t@, c0)[j],
        decreases t@.len() - i,
    {
        proof {
            assert(t@[i as int] == t.params@[i as int]@);
            lemma_tel_ctx_shape(t@, c0, i as nat);
            assert(fresh_ok(tel_ctx(t@, c0, i as nat), t@[i as int].0));
            assert(rename_ok(t@[i as int].1, tel_ctx(t@, c0, i as nat)));
        }
        let p = &t.params[i];
        let typ = rename_exp(&p.typ, ctx);
        let name = ctx.fresh(&p.name);
        let np = Param { name: name.clone(), typ: Box::new(typ) };
        out.push(np);
        ctx.push_name(name);
        i += 1;
    }
    let r = Telescope { params: out };
    assert(r@ =~= rename_tel(t@, c0));
    r
}

proof fn lemma_tel_bound_pop(ps: Seq<(Seq<char>, Term)>, c: NameCtx)
    ensures
        tel_bound(ps, c).len() == c.len() + 1,
        tel_bound(ps, c).drop_last() == c,
{
    lemma_tel_ctx_shape(ps, c.push(Seq::empty()), ps.len());
    assert(c.push(Seq::empty()).drop_last() =~= c);
}

/// Rename a declared telescope and bind its renamed parameters as a new
/// telescope of the context.
fn open_tel(t: &Telescope, ctx: &mut Ctx) -> (r: Telescope)
    requires
        tel_ok(t@, old(ctx)@.push(Seq::empty())),
    ensures
        final(ctx)@ == tel_bound(t@, old(ctx)@),
        r@ == rename_tel(t@, old(ctx)@.push(Seq::empty())),
{
    ctx.push_telescope();
    rename_tel_in(t, ctx)
}

/// Rename a declared telescope as a new telescope of the context.
fn rename_tel_exec(t: &Telescope, ctx: &mut Ctx) -> (r: Telescope)
    requires
        tel_ok(t@, old(ctx)@.push(Seq::empty())),
    ensures
        final(ctx)@ == old(ctx)@,
        r@ == rename_tel(t@, old(ctx)@.push(Seq::empty())),
{
    let ghost c0 = ctx@;
    let r = open_tel(t, ctx);
    proof {
        lemma_tel_bound_pop(t@, c0);
    }
    ctx.pop_telescope();
    r
}

/// Rename a type constructor application.
fn rename_typ_ctor_exec(t: &TypCtor, ctx: &mut Ctx) -> (r: TypCtor)
    requires
        typ_ctor_ok(t@, old(ctx)@),
    ensures
        final(ctx)@ == old(ctx)@,
        r@ == rename_typ_ctor(t@, old(ctx)@),
{
    assert(t@.args == t.args@);
    let args = rename_exps(&t.args.args, ctx);
    let r = TypCtor { span: t.span, name: t.name.clone(), args: Args { args } };
    assert(r@.args == r.args@);
    r
}

/// Rename a self parameter: its name (`x` when it has none) is made unambiguous.
fn rename_self_param(sp: &SelfParam, ctx: &mut Ctx) -> (r: SelfParam)
    requires
        self_ok(*sp, old(ctx)@),
    ensures
        final(ctx)@ == old(ctx)@,
        self_renamed(*sp, r, old(ctx)@),
{
    let start = match &sp.name {
        Some(n) => n.clone(),
        None => {
            proof {
                reveal_strlit("x");
            }
            String::from_str("x")
        },
    };
    let name = ctx.fresh(&start);
    let typ = rename_typ_ctor_exec(&sp.typ, ctx);
    SelfParam { info: sp.info, name: Some(name), typ }
}

/// Bind the renamed self parameter in a telescope of its own.
fn bind_self(ctx: &mut Ctx, sp: &SelfParam)
    requires
        sp.name is Some,
    ensures
        final(ctx)@ == old(ctx)@.push(seq![opt_name_view(sp.name)]),
{
    ctx.push_telescope();
    match &sp.name {
        Some(n) => ctx.push_name(n.clone()),
        None => {},
    }
    assert(ctx@ =~= old(ctx)@.push(seq![opt_name_view(sp.name)]));
}

fn rename_data(x: &Data, ctx: &mut Ctx) -> (r: Data)
    requires
        decl_ok(Decl::Data(*x), old(ctx)@),
    ensures
        final(ctx)@ == old(ctx)@,
        decl_renamed(Decl::Data(*x), Decl::Data(r), old(ctx)@),
{
    let typ = rename_tel_exec(&x.typ, ctx);
    Data {
        span: x.span,
        doc: copy_doc(&x.doc),
        name: x.name.clone(),
        attr: copy_attr(&x.attr),
        typ,
        ctors: copy_strings(&x.ctors),
    }
}

fn rename_codata(x: &Codata, ctx: &mut Ctx) -> (r: Codata)
    requires
        decl_ok(Decl::Codata(*x), old(ctx)@),
    ensures
        final(ctx)@ == old(ctx)@,
        decl_renamed(Decl::Codata(*x), Decl::Codata(r), old(ctx)@),
{
    let typ = rename_tel_exec(&x.typ, ctx);
    Codata {
        span: x.span,
        doc: copy_doc(&x.doc),
        name: x.name.clone(),
        attr: copy_attr(&x.attr),
        typ,
        dtors: copy_strings(&x.dtors),
    }
}

fn rename_ctor(x: &Ctor, ctx: &mut Ctx) -> (r: Ctor)
    requires
        decl_ok(Decl::Ctor(*x), old(ctx)@),
    ensures
        final(ctx)@ == old(ctx)@,
        decl_renamed(Decl::Ctor(*x), Decl::Ctor(r), old(ctx)@),
{
    let ghost c = ctx@;
    let params = open_tel(&x.params, ctx);
    let typ = rename_typ_ctor_exec(&x.typ, ctx);
    proof {
        lemma_tel_bound_pop(x.params@, c);
    }
    ctx.pop_telescope();
    Ctor { span: x.span, doc: copy_doc(&x.doc), name: x.name.clone(), params, typ }
}

fn rename_dtor(x: &Dtor, ctx: &mut Ctx) -> (r: Dtor)
    requires
        decl_ok(Decl::Dtor(*x), old(ctx)@),
    ensures
        final(ctx)@ == old(ctx)@,
        decl_renamed(Decl::Dtor(*x), Decl::Dtor(r), old(ctx)@),
{
    let ghost c = ctx@;
    let params = open_tel(&x.params, ctx);
    let ghost p = ctx@;
    let self_param = rename_self_param(&x.self_param, ctx);
    bind_self(ctx, &self_param);
    let ret_typ = rename_exp(&x.ret_typ, ctx);
    ctx.pop_telescope();
    assert(p.push(seq![opt_name_view(self_param.name)]).drop_last() =~= p);
    proof {
        lemma_tel_bound_pop(x.params@, c);
    }
    ctx.pop_telescope();
    Dtor { span: x.span, doc: copy_doc(&x.doc), name: x.name.clone(), params, self_param, ret_typ: Box::new(ret_typ) }
}

#[verifier::spinoff_prover]
#[verifier::rlimit(40)]
fn rename_def(x: &Def, ctx: &mut Ctx) -> (r: Def)
    requires
        decl_ok(Decl::Def(*x), old(ctx)@),
    ensures
        final(ctx)@ == old(ctx)@,
        decl_renamed(Decl::Def(*x), Decl::Def(r), old(ctx)@),
{
    let ghost c = ctx@;
    let params = open_tel(&x.params, ctx);
    let ghost p = ctx@;
    let self_param = rename_self_param(&x.self_param, ctx);
    let body = rename_match_exec(&x.body, ctx);
    bind_self(ctx, &self_param);
    let ret_typ = rename_exp(&x.ret_typ, ctx);
    ctx.pop_telescope();
    assert(p.push(seq![opt_name_view(self_param.name)]).drop_last() =~= p);
    proof {
        lemma_tel_bound_pop(x.params@, c);
    }
    ctx.pop_telescope();
    Def {
        span: x.span,
        doc: copy_doc(&x.doc),
        name: x.name.clone(),
        attr: copy_attr(&x.attr),
        params,
        self_param,
        ret_typ: Box::new(ret_typ),
        body,
    }
}

fn rename_codef(x: &Codef, ctx: &mut Ctx) -> (r: Codef)
    requires
        decl_ok(Decl::Codef(*x), old(ctx)@),
    ensures
        final(ctx)@ == old(ctx)@,
        decl_renamed(Decl::Codef(*x), Decl::Codef(r), old(ctx)@),
{
    let ghost c = ctx@;
    let params = open_tel(&x.params, ctx);
    let typ = rename_typ_ctor_exec(&x.typ, ctx);
    let body = rename_match_exec(&x.body, ctx);
    proof {
        lemma_tel_bound_pop(x.params@, c);
    }
    ctx.pop_telescope();
    Codef { span: x.span, doc: copy_doc(&x.doc), name: x.name.clone(), attr: copy_attr(&x.attr), params, typ, body }
}

fn rename_let(x: &Let, ctx: &mut Ctx) -> (r: Let)
    requires
        decl_ok(Decl::Let(*x), old(ctx)@),
    ensures
        final(ctx)@ == old(ctx)@,
        decl_renamed(Decl::Let(*x), Decl::Let(r), old(ctx)@),
{
    let ghost c = ctx@;
    let params = open_tel(&x.params, ctx);
    let typ = rename_exp(&x.typ, ctx);
    let body = rename_exp(&x.body, ctx);
    proof {
        lemma_tel_bound_pop(x.params@, c);
    }
    ctx.pop_telescope();
    Let {
        span: x.span,
        doc: copy_doc(&x.doc),
        name: x.name.clone(),
        attr: copy_attr(&x.attr),
        params,
        typ: Box::new(typ),
        body: Box::new(body),
    }
}

/// Rename the binders of a declaration in the context `ctx`.
pub fn rename_decl(d: &Decl, ctx: &mut Ctx) -> (r: Decl)
    requires
        decl_ok(*d, old(ctx)@),
    ensures
        final(ctx)@ == old(ctx)@,
        decl_renamed(*d, r, old(ctx)@),
{
    match d {
        Decl::Data(x) => Decl::Data(rename_data(x, ctx)),
        Decl::Codata(x) => Decl::Codata(rename_codata(x, ctx)),
        Decl::Ctor(x) => Decl::Ctor(rename_ctor(x, ctx)),
        Decl::Dtor(x) => Decl::Dtor(rename_dtor(x, ctx)),
        Decl::Def(x) => Decl::Def(rename_def(x, ctx)),
        Decl::Codef(x) => Decl::Codef(rename_codef(x, ctx)),
        Decl::Let(x) => Decl::Let(rename_let(x, ctx)),
    }
}

impl Rename for Decl {
    open spec fn renamable(&self, c: NameCtx) -> bool {
        decl_ok(*self, c)
    }

    open spec fn renamed_from(&self, orig: &Self, c: NameCtx) -> bool {
        decl_renamed(*orig, *self, c)
    }

    fn rename_in_ctx(&mut self, ctx: &mut Ctx) {
        let r = rename_decl(self, ctx);
        *self = r;
    }
}

// ---------------------------------------------------------------------------
// Laws
// ---------------------------------------------------------------------------

proof fn lemma_rename_opt_alpha_eq(o: Option<Box<Term>>, c: NameCtx)
    ensures
        opt_eq(rename_opt(o, c), o),
    decreases o,
{
    if let Some(t) = o {
        lemma_rename_alpha_eq(*t, c);
    }
}

proof fn lemma_rename_terms_alpha_eq(s: Seq<Term>, c: NameCtx)
    ensures
        terms_eq(rename_terms(s, c), s),
    decreases s,
{
    assert forall|i: int| 0 <= i < s.len() implies term_eq(#[trigger] rename_terms(s, c)[i], s[i]) by {
        lemma_rename_alpha_eq(s[i], c);
    }
}

proof fn lemma_rename_match_alpha_eq(m: MatchM, c: NameCtx)
    ensures
        cases_eq(rename_match(m, c), m),
    decreases m,
{
    let r = rename_match(m, c);
    assert forall|i: int| 0 <= i < r.cases.len() implies {
        &&& r.cases[i].name == m.cases[i].name
        &&& r.cases[i].params.len() == m.cases[i].params.len()
        &&& opt_eq(#[trigger] r.cases[i].body, m.cases[i].body)
    } by {
        let cs = m.cases[i];
        let inner = c.push(Seq::empty());
        lemma_rename_opt_alpha_eq(cs.body, params_ctx(cs.params, inner, cs.params.len()));
    }
}

/// Renaming keeps the binding structure: the renamed expression is
/// alpha-equivalent to the original one.
pub proof fn lemma_rename_alpha_eq(t: Term, c: NameCtx)
    ensures
        term_eq(rename_term(t, c), t),
    decreases t,
{
    match t {
        Term::TypCtor(tc) => lemma_rename_terms_alpha_eq(tc.args, c),
        Term::Call { args, .. } => lemma_rename_terms_alpha_eq(args, c),
        Term::DotCall { exp, args, .. } => {
            lemma_rename_alpha_eq(*exp, c);
            lemma_rename_terms_alpha_eq(args, c);
        },
        Term::Anno { exp, typ, .. } => {
            lemma_rename_alpha_eq(*exp, c);
            lemma_rename_alpha_eq(*typ, c);
        },
        Term::LocalMatch { on_exp, motive, body, .. } => {
            lemma_rename_alpha_eq(*on_exp, c);
            if let Some(m) = motive {
                let p = rename_param(m.param, c);
                lemma_rename_alpha_eq(*m.ret_typ, c.push(seq![Some(p.name)]));
                let rm = rename_motive(m, c);
                assert(*rm.ret_typ == rename_term(*m.ret_typ, c.push(seq![Some(p.name)])));
                assert(rename_term(t, c) matches Term::LocalMatch { motive: Some(m2), .. } && m2 == rm);
            }
            lemma_rename_match_alpha_eq(body, c);
        },
        Term::LocalComatch { body, .. } => lemma_rename_match_alpha_eq(body, c),
        _ => {},
    }
}

} // verus!
