//! The free variables of an expression that a type context binds, closed
//! under the dependencies of their types: when a variable is collected, the
//! variables that its type mentions are collected too.

use vstd::prelude::*;
use crate::de_bruijn::{Lvl, LevelCtx, idx_in_ctx, idx_to_lvl_spec};
use crate::exp::{type_ctx_view, Exp, Term, CaseM, Match, Case, args_view, exp_view, case_view, opt_view, motive_view, opt_motive_view};
use crate::shift::{RangeM, shift_ok, shift_term};
use crate::lifting::FreeVar;

verus! {

broadcast use vstd::std_specs::vec::group_vec_axioms, vstd::seq::group_seq_axioms;

// ---------------------------------------------------------------------------
// Type contexts
// ---------------------------------------------------------------------------

/// A variable of a type context: its name and its type.
#[derive(Debug)]
pub struct TypedVar {
    pub name: String,
    pub typ: Exp,
}

/// The types of the variables in scope, telescope by telescope, the
/// outermost first. Each type is expressed in the whole context.
#[derive(Debug)]
pub struct TypeCtx {
    pub bound: Vec<Vec<TypedVar>>,
}

/// Model of a [`TypeCtx`]: the name and the type of each variable.
pub type TypeCtxM = Seq<Seq<(Seq<char>, Term)>>;

impl View for TypeCtx {
    type V = TypeCtxM;

    open spec fn view(&self) -> TypeCtxM {
        type_ctx_view(*self)
    }
}

/// The sizes of the telescopes of a type context.
pub open spec fn sizes(tc: TypeCtxM) -> Seq<usize> {
    Seq::new(tc.len(), |i: int| tc[i].len() as usize)
}

/// The level context `lc` starts with the telescopes of the type context.
pub open spec fn extends(lc: Seq<usize>, tc: TypeCtxM) -> bool {
    &&& tc.len() <= lc.len()
    &&& forall|i: int| 0 <= i < tc.len() ==> #[trigger] lc[i] == tc[i].len()
}

/// The number of variables in the first `n` telescopes.
pub open spec fn prefix_size(tc: TypeCtxM, n: int) -> nat
    decreases n,
{
    if n <= 0 || tc.len() < n {
        0
    } else {
        prefix_size(tc, n - 1) + tc[n - 1].len()
    }
}

/// The number of variables of the context.
pub open spec fn ctx_size(tc: TypeCtxM) -> nat {
    prefix_size(tc, tc.len() as int)
}

/// The position of a variable when the telescopes are laid end to end.
pub open spec fn rank(tc: TypeCtxM, lvl: Lvl) -> nat {
    prefix_size(tc, lvl.fst as int) + (lvl.snd as nat)
}

/// How far the types of the context are shifted to be read in `lc`.
pub open spec fn type_shift(tc: TypeCtxM, lc: Seq<usize>) -> (isize, isize) {
    ((lc.len() - tc.len()) as isize, 0)
}

/// The type of the variable at `lvl`, as it reads in the context `lc`.
pub open spec fn type_in(tc: TypeCtxM, lvl: Lvl, lc: Seq<usize>) -> Term {
    shift_term(tc[lvl.fst as int][lvl.snd as int].1, RangeM { lo: 0, hi: None }, type_shift(tc, lc))
}

impl TypeCtx {
    /// The number of telescopes.
    pub fn len(&self) -> (n: usize)
        ensures
            n == self@.len(),
    {
        self.bound.len()
    }

    /// The level context made of the sizes of the telescopes.
    pub fn levels(&self) -> (r: LevelCtx)
        ensures
            r@ == sizes(self@),
    {
        let mut out: Vec<usize> = Vec::new();
        let mut i: usize = 0;
        while i < self.bound.len()
            invariant
                i <= self.bound@.len(),
                out@.len() == i,
                forall|j: int| 0 <= j < i ==> out@[j] == self.bound@[j]@.len(),
            decreases self.bound@.len() - i,
        {
            out.push(self.bound[i].len());
            i += 1;
        }
        let r = LevelCtx::from_sizes(out);
        assert(r@ =~= sizes(self@));
        r
    }
}

// ---------------------------------------------------------------------------
// Sets of free variables
// ---------------------------------------------------------------------------

/// Model of a free variable: its name, its level, its type and the context in
/// which the type reads.
pub type FreeVarM = (Seq<char>, Lvl, Term, Seq<usize>);

pub open spec fn free_var_view(f: FreeVar) -> FreeVarM {
    (f.name@, f.lvl, exp_view(*f.typ), f.ctx@)
}

/// A set of free variables, told apart by their levels: no two of its
/// variables have the same level.
pub struct FreeVars {
    fvs: Vec<FreeVar>,
}

pub open spec fn free_vars_view(s: Seq<FreeVar>) -> Seq<FreeVarM> {
    Seq::new(s.len(), |i: int| free_var_view(s[i]))
}

impl View for FreeVars {
    type V = Seq<FreeVarM>;

    closed spec fn view(&self) -> Seq<FreeVarM> {
        free_vars_view(self.fvs@)
    }
}

impl FreeVars {
    /// No two variables of the set have the same level.
    #[verifier::type_invariant]
    spec fn levels_unique(self) -> bool {
        lvls_unique(free_vars_view(self.fvs@))
    }

    /// The variables of the set, in the order in which they were added.
    pub fn fvs(&self) -> (r: &Vec<FreeVar>)
        ensures
            free_vars_view(r@) == self@,
            lvls_unique(self@),
    {
        proof {
            use_type_invariant(self);
        }
        &self.fvs
    }

}

/// Whether some variable of `s` has the level `l`.
pub open spec fn has_lvl(s: Seq<FreeVarM>, l: Lvl) -> bool {
    exists|i: int| 0 <= i < s.len() && (#[trigger] s[i]).1 == l
}

/// No two variables have the same level.
pub open spec fn lvls_unique(s: Seq<FreeVarM>) -> bool {
    forall|i: int, j: int| 0 <= i < s.len() && 0 <= j < s.len() && i != j ==> (#[trigger] s[i]).1 != (#[trigger] s[j]).1
}

/// `a` with `x` added, unless a variable of `a` has its level already.
pub open spec fn insert_fv(a: Seq<FreeVarM>, x: FreeVarM) -> Seq<FreeVarM> {
    if has_lvl(a, x.1) {
        a
    } else {
        a.push(x)
    }
}

/// The union of two sets: the variables of `b` are added in order; where a
/// level is there already, the variable that was there stays.
pub open spec fn union_fvs(a: Seq<FreeVarM>, b: Seq<FreeVarM>) -> Seq<FreeVarM>
    decreases b.len(),
{
    if b.len() == 0 {
        a
    } else {
        union_fvs(insert_fv(a, b[0]), b.drop_first())
    }
}

// ---------------------------------------------------------------------------
// The closure of the free variables
// ---------------------------------------------------------------------------

/// The free variables of `t` under `lc` that `tc` binds, each followed by the
/// closure of its type, as far as the ranks stay below `fuel`.
pub open spec fn fvc_term(t: Term, lc: Seq<usize>, tc: TypeCtxM, fuel: nat) -> Seq<FreeVarM>
    decreases fuel, t,
{
    match t {
        Term::Variable { idx, name, .. } => {
            let lvl = idx_to_lvl_spec(lc, idx);
            if lvl.fst < tc.len() && rank(tc, lvl) < fuel {
                let typ = type_in(tc, lvl, lc);
                union_fvs(seq![(name, lvl, typ, lc)], fvc_term(typ, lc, tc, rank(tc, lvl)))
            } else {
                Seq::empty()
            }
        },
        Term::TypCtor(c) => fvc_terms(c.args, lc, tc, fuel),
        Term::Call { args, .. } => fvc_terms(args, lc, tc, fuel),
        Term::DotCall { exp, args, .. } => union_fvs(fvc_term(*exp, lc, tc, fuel), fvc_terms(args, lc, tc, fuel)),
        Term::Anno { exp, typ, .. } => union_fvs(fvc_term(*exp, lc, tc, fuel), fvc_term(*typ, lc, tc, fuel)),
        Term::TypeUniv { .. } => Seq::empty(),
        Term::LocalMatch { on_exp, motive, body, .. } => union_fvs(
            union_fvs(fvc_cases(body.cases, lc, tc, fuel), fvc_term(*on_exp, lc, tc, fuel)),
            match motive {
                Some(m) => fvc_term(*m.ret_typ, lc.push(1), tc, fuel),
                None => Seq::empty(),
            },
        ),
        Term::LocalComatch { body, .. } => fvc_cases(body.cases, lc, tc, fuel),
        Term::Hole { .. } => Seq::empty(),
    }
}

/// The union, from left to right, of the closures of the terms.
pub open spec fn fvc_terms(s: Seq<Term>, lc: Seq<usize>, tc: TypeCtxM, fuel: nat) -> Seq<FreeVarM>
    decreases fuel, s,
{
    if s.len() == 0 {
        Seq::empty()
    } else {
        union_fvs(fvc_terms(s.subrange(0, s.len() - 1), lc, tc, fuel), fvc_term(s[s.len() - 1], lc, tc, fuel))
    }
}

/// The union, from left to right, of the closures of the clause bodies, each
/// under the telescope of its clause.
pub open spec fn fvc_cases(cs: Seq<CaseM>, lc: Seq<usize>, tc: TypeCtxM, fuel: nat) -> Seq<FreeVarM>
    decreases fuel, cs,
{
    if cs.len() == 0 {
        Seq::empty()
    } else {
        union_fvs(
            fvc_cases(cs.subrange(0, cs.len() - 1), lc, tc, fuel),
            match cs[cs.len() - 1].body {
                Some(b) => fvc_term(*b, lc.push(cs[cs.len() - 1].params.len() as usize), tc, fuel),
                None => Seq::empty(),
            },
        )
    }
}

/// Whether computing the closure is defined: every variable is bound in its
/// context, the rank of each variable of `tc` met is below `fuel` and above
/// the ranks of the variables of its type, and shifting the types stays within
/// the arithmetic of the machine.
pub open spec fn fvc_ok(t: Term, lc: Seq<usize>, tc: TypeCtxM, fuel: nat) -> bool
    decreases fuel, t,
{
    match t {
        Term::Variable { idx, .. } => {
            let lvl = idx_to_lvl_spec(lc, idx);
            &&& idx_in_ctx(lc, idx)
            &&& lvl.fst < tc.len() ==> {
                &&& rank(tc, lvl) < fuel
                &&& shift_ok(tc[lvl.fst as int][lvl.snd as int].1, RangeM { lo: 0, hi: None }, type_shift(tc, lc))
                &&& fvc_ok(type_in(tc, lvl, lc), lc, tc, rank(tc, lvl))
            }
        },
        Term::TypCtor(c) => forall|i: int| 0 <= i < c.args.len() ==> fvc_ok(#[trigger] c.args[i], lc, tc, fuel),
        Term::Call { args, .. } => forall|i: int| 0 <= i < args.len() ==> fvc_ok(#[trigger] args[i], lc, tc, fuel),
        Term::DotCall { exp, args, .. } => {
            &&& fvc_ok(*exp, lc, tc, fuel)
            &&& forall|i: int| 0 <= i < args.len() ==> fvc_ok(#[trigger] args[i], lc, tc, fuel)
        },
        Term::Anno { exp, typ, .. } => fvc_ok(*exp, lc, tc, fuel) && fvc_ok(*typ, lc, tc, fuel),
        Term::TypeUniv { .. } => true,
        Term::LocalMatch { on_exp, motive, body, .. } => {
            &&& forall|i: int|
                0 <= i < body.cases.len() ==> match #[trigger] body.cases[i].body {
                    Some(b) => fvc_ok(*b, lc.push(body.cases[i].params.len() as usize), tc, fuel),
                    None => true,
                }
            &&& fvc_ok(*on_exp, lc, tc, fuel)
            &&& match motive {
                Some(m) => fvc_ok(*m.ret_typ, lc.push(1), tc, fuel),
                None => true,
            }
        },
        Term::LocalComatch { body, .. } => forall|i: int|
            0 <= i < body.cases.len() ==> match #[trigger] body.cases[i].body {
                Some(b) => fvc_ok(*b, lc.push(body.cases[i].params.len() as usize), tc, fuel),
                None => true,
            },
        Term::Hole { .. } => true,
    }
}

/// The closure of the free variables of `t` under `lc` that `tc` binds: each
/// free variable `x` of `t` with its type `T` in `tc`, then the closure of `T`.
pub open spec fn free_vars_closure_spec(t: Term, lc: Seq<usize>, tc: TypeCtxM) -> Seq<FreeVarM> {
    fvc_term(t, lc, tc, ctx_size(tc))
}

/// Whether computing the closure of `t` under `lc` in `tc` is defined.
pub open spec fn closure_defined(t: Term, lc: Seq<usize>, tc: TypeCtxM) -> bool {
    &&& extends(lc, tc)
    &&& fvc_ok(t, lc, tc, ctx_size(tc))
}

impl FreeVars {
    /// The empty set.
    pub fn new() -> (r: FreeVars)
        ensures
            r@ == Seq::<FreeVarM>::empty(),
    {
        let r = FreeVars { fvs: Vec::new() };
        assert(r@ =~= Seq::<FreeVarM>::empty());
        r
    }

    /// Insert a free variable. Returns `true` if no variable of the set had
    /// its level; otherwise the set is left as it was and `false` returned.
    pub fn insert(&mut self, fv: FreeVar) -> (r: bool)
        ensures
            final(self)@ == insert_fv(old(self)@, free_var_view(fv)),
            r == !has_lvl(old(self)@, fv.lvl),
            lvls_unique(final(self)@),
    {
        proof {
            use_type_invariant(&*self);
        }
        let mut i: usize = 0;
        while i < self.fvs.len()
            invariant
                i <= self.fvs@.len(),
                *self == *old(self),
                lvls_unique(self@),
                forall|j: int| 0 <= j < i ==> (#[trigger] self@[j]).1 != fv.lvl,
            decreases self.fvs@.len() - i,
        {
            if self.fvs[i].lvl.fst == fv.lvl.fst && self.fvs[i].lvl.snd == fv.lvl.snd {
                assert(self@[i as int].1 == fv.lvl);
                return false;
            }
            i += 1;
        }
        let ghost before = self@;
        proof {
            let after = before.push(free_var_view(fv));
            assert forall|a: int, b: int|
                0 <= a < after.len() && 0 <= b < after.len() && a != b implies (#[trigger] after[a]).1
                != (#[trigger] after[b]).1 by {
                if a < before.len() && b < before.len() {
                    assert(after[a] == before[a] && after[b] == before[b]);
                } else if a < before.len() {
                    assert(after[a] == before[a]);
                    assert(before[a].1 != fv.lvl);
                } else {
                    assert(after[b] == before[b]);
                    assert(before[b].1 != fv.lvl);
                }
            }
            assert(free_vars_view(self.fvs@.push(fv)) =~= after);
        }
        let mut v: Vec<FreeVar> = Vec::new();
        std::mem::swap(&mut v, &mut self.fvs);
        v.push(fv);
        self.fvs = v;
        assert(self@ =~= before.push(free_var_view(fv)));
        true
    }

    /// The union of two sets; where both have a variable of the same level,
    /// the one of `self` stays.
    pub fn union(self, other: FreeVars) -> (r: FreeVars)
        ensures
            r@ == union_fvs(self@, other@),
            lvls_unique(r@),
    {
        proof {
            use_type_invariant(&self);
        }
        let ghost target = union_fvs(self@, other@);
        let mut acc = self;
        let mut rest = other.fvs;
        while rest.len() > 0
            invariant
                union_fvs(acc@, free_vars_view(rest@)) == target,
                lvls_unique(acc@),
            decreases rest@.len(),
        {
            let ghost rv = free_vars_view(rest@);
            let x = rest.remove(0);
            proof {
                assert(rv[0] == free_var_view(x));
                assert(free_vars_view(rest@) =~= rv.drop_first());
            }
            acc.insert(x);
        }
        assert(free_vars_view(rest@) =~= Seq::<FreeVarM>::empty());
        acc
    }
}

impl Default for FreeVars {
    fn default() -> (r: FreeVars)
        ensures
            r@ == Seq::<FreeVarM>::empty(),
    {
        FreeVars::new()
    }
}

/// The closure of the free variables of an expression.
fn fvc_exp(e: &Exp, lc: &mut LevelCtx, tc: &TypeCtx, Ghost(fuel): Ghost<nat>) -> (r: FreeVars)
    requires
        extends(old(lc)@, tc@),
        fvc_ok(e@, old(lc)@, tc@, fuel),
    ensures
        final(lc)@ == old(lc)@,
        r@ == fvc_term(e@, old(lc)@, tc@, fuel),
    decreases fuel, e,
{
    match e {
        Exp::Variable(v) => {
            let lvl = lc.idx_to_lvl(v.idx);
            if lvl.fst < tc.bound.len() {
                proof {
                    assert(lc@[lvl.fst as int] == tc@[lvl.fst as int].len());
                    assert(tc@[lvl.fst as int][lvl.snd as int].1 == tc.bound@[lvl.fst as int]@[lvl.snd as int].typ@);
                }
                let k = (lc.len() - tc.bound.len()) as isize;
                let typ = tc.bound[lvl.fst][lvl.snd].typ.shift((k, 0));
                let rest = fvc_exp(&typ, lc, tc, Ghost(rank(tc@, lvl)));
                let ctx = LevelCtx { bound: lc.bound.clone() };
                let fv = FreeVar { name: v.name.clone(), lvl, typ: Box::new(typ), ctx };
                let mut one = FreeVars::new();
                one.insert(fv);
                assert(one@ =~= seq![(v.name@, lvl, type_in(tc@, lvl, lc@), lc@)]);
                one.union(rest)
            } else {
                FreeVars::new()
            }
        },
        Exp::TypCtor(t) => {
            assert(t@.args == t.args@);
            fvc_args(&t.args.args, lc, tc, Ghost(fuel))
        },
        Exp::Call(c) => {
            assert(e@ matches Term::Call { args, .. } && args == c.args@);
            fvc_args(&c.args.args, lc, tc, Ghost(fuel))
        },
        Exp::DotCall(d) => {
            assert(e@ matches Term::DotCall { args, .. } && args == d.args@);
            let a = fvc_exp(&d.exp, lc, tc, Ghost(fuel));
            let b = fvc_args(&d.args.args, lc, tc, Ghost(fuel));
            a.union(b)
        },
        Exp::Anno(a) => {
            let x = fvc_exp(&a.exp, lc, tc, Ghost(fuel));
            let y = fvc_exp(&a.typ, lc, tc, Ghost(fuel));
            x.union(y)
        },
        Exp::TypeUniv(_) => FreeVars::new(),
        Exp::LocalMatch(m) => {
            let cases = fvc_match(&m.body, lc, tc, Ghost(fuel));
            let on = fvc_exp(&m.on_exp, lc, tc, Ghost(fuel));
            let mot = match &m.motive {
                Some(mo) => {
                    assert(opt_motive_view(m.motive) == Some(motive_view(*mo)));
                    lc.bind(1);
                    let r = fvc_exp(&mo.ret_typ, lc, tc, Ghost(fuel));
                    lc.unbind();
                    assert(lc@ =~= old(lc)@);
                    r
                },
                None => FreeVars::new(),
            };
            cases.union(on).union(mot)
        },
        Exp::LocalComatch(m) => fvc_match(&m.body, lc, tc, Ghost(fuel)),
        Exp::Hole(_) => FreeVars::new(),
    }
}

/// The union, from left to right, of the closures of the arguments.
#[verifier::loop_isolation(false)]
fn fvc_args(s: &Vec<Exp>, lc: &mut LevelCtx, tc: &TypeCtx, Ghost(fuel): Ghost<nat>) -> (r: FreeVars)
    requires
        extends(old(lc)@, tc@),
        forall|i: int| 0 <= i < s@.len() ==> fvc_ok(#[trigger] args_view(s@)[i], old(lc)@, tc@, fuel),
    ensures
        final(lc)@ == old(lc)@,
        r@ == fvc_terms(args_view(s@), old(lc)@, tc@, fuel),
    decreases fuel, s,
{
    let ghost ts = args_view(s@);
    let mut acc = FreeVars::new();
    let mut i: usize = 0;
    assert(ts.subrange(0, 0) =~= Seq::<Term>::empty());
    while i < s.len()
        invariant
            i <= s@.len(),
            lc@ == old(lc)@,
            acc@ == fvc_terms(ts.subrange(0, i as int), old(lc)@, tc@, fuel),
        decreases s@.len() - i,
    {
        proof {
            assert(decreases_to!(s@ => s@[i as int]));
            assert(ts[i as int] == s@[i as int]@);
        }
        let x = fvc_exp(&s[i], lc, tc, Ghost(fuel));
        proof {
            let sub = ts.subrange(0, i + 1);
            assert(sub.subrange(0, sub.len() - 1) =~= ts.subrange(0, i as int));
            assert(sub[sub.len() - 1] == ts[i as int]);
        }
        acc = acc.union(x);
        i += 1;
    }
    assert(ts.subrange(0, s@.len() as int) =~= ts);
    acc
}

/// The union, from left to right, of the closures of the clause bodies.
#[verifier::loop_isolation(false)]
fn fvc_match(m: &Match, lc: &mut LevelCtx, tc: &TypeCtx, Ghost(fuel): Ghost<nat>) -> (r: FreeVars)
    requires
        extends(old(lc)@, tc@),
        forall|i: int|
            0 <= i < m@.cases.len() ==> match #[trigger] m@.cases[i].body {
                Some(b) => fvc_ok(*b, old(lc)@.push(m@.cases[i].params.len() as usize), tc@, fuel),
                None => true,
            },
    ensures
        final(lc)@ == old(lc)@,
        r@ == fvc_cases(m@.cases, old(lc)@, tc@, fuel),
    decreases fuel, m,
{
    let ghost cs = m@.cases;
    let mut acc = FreeVars::new();
    let mut i: usize = 0;
    assert(cs.subrange(0, 0) =~= Seq::<CaseM>::empty());
    while i < m.cases.len()
        invariant
            i <= m.cases@.len(),
            cs.len() == m.cases@.len(),
            lc@ == old(lc)@,
            acc@ == fvc_cases(cs.subrange(0, i as int), old(lc)@, tc@, fuel),
        decreases m.cases@.len() - i,
    {
        proof {
            assert(decreases_to!(m.cases@ => m.cases@[i as int]));
        }
        let c: &Case = &m.cases[i];
        assert(cs[i as int] == case_view(*c));
        assert(cs[i as int].body == opt_view(c.body));
        assert(cs[i as int].params.len() == c.params.params@.len());
        let x = match &c.body {
            Some(b) => {
                lc.bind(c.params.params.len());
                let r = fvc_exp(b, lc, tc, Ghost(fuel));
                lc.unbind();
                assert(lc@ =~= old(lc)@);
                r
            },
            None => FreeVars::new(),
        };
        proof {
            let sub = cs.subrange(0, i + 1);
            assert(sub.subrange(0, sub.len() - 1) =~= cs.subrange(0, i as int));
            assert(sub[sub.len() - 1] == cs[i as int]);
        }
        acc = acc.union(x);
        i += 1;
    }
    assert(cs.subrange(0, cs.len() as int) =~= cs);
    acc
}

/// Syntax whose free variables can be collected, closed under the
/// dependencies of their types.
pub trait FV {
    /// Whether the closure is defined under `lc` in `tc`.
    spec fn closure_defined_in(&self, lc: Seq<usize>, tc: TypeCtxM) -> bool;

    /// The closure under `lc` in `tc`.
    spec fn closure_in(&self, lc: Seq<usize>, tc: TypeCtxM) -> Seq<FreeVarM>;

    /// The free variables of `self` under `lvl_ctx` that `type_ctx` binds,
    /// each with its type, closed under the dependencies of their types.
    fn free_vars_closure(&self, lvl_ctx: LevelCtx, type_ctx: &TypeCtx) -> (r: FreeVars)
        requires
            self.closure_defined_in(lvl_ctx@, type_ctx@),
        ensures
            r@ == self.closure_in(lvl_ctx@, type_ctx@),
            all_in_ctx(r@, type_ctx@),
            lvls_unique(r@),
    ;
}

impl FV for Exp {
    open spec fn closure_defined_in(&self, lc: Seq<usize>, tc: TypeCtxM) -> bool {
        closure_defined(self@, lc, tc)
    }

    open spec fn closure_in(&self, lc: Seq<usize>, tc: TypeCtxM) -> Seq<FreeVarM> {
        free_vars_closure_spec(self@, lc, tc)
    }

    fn free_vars_closure(&self, lvl_ctx: LevelCtx, type_ctx: &TypeCtx) -> (r: FreeVars) {
        proof {
            lemma_closure_in_ctx(self@, lvl_ctx@, type_ctx@);
        }
        let mut lc = lvl_ctx;
        fvc_exp(self, &mut lc, type_ctx, Ghost(ctx_size(type_ctx@)))
    }
}

/// The closure of the free variables of `arg`, which stands in the context
/// `ctx`, under the dependencies of their types.
pub fn free_vars_closure(arg: &Exp, ctx: &TypeCtx) -> (r: FreeVars)
    requires
        closure_defined(arg@, sizes(ctx@), ctx@),
    ensures
        r@ == free_vars_closure_spec(arg@, sizes(ctx@), ctx@),
        all_in_ctx(r@, ctx@),
        lvls_unique(r@),
{
    arg.free_vars_closure(ctx.levels(), ctx)
}

// ---------------------------------------------------------------------------
// Laws
// ---------------------------------------------------------------------------

/// A collected variable is bound in the type context, and its type is the
/// type that the context gives it, read in the context where it was met.
pub open spec fn fv_in_ctx(x: FreeVarM, tc: TypeCtxM) -> bool {
    &&& x.1.fst < tc.len()
    &&& x.1.snd < tc[x.1.fst as int].len()
    &&& x.2 == type_in(tc, x.1, x.3)
}

pub open spec fn all_in_ctx(s: Seq<FreeVarM>, tc: TypeCtxM) -> bool {
    forall|i: int| 0 <= i < s.len() ==> fv_in_ctx(#[trigger] s[i], tc)
}

proof fn lemma_insert_fv(a: Seq<FreeVarM>, x: FreeVarM)
    ensures
        forall|i: int|
            0 <= i < insert_fv(a, x).len() ==> (#[trigger] insert_fv(a, x)[i] == x || a.contains(insert_fv(a, x)[i])),
        forall|l: Lvl| has_lvl(insert_fv(a, x), l) <==> (has_lvl(a, l) || x.1 == l),
        lvls_unique(a) ==> lvls_unique(insert_fv(a, x)),
{
    let r = insert_fv(a, x);
    if !has_lvl(a, x.1) {
        assert forall|i: int| 0 <= i < r.len() implies (#[trigger] r[i] == x || a.contains(r[i])) by {
            if i < a.len() {
                assert(r[i] == a[i]);
            }
        }
        assert forall|l: Lvl| has_lvl(r, l) <==> (has_lvl(a, l) || x.1 == l) by {
            if has_lvl(r, l) {
                let i = choose|i: int| 0 <= i < r.len() && (#[trigger] r[i]).1 == l;
                if i < a.len() {
                    assert(a[i].1 == l);
                }
            }
            if has_lvl(a, l) {
                let i = choose|i: int| 0 <= i < a.len() && (#[trigger] a[i]).1 == l;
                assert(r[i].1 == l);
            }
            if x.1 == l {
                assert(r[a.len() as int].1 == l);
            }
        }
    } else {
        assert forall|i: int| 0 <= i < r.len() implies (#[trigger] r[i] == x || a.contains(r[i])) by {
            assert(r[i] == a[i]);
        }
    }
}

/// What the union of two sets holds: variables of either, and each level of
/// either; where the first set tells variables apart by their levels, so does
/// the union.
pub proof fn lemma_union_fvs(a: Seq<FreeVarM>, b: Seq<FreeVarM>)
    ensures
        forall|i: int|
            0 <= i < union_fvs(a, b).len() ==> a.contains(#[trigger] union_fvs(a, b)[i]) || b.contains(
                union_fvs(a, b)[i],
            ),
        forall|l: Lvl| has_lvl(union_fvs(a, b), l) <==> (has_lvl(a, l) || has_lvl(b, l)),
        lvls_unique(a) ==> lvls_unique(union_fvs(a, b)),
    decreases b.len(),
{
    if b.len() > 0 {
        let a2 = insert_fv(a, b[0]);
        let b2 = b.drop_first();
        lemma_insert_fv(a, b[0]);
        lemma_union_fvs(a2, b2);
        let r = union_fvs(a, b);
        assert(r == union_fvs(a2, b2));
        assert forall|i: int| 0 <= i < r.len() implies a.contains(#[trigger] r[i]) || b.contains(r[i]) by {
            if a2.contains(r[i]) {
                let j = choose|j: int| 0 <= j < a2.len() && a2[j] == r[i];
                if a2[j] == b[0] {
                    assert(b[0] == r[i]);
                } else {
                    assert(a.contains(a2[j]));
                }
            } else {
                let j = choose|j: int| 0 <= j < b2.len() && b2[j] == r[i];
                assert(b[j + 1] == r[i]);
            }
        }
        assert forall|l: Lvl| has_lvl(r, l) <==> (has_lvl(a, l) || has_lvl(b, l)) by {
            if has_lvl(b, l) {
                let j = choose|j: int| 0 <= j < b.len() && (#[trigger] b[j]).1 == l;
                if j > 0 {
                    assert(b2[j - 1].1 == l);
                }
            }
            if has_lvl(b2, l) {
                let j = choose|j: int| 0 <= j < b2.len() && (#[trigger] b2[j]).1 == l;
                assert(b[j + 1].1 == l);
            }
        }
    }
}

proof fn lemma_union_in_ctx(a: Seq<FreeVarM>, b: Seq<FreeVarM>, tc: TypeCtxM)
    requires
        all_in_ctx(a, tc),
        all_in_ctx(b, tc),
        lvls_unique(a),
    ensures
        all_in_ctx(union_fvs(a, b), tc),
        lvls_unique(union_fvs(a, b)),
{
    lemma_union_fvs(a, b);
    let r = union_fvs(a, b);
    assert forall|i: int| 0 <= i < r.len() implies fv_in_ctx(#[trigger] r[i], tc) by {
        if a.contains(r[i]) {
            let j = choose|j: int| 0 <= j < a.len() && a[j] == r[i];
            assert(fv_in_ctx(a[j], tc));
        } else {
            let j = choose|j: int| 0 <= j < b.len() && b[j] == r[i];
            assert(fv_in_ctx(b[j], tc));
        }
    }
}

proof fn lemma_extends_push(lc: Seq<usize>, tc: TypeCtxM, n: usize)
    requires
        extends(lc, tc),
    ensures
        extends(lc.push(n), tc),
{
    assert forall|i: int| 0 <= i < tc.len() implies #[trigger] lc.push(n)[i] == tc[i].len() by {
        assert(lc[i] == tc[i].len());
    }
}

proof fn lemma_fvc_term_in_ctx(t: Term, lc: Seq<usize>, tc: TypeCtxM, fuel: nat)
    requires
        extends(lc, tc),
        fvc_ok(t, lc, tc, fuel),
    ensures
        all_in_ctx(fvc_term(t, lc, tc, fuel), tc),
        lvls_unique(fvc_term(t, lc, tc, fuel)),
    decreases fuel, t,
{
    match t {
        Term::Variable { idx, name, .. } => {
            let lvl = idx_to_lvl_spec(lc, idx);
            if lvl.fst < tc.len() && rank(tc, lvl) < fuel {
                let typ = type_in(tc, lvl, lc);
                assert(lc[lvl.fst as int] == tc[lvl.fst as int].len());
                lemma_fvc_term_in_ctx(typ, lc, tc, rank(tc, lvl));
                lemma_union_in_ctx(seq![(name, lvl, typ, lc)], fvc_term(typ, lc, tc, rank(tc, lvl)), tc);
            }
        },
        Term::TypCtor(c) => lemma_fvc_terms_in_ctx(c.args, lc, tc, fuel),
        Term::Call { args, .. } => lemma_fvc_terms_in_ctx(args, lc, tc, fuel),
        Term::DotCall { exp, args, .. } => {
            lemma_fvc_term_in_ctx(*exp, lc, tc, fuel);
            lemma_fvc_terms_in_ctx(args, lc, tc, fuel);
            lemma_union_in_ctx(fvc_term(*exp, lc, tc, fuel), fvc_terms(args, lc, tc, fuel), tc);
        },
        Term::Anno { exp, typ, .. } => {
            lemma_fvc_term_in_ctx(*exp, lc, tc, fuel);
            lemma_fvc_term_in_ctx(*typ, lc, tc, fuel);
            lemma_union_in_ctx(fvc_term(*exp, lc, tc, fuel), fvc_term(*typ, lc, tc, fuel), tc);
        },
        Term::LocalMatch { on_exp, motive, body, .. } => {
            lemma_fvc_cases_in_ctx(body.cases, lc, tc, fuel);
            lemma_fvc_term_in_ctx(*on_exp, lc, tc, fuel);
            let a = fvc_cases(body.cases, lc, tc, fuel);
            let b = fvc_term(*on_exp, lc, tc, fuel);
            lemma_union_in_ctx(a, b, tc);
            let m = match motive {
                Some(mo) => fvc_term(*mo.ret_typ, lc.push(1), tc, fuel),
                None => Seq::empty(),
            };
            if let Some(mo) = motive {
                lemma_extends_push(lc, tc, 1);
                lemma_fvc_term_in_ctx(*mo.ret_typ, lc.push(1), tc, fuel);
            }
            lemma_union_in_ctx(union_fvs(a, b), m, tc);
        },
        Term::LocalComatch { body, .. } => lemma_fvc_cases_in_ctx(body.cases, lc, tc, fuel),
        _ => {},
    }
}

proof fn lemma_fvc_terms_in_ctx(s: Seq<Term>, lc: Seq<usize>, tc: TypeCtxM, fuel: nat)
    requires
        extends(lc, tc),
        forall|i: int| 0 <= i < s.len() ==> fvc_ok(#[trigger] s[i], lc, tc, fuel),
    ensures
        all_in_ctx(fvc_terms(s, lc, tc, fuel), tc),
        lvls_unique(fvc_terms(s, lc, tc, fuel)),
    decreases fuel, s,
{
    if s.len() > 0 {
        let init = s.subrange(0, s.len() - 1);
        assert forall|i: int| 0 <= i < init.len() implies fvc_ok(#[trigger] init[i], lc, tc, fuel) by {
            assert(init[i] == s[i]);
        }
        lemma_fvc_terms_in_ctx(init, lc, tc, fuel);
        lemma_fvc_term_in_ctx(s[s.len() - 1], lc, tc, fuel);
        lemma_union_in_ctx(fvc_terms(init, lc, tc, fuel), fvc_term(s[s.len() - 1], lc, tc, fuel), tc);
    }
}

proof fn lemma_fvc_cases_in_ctx(cs: Seq<CaseM>, lc: Seq<usize>, tc: TypeCtxM, fuel: nat)
    requires
        extends(lc, tc),
        forall|i: int|
            0 <= i < cs.len() ==> match #[trigger] cs[i].body {
                Some(b) => fvc_ok(*b, lc.push(cs[i].params.len() as usize), tc, fuel),
                None => true,
            },
    ensures
        all_in_ctx(fvc_cases(cs, lc, tc, fuel), tc),
        lvls_unique(fvc_cases(cs, lc, tc, fuel)),
    decreases fuel, cs,
{
    if cs.len() > 0 {
        let init = cs.subrange(0, cs.len() - 1);
        assert forall|i: int|
            0 <= i < init.len() implies match #[trigger] init[i].body {
            Some(b) => fvc_ok(*b, lc.push(init[i].params.len() as usize), tc, fuel),
            None => true,
        } by {
            assert(init[i] == cs[i]);
        }
        lemma_fvc_cases_in_ctx(init, lc, tc, fuel);
        let last = cs[cs.len() - 1];
        let x = match last.body {
            Some(b) => fvc_term(*b, lc.push(last.params.len() as usize), tc, fuel),
            None => Seq::empty(),
        };
        if let Some(b) = last.body {
            lemma_extends_push(lc, tc, last.params.len() as usize);
            lemma_fvc_term_in_ctx(*b, lc.push(last.params.len() as usize), tc, fuel);
        }
        lemma_union_in_ctx(fvc_cases(init, lc, tc, fuel), x, tc);
    }
}

/// The closure is a set of variables of the type context: each collected
/// variable is bound there, has there the type that it was collected with, and
/// no two collected variables have the same level.
pub proof fn lemma_closure_in_ctx(t: Term, lc: Seq<usize>, tc: TypeCtxM)
    requires
        closure_defined(t, lc, tc),
    ensures
        all_in_ctx(free_vars_closure_spec(t, lc, tc), tc),
        lvls_unique(free_vars_closure_spec(t, lc, tc)),
{
    lemma_fvc_term_in_ctx(t, lc, tc, ctx_size(tc));
}

/// Whether the variable at level `l` occurs free in `t` under `lc`: clause
/// bodies and the return type of a motive are inspected under their binders.
pub open spec fn fv_occurs(t: Term, lc: Seq<usize>, l: Lvl) -> bool
    decreases t,
{
    match t {
        Term::Variable { idx, .. } => idx_to_lvl_spec(lc, idx) == l,
        Term::TypCtor(c) => exists|i: int| 0 <= i < c.args.len() && fv_occurs(#[trigger] c.args[i], lc, l),
        Term::Call { args, .. } => exists|i: int| 0 <= i < args.len() && fv_occurs(#[trigger] args[i], lc, l),
        Term::DotCall { exp, args, .. } => {
            ||| fv_occurs(*exp, lc, l)
            ||| exists|i: int| 0 <= i < args.len() && fv_occurs(#[trigger] args[i], lc, l)
        },
        Term::Anno { exp, typ, .. } => fv_occurs(*exp, lc, l) || fv_occurs(*typ, lc, l),
        Term::TypeUniv { .. } => false,
        Term::LocalMatch { on_exp, motive, body, .. } => {
            ||| exists|i: int| 0 <= i < body.cases.len() && case_occurs(#[trigger] body.cases[i], lc, l)
            ||| fv_occurs(*on_exp, lc, l)
            ||| match motive {
                Some(m) => fv_occurs(*m.ret_typ, lc.push(1), l),
                None => false,
            }
        },
        Term::LocalComatch { body, .. } => exists|i: int| 0 <= i < body.cases.len() && case_occurs(#[trigger] body.cases[i], lc, l),
        Term::Hole { .. } => false,
    }
}

/// Whether the variable occurs free in the body of the clause, under the
/// telescope of the clause.
pub open spec fn case_occurs(c: CaseM, lc: Seq<usize>, l: Lvl) -> bool
    decreases c,
{
    match c.body {
        Some(b) => fv_occurs(*b, lc.push(c.params.len() as usize), l),
        None => false,
    }
}

/// Every variable of the context that occurs in the type of a variable of
/// `s` has its level in `r`.
pub open spec fn closed_in(s: Seq<FreeVarM>, r: Seq<FreeVarM>, tc: TypeCtxM) -> bool {
    forall|i: int, l: Lvl|
        0 <= i < s.len() && l.fst < tc.len() && #[trigger] fv_occurs(s[i].2, s[i].3, l) ==> has_lvl(r, l)
}

proof fn lemma_union_closed(
    a: Seq<FreeVarM>,
    b: Seq<FreeVarM>,
    ra: Seq<FreeVarM>,
    rb: Seq<FreeVarM>,
    tc: TypeCtxM,
)
    requires
        closed_in(a, ra, tc),
        closed_in(b, rb, tc),
        forall|l: Lvl| has_lvl(ra, l) ==> has_lvl(union_fvs(a, b), l),
        forall|l: Lvl| has_lvl(rb, l) ==> has_lvl(union_fvs(a, b), l),
    ensures
        closed_in(union_fvs(a, b), union_fvs(a, b), tc),
{
    lemma_union_fvs(a, b);
    let r = union_fvs(a, b);
    assert forall|i: int, l: Lvl|
        0 <= i < r.len() && l.fst < tc.len() && #[trigger] fv_occurs(r[i].2, r[i].3, l) implies has_lvl(r, l) by {
        if a.contains(r[i]) {
            let j = choose|j: int| 0 <= j < a.len() && a[j] == r[i];
            assert(fv_occurs(a[j].2, a[j].3, l));
            assert(has_lvl(ra, l));
        } else {
            let j = choose|j: int| 0 <= j < b.len() && b[j] == r[i];
            assert(fv_occurs(b[j].2, b[j].3, l));
            assert(has_lvl(rb, l));
        }
    }
}

proof fn lemma_fvc_term_closed(t: Term, lc: Seq<usize>, tc: TypeCtxM, fuel: nat)
    requires
        extends(lc, tc),
        fvc_ok(t, lc, tc, fuel),
    ensures
        forall|l: Lvl| l.fst < tc.len() && #[trigger] fv_occurs(t, lc, l) ==> has_lvl(fvc_term(t, lc, tc, fuel), l),
        closed_in(fvc_term(t, lc, tc, fuel), fvc_term(t, lc, tc, fuel), tc),
    decreases fuel, t,
{
    let r = fvc_term(t, lc, tc, fuel);
    match t {
        Term::Variable { idx, name, .. } => {
            let lvl = idx_to_lvl_spec(lc, idx);
            if lvl.fst < tc.len() && rank(tc, lvl) < fuel {
                let typ = type_in(tc, lvl, lc);
                let x = (name, lvl, typ, lc);
                let f = fvc_term(typ, lc, tc, rank(tc, lvl));
                lemma_fvc_term_closed(typ, lc, tc, rank(tc, lvl));
                lemma_union_fvs(seq![x], f);
                assert(seq![x][0].1 == lvl);
                assert(closed_in(seq![x], f, tc)) by {
                    assert forall|i: int, l: Lvl|
                        0 <= i < seq![x].len() && l.fst < tc.len() && #[trigger] fv_occurs(
                            seq![x][i].2,
                            seq![x][i].3,
                            l,
                        ) implies has_lvl(f, l) by {
                        assert(seq![x][i] == x);
                    }
                }
                lemma_union_closed(seq![x], f, f, f, tc);
                assert(has_lvl(seq![x], lvl));
                assert(has_lvl(r, lvl));
            }
            assert forall|l: Lvl| l.fst < tc.len() && fv_occurs(t, lc, l) implies has_lvl(
                fvc_term(t, lc, tc, fuel),
                l,
            ) by {
                assert(l == lvl);
                assert(lvl.fst < tc.len() && rank(tc, lvl) < fuel);
                assert(has_lvl(r, lvl));
            }
        },
        Term::TypCtor(c) => {
            lemma_fvc_terms_closed(c.args, lc, tc, fuel);
            assert forall|l: Lvl| l.fst < tc.len() && fv_occurs(t, lc, l) implies has_lvl(r, l) by {
                let i = choose|i: int| 0 <= i < c.args.len() && fv_occurs(#[trigger] c.args[i], lc, l);
            }
        },
        Term::Call { args, .. } => {
            lemma_fvc_terms_closed(args, lc, tc, fuel);
            assert forall|l: Lvl| l.fst < tc.len() && fv_occurs(t, lc, l) implies has_lvl(r, l) by {
                let i = choose|i: int| 0 <= i < args.len() && fv_occurs(#[trigger] args[i], lc, l);
            }
        },
        Term::DotCall { exp, args, .. } => {
            let a = fvc_term(*exp, lc, tc, fuel);
            let b = fvc_terms(args, lc, tc, fuel);
            assert forall|l: Lvl| l.fst < tc.len() && fv_occurs(t, lc, l) implies has_lvl(r, l) by {
                lemma_fvc_term_closed(*exp, lc, tc, fuel);
                lemma_fvc_terms_closed(args, lc, tc, fuel);
                lemma_union_fvs(a, b);
                if fv_occurs(*exp, lc, l) {
                    assert(has_lvl(a, l));
                } else {
                    let i = choose|i: int| 0 <= i < args.len() && fv_occurs(#[trigger] args[i], lc, l);
                    assert(has_lvl(b, l));
                }
            }
            lemma_fvc_term_closed(*exp, lc, tc, fuel);
            lemma_fvc_terms_closed(args, lc, tc, fuel);
            lemma_union_fvs(a, b);
            lemma_union_closed(a, b, a, b, tc);
        },
        Term::Anno { exp, typ, .. } => {
            let a = fvc_term(*exp, lc, tc, fuel);
            let b = fvc_term(*typ, lc, tc, fuel);
            lemma_fvc_term_closed(*exp, lc, tc, fuel);
            lemma_fvc_term_closed(*typ, lc, tc, fuel);
            lemma_union_fvs(a, b);
            lemma_union_closed(a, b, a, b, tc);
            assert forall|l: Lvl| l.fst < tc.len() && fv_occurs(t, lc, l) implies has_lvl(r, l) by {
                if fv_occurs(*exp, lc, l) {
                    assert(has_lvl(a, l));
                } else {
                    assert(fv_occurs(*typ, lc, l));
                    assert(has_lvl(b, l));
                }
            }
        },
        Term::LocalMatch { on_exp, motive, body, .. } => {
            let a = fvc_cases(body.cases, lc, tc, fuel);
            let b = fvc_term(*on_exp, lc, tc, fuel);
            lemma_fvc_cases_closed(body.cases, lc, tc, fuel);
            lemma_fvc_term_closed(*on_exp, lc, tc, fuel);
            lemma_union_fvs(a, b);
            lemma_union_closed(a, b, a, b, tc);
            let ab = union_fvs(a, b);
            let m = match motive {
                Some(mo) => fvc_term(*mo.ret_typ, lc.push(1), tc, fuel),
                None => Seq::empty(),
            };
            if let Some(mo) = motive {
                lemma_extends_push(lc, tc, 1);
                lemma_fvc_term_closed(*mo.ret_typ, lc.push(1), tc, fuel);
            }
            lemma_union_fvs(ab, m);
            lemma_union_closed(ab, m, ab, m, tc);
            assert forall|l: Lvl| l.fst < tc.len() && fv_occurs(t, lc, l) implies has_lvl(r, l) by {
                if exists|i: int| 0 <= i < body.cases.len() && case_occurs(#[trigger] body.cases[i], lc, l) {
                    let i = choose|i: int| 0 <= i < body.cases.len() && case_occurs(#[trigger] body.cases[i], lc, l);
                    assert(has_lvl(a, l));
                    assert(has_lvl(ab, l));
                }
                if fv_occurs(*on_exp, lc, l) {
                    assert(has_lvl(b, l));
                    assert(has_lvl(ab, l));
                }
                if let Some(mo) = motive {
                    if fv_occurs(*mo.ret_typ, lc.push(1), l) {
                        assert(has_lvl(m, l));
                    }
                }
            }
        },
        Term::LocalComatch { body, .. } => {
            lemma_fvc_cases_closed(body.cases, lc, tc, fuel);
            assert forall|l: Lvl| l.fst < tc.len() && fv_occurs(t, lc, l) implies has_lvl(r, l) by {
                let i = choose|i: int| 0 <= i < body.cases.len() && case_occurs(#[trigger] body.cases[i], lc, l);
            }
        },
        _ => {},
    }
}

proof fn lemma_fvc_terms_closed(s: Seq<Term>, lc: Seq<usize>, tc: TypeCtxM, fuel: nat)
    requires
        extends(lc, tc),
        forall|i: int| 0 <= i < s.len() ==> fvc_ok(#[trigger] s[i], lc, tc, fuel),
    ensures
        forall|i: int, l: Lvl|
            0 <= i < s.len() && l.fst < tc.len() && #[trigger] fv_occurs(s[i], lc, l) ==> has_lvl(
                fvc_terms(s, lc, tc, fuel),
                l,
            ),
        closed_in(fvc_terms(s, lc, tc, fuel), fvc_terms(s, lc, tc, fuel), tc),
    decreases fuel, s,
{
    if s.len() > 0 {
        let init = s.subrange(0, s.len() - 1);
        let last = s[s.len() - 1];
        assert forall|i: int| 0 <= i < init.len() implies fvc_ok(#[trigger] init[i], lc, tc, fuel) by {
            assert(init[i] == s[i]);
        }
        lemma_fvc_terms_closed(init, lc, tc, fuel);
        lemma_fvc_term_closed(last, lc, tc, fuel);
        let a = fvc_terms(init, lc, tc, fuel);
        let b = fvc_term(last, lc, tc, fuel);
        lemma_union_fvs(a, b);
        lemma_union_closed(a, b, a, b, tc);
        assert forall|i: int, l: Lvl|
            0 <= i < s.len() && l.fst < tc.len() && #[trigger] fv_occurs(s[i], lc, l) implies has_lvl(
            union_fvs(a, b),
            l,
        ) by {
            if i < s.len() - 1 {
                assert(init[i] == s[i]);
                assert(has_lvl(a, l));
            } else {
                assert(has_lvl(b, l));
            }
        }
    }
}

proof fn lemma_fvc_cases_closed(cs: Seq<CaseM>, lc: Seq<usize>, tc: TypeCtxM, fuel: nat)
    requires
        extends(lc, tc),
        forall|i: int|
            0 <= i < cs.len() ==> match #[trigger] cs[i].body {
                Some(b) => fvc_ok(*b, lc.push(cs[i].params.len() as usize), tc, fuel),
                None => true,
            },
    ensures
        forall|i: int, l: Lvl|
            0 <= i < cs.len() && l.fst < tc.len() && #[trigger] case_occurs(cs[i], lc, l) ==> has_lvl(fvc_cases(cs, lc, tc, fuel), l),
        closed_in(fvc_cases(cs, lc, tc, fuel), fvc_cases(cs, lc, tc, fuel), tc),
    decreases fuel, cs,
{
    if cs.len() > 0 {
        let init = cs.subrange(0, cs.len() - 1);
        assert forall|i: int|
            0 <= i < init.len() implies match #[trigger] init[i].body {
            Some(b) => fvc_ok(*b, lc.push(init[i].params.len() as usize), tc, fuel),
            None => true,
        } by {
            assert(init[i] == cs[i]);
        }
        lemma_fvc_cases_closed(init, lc, tc, fuel);
        let last = cs[cs.len() - 1];
        let x = match last.body {
            Some(b) => fvc_term(*b, lc.push(last.params.len() as usize), tc, fuel),
            None => Seq::empty(),
        };
        if let Some(b) = last.body {
            lemma_extends_push(lc, tc, last.params.len() as usize);
            lemma_fvc_term_closed(*b, lc.push(last.params.len() as usize), tc, fuel);
        }
        let a = fvc_cases(init, lc, tc, fuel);
        lemma_union_fvs(a, x);
        lemma_union_closed(a, x, a, x, tc);
        assert forall|i: int, l: Lvl|
            0 <= i < cs.len() && l.fst < tc.len() && #[trigger] case_occurs(cs[i], lc, l) implies has_lvl(union_fvs(a, x), l) by {
            if i < cs.len() - 1 {
                assert(init[i] == cs[i]);
                assert(has_lvl(a, l));
            } else {
                assert(cs[i] == last);
                if let Some(b) = last.body {
                    assert(fv_occurs(*b, lc.push(last.params.len() as usize), l));
                }
                assert(has_lvl(x, l));
            }
        }
    }
}

/// The closure holds every variable of the type context that occurs free in
/// the expression, and, with each variable that it holds, every variable of
/// the type context that occurs in its type.
pub proof fn lemma_closure_closed(t: Term, lc: Seq<usize>, tc: TypeCtxM)
    requires
        closure_defined(t, lc, tc),
    ensures
        forall|l: Lvl|
            l.fst < tc.len() && #[trigger] fv_occurs(t, lc, l) ==> has_lvl(free_vars_closure_spec(t, lc, tc), l),
        closed_in(free_vars_closure_spec(t, lc, tc), free_vars_closure_spec(t, lc, tc), tc),
{
    lemma_fvc_term_closed(t, lc, tc, ctx_size(tc));
}

proof fn lemma_union_disjoint(a: Seq<FreeVarM>, b: Seq<FreeVarM>)
    requires
        lvls_unique(b),
        forall|i: int, j: int| 0 <= i < a.len() && 0 <= j < b.len() ==> (#[trigger] a[i]).1 != (#[trigger] b[j]).1,
    ensures
        union_fvs(a, b) == a + b,
    decreases b.len(),
{
    if b.len() == 0 {
        assert(a + b =~= a);
    } else {
        let b2 = b.drop_first();
        assert(!has_lvl(a, b[0].1)) by {
            if has_lvl(a, b[0].1) {
                let i = choose|i: int| 0 <= i < a.len() && (#[trigger] a[i]).1 == b[0].1;
                assert(a[i].1 != b[0].1);
            }
        }
        let a2 = a.push(b[0]);
        assert(insert_fv(a, b[0]) == a2);
        assert forall|i: int, j: int| 0 <= i < a2.len() && 0 <= j < b2.len() implies (#[trigger] a2[i]).1 != (
        #[trigger] b2[j]).1 by {
            assert(b2[j] == b[j + 1]);
            if i < a.len() {
                assert(a2[i] == a[i]);
            } else {
                assert(a2[i] == b[0]);
            }
        }
        assert forall|i: int, j: int|
            0 <= i < b2.len() && 0 <= j < b2.len() && i != j implies (#[trigger] b2[i]).1 != (#[trigger] b2[j]).1 by {
            assert(b2[i] == b[i + 1] && b2[j] == b[j + 1]);
        }
        lemma_union_disjoint(a2, b2);
        assert(a2 + b2 =~= a + b);
    }
}

proof fn lemma_union_prefix(a: Seq<FreeVarM>, b: Seq<FreeVarM>)
    ensures
        a.len() <= union_fvs(a, b).len(),
        forall|i: int| 0 <= i < a.len() ==> #[trigger] union_fvs(a, b)[i] == a[i],
    decreases b.len(),
{
    if b.len() > 0 {
        let a2 = insert_fv(a, b[0]);
        lemma_union_prefix(a2, b.drop_first());
        assert forall|i: int| 0 <= i < a.len() implies #[trigger] union_fvs(a, b)[i] == a[i] by {
            assert(a2[i] == a[i]);
        }
    }
}

/// The laws of the union of sets of free variables: a level is in the union
/// exactly when it is in one of the two sets; the union keeps one variable per
/// level, the one of the first set where both have the level; the empty set
/// is a unit on either side; and the two orders of a union have the same levels.
pub proof fn lemma_union_laws(a: Seq<FreeVarM>, b: Seq<FreeVarM>)
    requires
        lvls_unique(a),
        lvls_unique(b),
    ensures
        forall|l: Lvl| has_lvl(union_fvs(a, b), l) <==> (has_lvl(a, l) || has_lvl(b, l)),
        lvls_unique(union_fvs(a, b)),
        forall|i: int| 0 <= i < a.len() ==> #[trigger] union_fvs(a, b)[i] == a[i],
        union_fvs(a, Seq::empty()) == a,
        union_fvs(Seq::empty(), b) == b,
        forall|l: Lvl| has_lvl(union_fvs(a, b), l) <==> has_lvl(union_fvs(b, a), l),
{
    lemma_union_fvs(a, b);
    lemma_union_fvs(b, a);
    lemma_union_prefix(a, b);
    lemma_union_disjoint(Seq::empty(), b);
    assert(Seq::<FreeVarM>::empty() + b =~= b);
    assert forall|l: Lvl| has_lvl(union_fvs(a, b), l) <==> has_lvl(union_fvs(b, a), l) by {
        assert(has_lvl(union_fvs(a, b), l) <==> (has_lvl(a, l) || has_lvl(b, l)));
        assert(has_lvl(union_fvs(b, a), l) <==> (has_lvl(b, l) || has_lvl(a, l)));
    }
}

} // verus!
