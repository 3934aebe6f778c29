//! First-order unification of expressions.
//!
//! A list of equations is solved with a worklist: equations are taken from
//! the end of the list; an equation whose sides are alpha-equivalent holds;
//! a variable is assigned the other side (after an occurrence check); equal
//! type constructors and calls are decomposed into equations between their
//! arguments, destructor calls additionally into an equation between their
//! destructees; distinct type constructors or calls cannot be unified.
//! Annotated expressions and all other pairs are reported as errors.
//!
//! The result is specified by [`run`], which performs the steps on the model.

use vstd::prelude::*;
use crate::de_bruijn::{Idx, Lvl, LevelCtx, idx_in_ctx, idx_to_lvl_spec};
use crate::exp::{Exp, Term, exp_view, copy_exp};
use crate::equiv::{term_eq, terms_eq, alpha_eq, lemma_term_eq_refl, lemma_term_eq_symm, lemma_term_eq_trans};
use crate::occurs::{occurs_defined, occurs_term, occurs_in};
use crate::subst::{Substitution, SubstM, subst_ok, subst_term, map_lookup, entries_view, lookup_entries, lemma_subst_empty};

verus! {

broadcast use vstd::std_specs::vec::group_vec_axioms, vstd::seq::group_seq_axioms;

/// A decision: `Yes` with evidence, or `No`.
#[derive(Debug)]
pub enum Dec<Y> {
    Yes(Y),
    No,
}

/// An equation between two expressions.
#[derive(Debug)]
pub struct Eqn {
    pub lhs: Exp,
    pub rhs: Exp,
}

impl View for Eqn {
    type V = (Term, Term);

    open spec fn view(&self) -> (Term, Term) {
        (self.lhs@, self.rhs@)
    }
}

/// A solution of equations: an assignment of expressions to de Bruijn levels.
/// No level is assigned twice.
#[derive(Debug)]
pub struct Unificator {
    map: Vec<(Lvl, Exp)>,
}

impl View for Unificator {
    type V = Seq<(Lvl, Term)>;

    closed spec fn view(&self) -> Seq<(Lvl, Term)> {
        entries_view(self.map@)
    }
}

/// Errors of unification.
#[derive(Debug)]
pub enum UnifyError {
    /// The variable occurs in the expression that it would be assigned.
    OccursCheckFailed { idx: Idx, exp: Exp },
    /// An annotated expression cannot be unified.
    UnsupportedAnnotation { exp: Exp },
    /// It cannot be decided automatically whether the two expressions unify.
    CannotDecide { lhs: Exp, rhs: Exp },
    /// More than `usize::MAX` equations were processed.
    StepLimitExceeded,
}

/// Model of a [`UnifyError`].
pub enum ErrM {
    OccursCheckFailed(Idx, Term),
    UnsupportedAnnotation(Term),
    CannotDecide(Term, Term),
    StepLimitExceeded,
}

impl View for UnifyError {
    type V = ErrM;

    open spec fn view(&self) -> ErrM {
        match self {
            UnifyError::OccursCheckFailed { idx, exp } => ErrM::OccursCheckFailed(*idx, exp@),
            UnifyError::UnsupportedAnnotation { exp } => ErrM::UnsupportedAnnotation(exp@),
            UnifyError::CannotDecide { lhs, rhs } => ErrM::CannotDecide(lhs@, rhs@),
            UnifyError::StepLimitExceeded => ErrM::StepLimitExceeded,
        }
    }
}

impl UnifyError {
    /// The variable `idx` occurs in `exp`, which it would be assigned.
    pub fn occurs_check_failed(idx: Idx, exp: Exp) -> (r: UnifyError)
        ensures
            r@ == ErrM::OccursCheckFailed(idx, exp@),
    {
        UnifyError::OccursCheckFailed { idx, exp }
    }

    /// The annotated expression `exp` cannot be unified.
    pub fn unsupported_annotation(exp: Exp) -> (r: UnifyError)
        ensures
            r@ == ErrM::UnsupportedAnnotation(exp@),
    {
        UnifyError::UnsupportedAnnotation { exp }
    }

    /// Whether `lhs` and `rhs` unify cannot be decided automatically.
    pub fn cannot_decide(lhs: Exp, rhs: Exp) -> (r: UnifyError)
        ensures
            r@ == ErrM::CannotDecide(lhs@, rhs@),
    {
        UnifyError::CannotDecide { lhs, rhs }
    }
}

// ---------------------------------------------------------------------------
// Specification
// ---------------------------------------------------------------------------

/// The state of the worklist algorithm: the equations left to solve, the
/// equations solved so far, the context and the assignment found so far.
pub struct UState {
    pub eqns: Seq<(Term, Term)>,
    pub done: Seq<(Term, Term)>,
    pub bound: Seq<usize>,
    pub unif: Seq<(Lvl, Term)>,
}

/// The result of processing one equation.
pub enum EqnM {
    /// A precondition of an operation does not hold (an unbound variable, or a
    /// number beyond the machine's integers).
    Stuck,
    Failed(ErrM),
    Yes(UState),
    No,
}

/// The result of a whole run.
pub enum Outcome {
    Unified(Seq<(Lvl, Term)>),
    NotUnifiable,
    Failed(ErrM),
}

pub enum RunM {
    Stuck,
    OutOfSteps,
    Finished(Outcome),
}

/// Whether an equation alpha-equivalent to `e` has been solved already.
pub open spec fn in_done(done: Seq<(Term, Term)>, e: (Term, Term)) -> bool {
    exists|j: int| 0 <= j < done.len() && term_eq(#[trigger] done[j].0, e.0) && term_eq(done[j].1, e.1)
}

/// The worklist with each equation of `new` appended unless it has been solved already.
pub open spec fn add_equations(eqns: Seq<(Term, Term)>, done: Seq<(Term, Term)>, new: Seq<(Term, Term)>) -> Seq<(Term, Term)>
    decreases new.len(),
{
    if new.len() == 0 {
        eqns
    } else {
        let e2 = if in_done(done, new[0]) { eqns } else { eqns.push(new[0]) };
        add_equations(e2, done, new.drop_first())
    }
}

/// The equations between corresponding arguments.
pub open spec fn zip_args(a1: Seq<Term>, a2: Seq<Term>) -> Seq<(Term, Term)> {
    let n = if a1.len() <= a2.len() { a1.len() } else { a2.len() };
    Seq::new(n, |i: int| (a1[i], a2[i]))
}

/// The assignment with the substitution applied to each assigned expression.
pub open spec fn unif_subst(u: Seq<(Lvl, Term)>, bound: Seq<usize>, s: SubstM) -> Seq<(Lvl, Term)> {
    Seq::new(u.len(), |i: int| (u[i].0, subst_term(u[i].1, bound, s)))
}

/// Whether no level is assigned twice.
pub open spec fn keys_unique(u: Seq<(Lvl, Term)>) -> bool {
    forall|i: int, j: int| 0 <= i < u.len() && 0 <= j < u.len() && i != j ==> u[i].0 != u[j].0
}

/// Assign `e` to the variable `idx`.
pub open spec fn add_assignment_spec(st: UState, idx: Idx, e: Term) -> EqnM {
    if !idx_in_ctx(st.bound, idx) || !occurs_defined(e, st.bound, idx_to_lvl_spec(st.bound, idx)) {
        EqnM::Stuck
    } else if occurs_term(e, st.bound, idx_to_lvl_spec(st.bound, idx)) {
        EqnM::Failed(ErrM::OccursCheckFailed(idx, e))
    } else if !subst_ok(e, st.bound, SubstM::Entries(st.unif)) {
        EqnM::Stuck
    } else {
        let lvl = idx_to_lvl_spec(st.bound, idx);
        let e2 = subst_term(e, st.bound, SubstM::Entries(st.unif));
        let a = SubstM::Entries(seq![(lvl, e2)]);
        if !(forall|i: int| 0 <= i < st.unif.len() ==> subst_ok(#[trigger] st.unif[i].1, st.bound, a)) {
            EqnM::Stuck
        } else {
            let u2 = unif_subst(st.unif, st.bound, a);
            match map_lookup(u2, lvl) {
                Some(other) => EqnM::Yes(
                    UState { unif: u2, eqns: add_equations(st.eqns, st.done, seq![(e2, other)]), ..st },
                ),
                None => EqnM::Yes(UState { unif: u2.push((lvl, e2)), ..st }),
            }
        }
    }
}

/// Process the equation `lhs = rhs`.
pub open spec fn unify_eqn_spec(st: UState, lhs: Term, rhs: Term) -> EqnM {
    if term_eq(lhs, rhs) {
        EqnM::Yes(st)
    } else {
        match (lhs, rhs) {
            (Term::Variable { idx, .. }, _) => add_assignment_spec(st, idx, rhs),
            (_, Term::Variable { idx, .. }) => add_assignment_spec(st, idx, lhs),
            (Term::TypCtor(t1), Term::TypCtor(t2)) => if t1.name == t2.name {
                EqnM::Yes(UState { eqns: add_equations(st.eqns, st.done, zip_args(t1.args, t2.args)), ..st })
            } else {
                EqnM::No
            },
            (Term::Call { name: n1, args: a1, .. }, Term::Call { name: n2, args: a2, .. }) => if n1 == n2 {
                EqnM::Yes(UState { eqns: add_equations(st.eqns, st.done, zip_args(a1, a2)), ..st })
            } else {
                EqnM::No
            },
            (
                Term::DotCall { exp: e1, name: n1, args: a1, .. },
                Term::DotCall { exp: e2, name: n2, args: a2, .. },
            ) => if n1 == n2 {
                let eqns1 = add_equations(st.eqns, st.done, seq![(*e1, *e2)]);
                EqnM::Yes(UState { eqns: add_equations(eqns1, st.done, zip_args(a1, a2)), ..st })
            } else {
                EqnM::Failed(ErrM::CannotDecide(lhs, rhs))
            },
            (Term::TypeUniv { .. }, Term::TypeUniv { .. }) => EqnM::Yes(st),
            (Term::Anno { .. }, _) => EqnM::Failed(ErrM::UnsupportedAnnotation(lhs)),
            (_, Term::Anno { .. }) => EqnM::Failed(ErrM::UnsupportedAnnotation(rhs)),
            _ => EqnM::Failed(ErrM::CannotDecide(lhs, rhs)),
        }
    }
}

/// Run the worklist algorithm for at most `fuel` steps.
pub open spec fn run(st: UState, fuel: nat) -> RunM
    decreases fuel,
{
    if st.eqns.len() == 0 {
        RunM::Finished(Outcome::Unified(st.unif))
    } else if fuel == 0 {
        RunM::OutOfSteps
    } else {
        let e = st.eqns.last();
        let st1 = UState { eqns: st.eqns.drop_last(), ..st };
        match unify_eqn_spec(st1, e.0, e.1) {
            EqnM::Stuck => RunM::Stuck,
            EqnM::Failed(err) => RunM::Finished(Outcome::Failed(err)),
            EqnM::No => RunM::Finished(Outcome::NotUnifiable),
            EqnM::Yes(st2) => run(UState { done: st2.done.push(e), ..st2 }, (fuel - 1) as nat),
        }
    }
}

/// The initial state for the equations `eqns` in the context `bound`.
pub open spec fn init_state(bound: Seq<usize>, eqns: Seq<(Term, Term)>) -> UState {
    UState { eqns, done: Seq::empty(), bound, unif: Seq::empty() }
}

pub open spec fn eqns_view(s: Seq<Eqn>) -> Seq<(Term, Term)> {
    Seq::new(s.len(), |i: int| s[i]@)
}

/// Whether the returned value corresponds to the outcome of the run.
pub open spec fn result_matches(r: Result<Dec<Unificator>, UnifyError>, m: RunM) -> bool {
    match m {
        RunM::Finished(Outcome::Unified(u)) => r matches Ok(Dec::Yes(un)) && un@ == u,
        RunM::Finished(Outcome::NotUnifiable) => r matches Ok(Dec::No),
        RunM::Finished(Outcome::Failed(e)) => r matches Err(err) && err@ == e,
        RunM::OutOfSteps => r matches Err(UnifyError::StepLimitExceeded),
        RunM::Stuck => false,
    }
}

// ---------------------------------------------------------------------------
// Implementation
// ---------------------------------------------------------------------------

impl Unificator {
    /// The assignment of nothing.
    pub fn empty() -> (u: Unificator)
        ensures
            u@ == Seq::<(Lvl, Term)>::empty(),
    {
        let u = Unificator { map: Vec::new() };
        assert(u@ =~= Seq::<(Lvl, Term)>::empty());
        u
    }

    /// The number of assigned levels.
    pub fn len(&self) -> (n: usize)
        ensures
            n == self@.len(),
    {
        self.map.len()
    }

    /// The expression assigned to `lvl`, if any. An assignment is made of
    /// levels, so it reads the same in every context.
    pub fn get_subst(&self, _ctx: &LevelCtx, lvl: Lvl) -> (r: Option<Exp>)
        ensures
            r matches Some(e) ==> map_lookup(self@, lvl) == Some(e@),
            r is None ==> map_lookup(self@, lvl) is None,
    {
        lookup_entries(&self.map, lvl)
    }

    /// The assignment as a substitution.
    pub fn as_subst(&self) -> (s: Substitution)
        ensures
            s@ == SubstM::Entries(self@),
    {
        let mut m: Vec<(Lvl, Exp)> = Vec::new();
        let mut i: usize = 0;
        while i < self.map.len()
            invariant
                i <= self.map@.len(),
                m@.len() == i,
                forall|j: int| 0 <= j < i ==> #[trigger] m@[j].0 == self.map@[j].0 && exp_view(m@[j].1) == exp_view(self.map@[j].1),
            decreases self.map@.len() - i,
        {
            let e = copy_exp(&self.map[i].1);
            m.push((self.map[i].0, e));
            i += 1;
        }
        assert(entries_view(m@) =~= entries_view(self.map@));
        Substitution::Entries(m)
    }
}

/// The state of the worklist algorithm.
struct Ctx {
    eqns: Vec<Eqn>,
    done: Vec<Eqn>,
    ctx: LevelCtx,
    unif: Unificator,
}

impl View for Ctx {
    type V = UState;

    closed spec fn view(&self) -> UState {
        UState { eqns: eqns_view(self.eqns@), done: eqns_view(self.done@), bound: self.ctx@, unif: self.unif@ }
    }
}

impl Clone for Eqn {
    fn clone(&self) -> (r: Eqn)
        ensures
            r@ == self@,
    {
        Eqn { lhs: copy_exp(&self.lhs), rhs: copy_exp(&self.rhs) }
    }
}

impl Ctx {
    /// Whether an equation alpha-equivalent to `e` has been solved already.
    #[verifier::loop_isolation(false)]
    fn is_done(&self, e: &Eqn) -> (r: bool)
        ensures
            r == in_done(self@.done, e@),
    {
        let mut j: usize = 0;
        while j < self.done.len()
            invariant
                j <= self.done@.len(),
                forall|k: int| 0 <= k < j ==> !(term_eq(#[trigger] self@.done[k].0, e@.0) && term_eq(self@.done[k].1, e@.1)),
            decreases self.done@.len() - j,
        {
            assert(self@.done[j as int] == self.done@[j as int]@);
            if alpha_eq(&self.done[j].lhs, &e.lhs) && alpha_eq(&self.done[j].rhs, &e.rhs) {
                assert(term_eq(self@.done[j as int].0, e@.0) && term_eq(self@.done[j as int].1, e@.1));
                return true;
            }
            j += 1;
        }
        false
    }

    /// Append `e` to the worklist unless it has been solved already.
    fn add_equation(&mut self, e: Eqn)
        ensures
            final(self)@ == (UState { eqns: add_equations(old(self)@.eqns, old(self)@.done, seq![e@]), ..old(self)@ }),
    {
        let ghost new = seq![e@];
        assert(new.drop_first() =~= Seq::<(Term, Term)>::empty());
        reveal_with_fuel(add_equations, 2);
        if !self.is_done(&e) {
            self.eqns.push(e);
            assert(eqns_view(self.eqns@) =~= eqns_view(old(self).eqns@).push(e@));
        }
    }

    /// Append the equations between corresponding arguments.
    #[verifier::loop_isolation(false)]
    fn add_arg_equations(&mut self, a1: &Vec<Exp>, a2: &Vec<Exp>)
        ensures
            final(self)@ == (UState {
                eqns: add_equations(old(self)@.eqns, old(self)@.done, zip_args(crate::exp::args_view(a1@), crate::exp::args_view(a2@))),
                ..old(self)@
            }),
    {
        let n = if a1.len() <= a2.len() { a1.len() } else { a2.len() };
        let ghost new = zip_args(crate::exp::args_view(a1@), crate::exp::args_view(a2@));
        assert(new.skip(0) =~= new);
        let mut i: usize = 0;
        while i < n
            invariant
                i <= n,
                n == new.len(),
                self@.done == old(self)@.done,
                self@.bound == old(self)@.bound,
                self@.unif == old(self)@.unif,
                add_equations(old(self)@.eqns, old(self)@.done, new) == add_equations(self@.eqns, self@.done, new.skip(i as int)),
            decreases n - i,
        {
            let e = Eqn { lhs: copy_exp(&a1[i]), rhs: copy_exp(&a2[i]) };
            assert(new.skip(i as int)[0] == e@);
            assert(new.skip(i as int).drop_first() =~= new.skip(i + 1));
            assert(seq![e@].drop_first() =~= Seq::<(Term, Term)>::empty());
            reveal_with_fuel(add_equations, 2);
            self.add_equation(e);
            i += 1;
        }
        assert(new.skip(n as int).len() == 0);
        reveal_with_fuel(add_equations, 1);
    }

    /// Apply the substitution to every assigned expression.
    #[verifier::loop_isolation(false)]
    fn subst_unif(&mut self, s: &Substitution)
        requires
            forall|i: int| 0 <= i < old(self)@.unif.len() ==> subst_ok(#[trigger] old(self)@.unif[i].1, old(self)@.bound, s@),
        ensures
            final(self)@ == (UState { unif: unif_subst(old(self)@.unif, old(self)@.bound, s@), ..old(self)@ }),
    {
        let mut out: Vec<(Lvl, Exp)> = Vec::new();
        let mut i: usize = 0;
        while i < self.unif.map.len()
            invariant
                i <= self.unif.map@.len(),
                out@.len() == i,
                self@ == old(self)@,
                forall|j: int| 0 <= j < i ==> #[trigger] out@[j].0 == self.unif.map@[j].0 && exp_view(out@[j].1) == subst_term(exp_view(self.unif.map@[j].1), self@.bound, s@),
            decreases self.unif.map@.len() - i,
        {
            assert(self@.unif[i as int].1 == exp_view(self.unif.map@[i as int].1));
            let e = self.unif.map[i].1.subst(&mut self.ctx, s);
            let l = self.unif.map[i].0;
            out.push((l, e));
            i += 1;
        }
        let ghost old_unif = self@.unif;
        self.unif = Unificator { map: out };
        assert(self@.unif =~= unif_subst(old_unif, old(self)@.bound, s@));
    }

    /// Assign `exp` to the variable `idx`.
    fn add_assignment(&mut self, idx: Idx, exp: Exp) -> (r: Result<Dec<()>, UnifyError>)
        requires
            !(add_assignment_spec(old(self)@, idx, exp@) is Stuck),
        ensures
            match add_assignment_spec(old(self)@, idx, exp@) {
                EqnM::Failed(e) => r matches Err(x) && x@ == e,
                EqnM::Yes(st) => r matches Ok(Dec::Yes(_)) && final(self)@ == st,
                _ => false,
            },
    {
        if occurs_in(&mut self.ctx, idx, &exp) {
            return Err(UnifyError::OccursCheckFailed { idx, exp });
        }
        let insert_lvl = self.ctx.idx_to_lvl(idx);
        let s = self.unif.as_subst();
        let exp2 = exp.subst(&mut self.ctx, &s);
        let a = Substitution::assign(insert_lvl, copy_exp(&exp2));
        self.subst_unif(&a);
        match lookup_entries(&self.unif.map, insert_lvl) {
            Some(other) => {
                self.add_equation(Eqn { lhs: exp2, rhs: other });
                Ok(Dec::Yes(()))
            },
            None => {
                let ghost u = self@.unif;
                self.unif.map.push((insert_lvl, exp2));
                assert(self@.unif =~= u.push((insert_lvl, exp2@)));
                Ok(Dec::Yes(()))
            },
        }
    }

    /// Process the equation `eqn`.
    fn unify_eqn(&mut self, eqn: &Eqn) -> (r: Result<Dec<()>, UnifyError>)
        requires
            !(unify_eqn_spec(old(self)@, eqn@.0, eqn@.1) is Stuck),
        ensures
            match unify_eqn_spec(old(self)@, eqn@.0, eqn@.1) {
                EqnM::Failed(e) => r matches Err(x) && x@ == e,
                EqnM::Yes(st) => r matches Ok(Dec::Yes(_)) && final(self)@ == st,
                EqnM::No => r matches Ok(Dec::No),
                EqnM::Stuck => false,
            },
    {
        let lhs = &eqn.lhs;
        let rhs = &eqn.rhs;
        if alpha_eq(lhs, rhs) {
            return Ok(Dec::Yes(()));
        }
        match (lhs, rhs) {
            (Exp::Variable(v), _) => self.add_assignment(v.idx, copy_exp(rhs)),
            (_, Exp::Variable(v)) => self.add_assignment(v.idx, copy_exp(lhs)),
            (Exp::TypCtor(t1), Exp::TypCtor(t2)) => {
                assert(t1@.args == t1.args@ && t2@.args == t2.args@);
                if t1.name == t2.name {
                    self.add_arg_equations(&t1.args.args, &t2.args.args);
                    Ok(Dec::Yes(()))
                } else {
                    Ok(Dec::No)
                }
            },
            (Exp::Call(c1), Exp::Call(c2)) => {
                if c1.name == c2.name {
                    self.add_arg_equations(&c1.args.args, &c2.args.args);
                    Ok(Dec::Yes(()))
                } else {
                    Ok(Dec::No)
                }
            },
            (Exp::DotCall(d1), Exp::DotCall(d2)) => {
                if d1.name == d2.name {
                    self.add_equation(Eqn { lhs: copy_exp(&d1.exp), rhs: copy_exp(&d2.exp) });
                    self.add_arg_equations(&d1.args.args, &d2.args.args);
                    Ok(Dec::Yes(()))
                } else {
                    Err(UnifyError::CannotDecide { lhs: copy_exp(lhs), rhs: copy_exp(rhs) })
                }
            },
            (Exp::TypeUniv(_), Exp::TypeUniv(_)) => Ok(Dec::Yes(())),
            (Exp::Anno(_), _) => Err(UnifyError::UnsupportedAnnotation { exp: copy_exp(lhs) }),
            (_, Exp::Anno(_)) => Err(UnifyError::UnsupportedAnnotation { exp: copy_exp(rhs) }),
            _ => Err(UnifyError::CannotDecide { lhs: copy_exp(lhs), rhs: copy_exp(rhs) }),
        }
    }
}

/// Solve the equations `eqns` in the context `ctx`.
///
/// The result is that of [`run`]: `Ok(Dec::Yes(u))` with the assignment found,
/// `Ok(Dec::No)` when two distinct constructors meet, or an error.
///
/// The run must not get stuck: every variable that it assigns, and every
/// variable that the occurrence check reaches, is bound in the context, the
/// assigned expressions are bound there too, and the indices that
/// substitution shifts under binders stay within the machine's integers.
/// Where one of these fails, looking the variable up or shifting it fails.
#[verifier::loop_isolation(false)]
pub fn unify(ctx: LevelCtx, eqns: Vec<Eqn>) -> (r: Result<Dec<Unificator>, UnifyError>)
    requires
        !(run(init_state(ctx@, eqns_view(eqns@)), usize::MAX as nat) is Stuck),
    ensures
        result_matches(r, run(init_state(ctx@, eqns_view(eqns@)), usize::MAX as nat)),
{
    let ghost target = run(init_state(ctx@, eqns_view(eqns@)), usize::MAX as nat);
    let mut c = Ctx { eqns, done: Vec::new(), ctx, unif: Unificator::empty() };
    assert(c@.done =~= Seq::<(Term, Term)>::empty());
    let mut fuel: usize = usize::MAX;
    loop
        invariant
            run(c@, fuel as nat) == target,
            !(target is Stuck),
        decreases fuel,
    {
        if c.eqns.len() == 0 {
            return Ok(Dec::Yes(c.unif));
        }
        if fuel == 0 {
            return Err(UnifyError::StepLimitExceeded);
        }
        let ghost before = c@;
        let eqn = c.eqns.pop().unwrap();
        assert(c@ == UState { eqns: before.eqns.drop_last(), ..before }) by {
            assert(eqns_view(c.eqns@) =~= before.eqns.drop_last());
        }
        assert(eqn@ == before.eqns.last());
        match c.unify_eqn(&eqn) {
            Ok(Dec::Yes(_)) => {
                let ghost mid = c@;
                c.done.push(eqn);
                assert(eqns_view(c.done@) =~= mid.done.push(before.eqns.last()));
            },
            Ok(Dec::No) => {
                return Ok(Dec::No);
            },
            Err(e) => {
                return Err(e);
            },
        }
        fuel -= 1;
    }
}

// ---------------------------------------------------------------------------
// Laws
// ---------------------------------------------------------------------------

/// Without equations, unification succeeds with the empty assignment.
pub proof fn lemma_unify_no_equations(bound: Seq<usize>, fuel: nat)
    ensures
        run(init_state(bound, Seq::empty()), fuel) == RunM::Finished(Outcome::Unified(Seq::empty())),
{
}

/// An equation between alpha-equivalent expressions is solved by the empty assignment.
pub proof fn lemma_unify_alpha_equivalent(bound: Seq<usize>, lhs: Term, rhs: Term, fuel: nat)
    requires
        term_eq(lhs, rhs),
        fuel >= 1,
    ensures
        run(init_state(bound, seq![(lhs, rhs)]), fuel) == RunM::Finished(Outcome::Unified(Seq::empty())),
{
    let st = init_state(bound, seq![(lhs, rhs)]);
    let st1 = UState { eqns: st.eqns.drop_last(), ..st };
    assert(st.eqns.last() == (lhs, rhs));
    assert(unify_eqn_spec(st1, lhs, rhs) == EqnM::Yes(st1));
    assert(st1.eqns.len() == 0);
    assert(run(UState { done: st1.done.push((lhs, rhs)), ..st1 }, (fuel - 1) as nat) == RunM::Finished(
        Outcome::Unified(Seq::empty()),
    ));
}

/// Every expression unifies with itself, by the empty assignment.
pub proof fn lemma_unify_refl(bound: Seq<usize>, e: Term, fuel: nat)
    requires
        fuel >= 1,
    ensures
        run(init_state(bound, seq![(e, e)]), fuel) == RunM::Finished(Outcome::Unified(Seq::empty())),
{
    lemma_term_eq_refl(e);
    lemma_unify_alpha_equivalent(bound, e, e, fuel);
}

/// Two applications of distinct type constructors do not unify.
pub proof fn lemma_unify_distinct_type_constructors(
    bound: Seq<usize>,
    t1: crate::exp::TypCtorM,
    t2: crate::exp::TypCtorM,
    fuel: nat,
)
    requires
        t1.name != t2.name,
        fuel >= 1,
    ensures
        run(init_state(bound, seq![(Term::TypCtor(t1), Term::TypCtor(t2))]), fuel) == RunM::Finished(
            Outcome::NotUnifiable,
        ),
{
    let st = init_state(bound, seq![(Term::TypCtor(t1), Term::TypCtor(t2))]);
    assert(st.eqns.last() == (Term::TypCtor(t1), Term::TypCtor(t2)));
}

/// Two calls of distinct constructors do not unify.
pub proof fn lemma_unify_distinct_calls(bound: Seq<usize>, lhs: Term, rhs: Term, fuel: nat)
    requires
        lhs matches Term::Call { name: n1, .. } && rhs matches Term::Call { name: n2, .. } && n1 != n2,
        fuel >= 1,
    ensures
        run(init_state(bound, seq![(lhs, rhs)]), fuel) == RunM::Finished(Outcome::NotUnifiable),
{
    let st = init_state(bound, seq![(lhs, rhs)]);
    assert(st.eqns.last() == (lhs, rhs));
}

/// A variable is not assigned an expression in which it occurs: the occurrence
/// check fails, unless the two sides are alpha-equivalent.
pub proof fn lemma_unify_occurs_check(bound: Seq<usize>, v: Term, e: Term, fuel: nat)
    requires
        v matches Term::Variable { idx, .. } && idx_in_ctx(bound, idx) && occurs_term(
            e,
            bound,
            idx_to_lvl_spec(bound, idx),
        ),
        occurs_defined(e, bound, idx_to_lvl_spec(bound, v->idx)),
        !term_eq(v, e),
        fuel >= 1,
    ensures
        run(init_state(bound, seq![(v, e)]), fuel) == RunM::Finished(
            Outcome::Failed(ErrM::OccursCheckFailed(v->idx, e)),
        ),
{
    let st = init_state(bound, seq![(v, e)]);
    assert(st.eqns.last() == (v, e));
}

/// An annotated expression on the left, facing an expression that is not a
/// variable and not alpha-equivalent, is reported as unsupported.
pub proof fn lemma_unify_annotation(bound: Seq<usize>, a: Term, e: Term, fuel: nat)
    requires
        a is Anno,
        !(e is Variable),
        !term_eq(a, e),
        fuel >= 1,
    ensures
        run(init_state(bound, seq![(a, e)]), fuel) == RunM::Finished(
            Outcome::Failed(ErrM::UnsupportedAnnotation(a)),
        ),
{
    let st = init_state(bound, seq![(a, e)]);
    assert(st.eqns.last() == (a, e));
}

proof fn lemma_map_lookup_none(u: Seq<(Lvl, Term)>, l: Lvl)
    requires
        map_lookup(u, l) is None,
    ensures
        forall|i: int| 0 <= i < u.len() ==> (#[trigger] u[i]).0 != l,
    decreases u.len(),
{
    if u.len() > 0 {
        lemma_map_lookup_none(u.drop_first(), l);
        assert forall|i: int| 0 <= i < u.len() implies (#[trigger] u[i]).0 != l by {
            if i > 0 {
                assert(u[i] == u.drop_first()[i - 1]);
            }
        }
    }
}

proof fn lemma_eqn_keys_unique(st: UState, lhs: Term, rhs: Term)
    requires
        keys_unique(st.unif),
    ensures
        unify_eqn_spec(st, lhs, rhs) matches EqnM::Yes(st2) ==> keys_unique(st2.unif),
{
    let pick = |e: Term|
        match e {
            Term::Variable { idx, .. } => idx,
            _ => Idx { fst: 0, snd: 0 },
        };
    if !term_eq(lhs, rhs) {
        let (idx, e) = if lhs is Variable {
            (pick(lhs), rhs)
        } else {
            (pick(rhs), lhs)
        };
        if (lhs is Variable || rhs is Variable) && add_assignment_spec(st, idx, e) is Yes {
            let lvl = idx_to_lvl_spec(st.bound, idx);
            let e2 = subst_term(e, st.bound, SubstM::Entries(st.unif));
            let a = SubstM::Entries(seq![(lvl, e2)]);
            let u2 = unif_subst(st.unif, st.bound, a);
            assert(keys_unique(u2)) by {
                assert forall|i: int, j: int| 0 <= i < u2.len() && 0 <= j < u2.len() && i != j implies u2[i].0 != u2[j].0 by {
                    assert(u2[i].0 == st.unif[i].0);
                    assert(u2[j].0 == st.unif[j].0);
                }
            }
            if map_lookup(u2, lvl) is None {
                lemma_map_lookup_none(u2, lvl);
                let u3 = u2.push((lvl, e2));
                assert forall|i: int, j: int| 0 <= i < u3.len() && 0 <= j < u3.len() && i != j implies u3[i].0 != u3[j].0 by {
                    if i < u2.len() && j < u2.len() {
                        assert(u3[i] == u2[i] && u3[j] == u2[j]);
                    } else if i < u2.len() {
                        assert(u3[i] == u2[i]);
                    } else if j < u2.len() {
                        assert(u3[j] == u2[j]);
                    }
                }
            }
        }
    }
}

proof fn lemma_run_keys_unique(st: UState, fuel: nat)
    requires
        keys_unique(st.unif),
    ensures
        run(st, fuel) matches RunM::Finished(Outcome::Unified(u)) ==> keys_unique(u),
    decreases fuel,
{
    if st.eqns.len() > 0 && fuel > 0 {
        let e = st.eqns.last();
        let st1 = UState { eqns: st.eqns.drop_last(), ..st };
        lemma_eqn_keys_unique(st1, e.0, e.1);
        if let EqnM::Yes(st2) = unify_eqn_spec(st1, e.0, e.1) {
            lemma_run_keys_unique(UState { done: st2.done.push(e), ..st2 }, (fuel - 1) as nat);
        }
    }
}

/// A successful unification never assigns the same level twice.
pub proof fn lemma_unify_assigns_each_level_once(bound: Seq<usize>, eqns: Seq<(Term, Term)>, fuel: nat)
    ensures
        run(init_state(bound, eqns), fuel) matches RunM::Finished(Outcome::Unified(u)) ==> keys_unique(u),
{
    lemma_run_keys_unique(init_state(bound, eqns), fuel);
}

/// The empty unifier assigns nothing, and substituting with it gives an
/// alpha-equivalent expression.
pub proof fn lemma_empty_unifier(u: Seq<(Lvl, Term)>, t: Term, bound: Seq<usize>)
    requires
        u.len() == 0,
    ensures
        forall|l: Lvl| #[trigger] map_lookup(u, l) is None,
        term_eq(subst_term(t, bound, SubstM::Entries(u)), t),
{
    assert(u == Seq::<(Lvl, Term)>::empty());
    crate::subst::lemma_subst_empty(t, bound);
}


/// Two expressions whose heads no assignment can make equal: type
/// constructors, or calls, of distinct names.
pub open spec fn heads_clash(l: Term, r: Term) -> bool {
    match (l, r) {
        (Term::TypCtor(a), Term::TypCtor(b)) => a.name != b.name,
        (Term::Call { name: n1, .. }, Term::Call { name: n2, .. }) => n1 != n2,
        _ => false,
    }
}

/// The two expressions clash at most `n` levels deep: their heads clash, or
/// they are type constructors, or calls, of the same name with a pair of
/// corresponding arguments that clash at most `n - 1` levels deep.
pub open spec fn clash_within(l: Term, r: Term, n: nat) -> bool
    decreases n,
{
    ||| heads_clash(l, r)
    ||| n > 0 && match (l, r) {
        (Term::TypCtor(a), Term::TypCtor(b)) => a.name == b.name && exists|i: int|
            0 <= i < a.args.len() && i < b.args.len() && clash_within(#[trigger] a.args[i], b.args[i], (n - 1) as nat),
        (Term::Call { name: n1, args: a1, .. }, Term::Call { name: n2, args: a2, .. }) => n1 == n2 && exists|i: int|
            0 <= i < a1.len() && i < a2.len() && clash_within(#[trigger] a1[i], a2[i], (n - 1) as nat),
        _ => false,
    }
}

/// The two expressions clash: following corresponding arguments of type
/// constructors and calls of equal names, one reaches two type constructors,
/// or two calls, of distinct names. No assignment to variables makes such
/// expressions equal.
pub open spec fn rigid_clash(l: Term, r: Term) -> bool {
    exists|n: nat| clash_within(l, r, n)
}

proof fn lemma_clash_within_mono(l: Term, r: Term, n: nat, m: nat)
    requires
        clash_within(l, r, n),
        n <= m,
    ensures
        clash_within(l, r, m),
    decreases n,
{
    if !heads_clash(l, r) {
        match (l, r) {
            (Term::TypCtor(a), Term::TypCtor(b)) => {
                let i = choose|i: int|
                    0 <= i < a.args.len() && i < b.args.len() && clash_within(#[trigger] a.args[i], b.args[i], (n - 1) as nat);
                lemma_clash_within_mono(a.args[i], b.args[i], (n - 1) as nat, (m - 1) as nat);
            },
            (Term::Call { args: a1, .. }, Term::Call { args: a2, .. }) => {
                let i = choose|i: int|
                    0 <= i < a1.len() && i < a2.len() && clash_within(#[trigger] a1[i], a2[i], (n - 1) as nat);
                lemma_clash_within_mono(a1[i], a2[i], (n - 1) as nat, (m - 1) as nat);
            },
            _ => {},
        }
    }
}

/// Clashing expressions are not alpha-equivalent, and whatever is
/// alpha-equivalent to them clashes as deeply.
proof fn lemma_clash_within_term_eq(l: Term, r: Term, l2: Term, r2: Term, n: nat)
    requires
        clash_within(l, r, n),
    ensures
        !term_eq(l, r),
        term_eq(l2, l) && term_eq(r2, r) ==> clash_within(l2, r2, n),
    decreases n,
{
    if !heads_clash(l, r) {
        match (l, r) {
            (Term::TypCtor(a), Term::TypCtor(b)) => {
                let i = choose|i: int|
                    0 <= i < a.args.len() && i < b.args.len() && clash_within(#[trigger] a.args[i], b.args[i], (n - 1) as nat);
                lemma_clash_within_term_eq(a.args[i], b.args[i], a.args[i], b.args[i], (n - 1) as nat);
                if term_eq(l, r) {
                    assert(terms_eq(a.args, b.args));
                    assert(term_eq(a.args[i], b.args[i]));
                }
                if term_eq(l2, l) && term_eq(r2, r) {
                    assert(l2 is TypCtor && r2 is TypCtor);
                    let (c, d) = (l2->TypCtor_0, r2->TypCtor_0);
                    assert(terms_eq(c.args, a.args) && terms_eq(d.args, b.args));
                    assert(term_eq(c.args[i], a.args[i]));
                    assert(term_eq(d.args[i], b.args[i]));
                    lemma_clash_within_term_eq(a.args[i], b.args[i], c.args[i], d.args[i], (n - 1) as nat);
                    assert(clash_within(c.args[i], d.args[i], (n - 1) as nat));
                }
            },
            (Term::Call { args: a1, .. }, Term::Call { args: a2, .. }) => {
                let i = choose|i: int|
                    0 <= i < a1.len() && i < a2.len() && clash_within(#[trigger] a1[i], a2[i], (n - 1) as nat);
                lemma_clash_within_term_eq(a1[i], a2[i], a1[i], a2[i], (n - 1) as nat);
                if term_eq(l, r) {
                    assert(terms_eq(a1, a2));
                    assert(term_eq(a1[i], a2[i]));
                }
                if term_eq(l2, l) && term_eq(r2, r) {
                    assert(l2 is Call && r2 is Call);
                    let (c, d) = (l2->Call_args, r2->Call_args);
                    assert(terms_eq(c, a1) && terms_eq(d, a2));
                    assert(term_eq(c[i], a1[i]));
                    assert(term_eq(d[i], a2[i]));
                    lemma_clash_within_term_eq(a1[i], a2[i], c[i], d[i], (n - 1) as nat);
                    assert(clash_within(c[i], d[i], (n - 1) as nat));
                }
            },
            _ => {},
        }
    }
}

/// The least depth at which two clashing expressions clash.
proof fn lemma_clash_least_depth(l: Term, r: Term, n: nat) -> (m: nat)
    requires
        clash_within(l, r, n),
    ensures
        m <= n,
        clash_within(l, r, m),
        m > 0 ==> !clash_within(l, r, (m - 1) as nat),
    decreases n,
{
    if n > 0 && clash_within(l, r, (n - 1) as nat) {
        lemma_clash_least_depth(l, r, (n - 1) as nat)
    } else {
        n
    }
}

proof fn lemma_add_equations(eqns: Seq<(Term, Term)>, done: Seq<(Term, Term)>, new: Seq<(Term, Term)>)
    ensures
        add_equations(eqns, done, new).len() >= eqns.len(),
        forall|k: int| 0 <= k < eqns.len() ==> #[trigger] add_equations(eqns, done, new)[k] == eqns[k],
        forall|i: int| 0 <= i < new.len() && !in_done(done, #[trigger] new[i]) ==> add_equations(eqns, done, new).contains(new[i]),
    decreases new.len(),
{
    if new.len() > 0 {
        let e2 = if in_done(done, new[0]) { eqns } else { eqns.push(new[0]) };
        lemma_add_equations(e2, done, new.drop_first());
        let r = add_equations(eqns, done, new);
        assert(r == add_equations(e2, done, new.drop_first()));
        assert forall|k: int| 0 <= k < eqns.len() implies #[trigger] r[k] == eqns[k] by {
            assert(e2[k] == eqns[k]);
        }
        assert forall|i: int| 0 <= i < new.len() && !in_done(done, #[trigger] new[i]) implies r.contains(new[i]) by {
            if i == 0 {
                assert(e2[eqns.len() as int] == new[0]);
                assert(r[eqns.len() as int] == new[0]);
            } else {
                assert(new[i] == new.drop_first()[i - 1]);
            }
        }
    }
}

/// Processing an equation keeps the solved equations and the equations left
/// to solve, and may add equations behind them.
proof fn lemma_eqn_keeps_worklist(st: UState, lhs: Term, rhs: Term)
    ensures
        unify_eqn_spec(st, lhs, rhs) matches EqnM::Yes(st2) ==> {
            &&& st2.done == st.done
            &&& st2.eqns.len() >= st.eqns.len()
            &&& forall|k: int| 0 <= k < st.eqns.len() ==> #[trigger] st2.eqns[k] == st.eqns[k]
        },
{
    assert forall|eqns: Seq<(Term, Term)>, new: Seq<(Term, Term)>| {
        &&& #[trigger] add_equations(eqns, st.done, new).len() >= eqns.len()
        &&& forall|k: int| 0 <= k < eqns.len() ==> #[trigger] add_equations(eqns, st.done, new)[k] == eqns[k]
    } by {
        lemma_add_equations(eqns, st.done, new);
    }
}

proof fn lemma_run_clash(st: UState, fuel: nat, n: nat)
    requires
        exists|k: int| 0 <= k < st.eqns.len() && clash_within((#[trigger] st.eqns[k]).0, st.eqns[k].1, n),
        forall|j: int| 0 <= j < st.done.len() ==> !clash_within((#[trigger] st.done[j]).0, st.done[j].1, n),
    ensures
        !(run(st, fuel) matches RunM::Finished(Outcome::Unified(_))),
    decreases fuel,
{
    if st.eqns.len() > 0 && fuel > 0 {
        let e = st.eqns.last();
        let st1 = UState { eqns: st.eqns.drop_last(), ..st };
        lemma_eqn_keeps_worklist(st1, e.0, e.1);
        if clash_within(e.0, e.1, n) {
            let m = lemma_clash_least_depth(e.0, e.1, n);
            lemma_clash_within_term_eq(e.0, e.1, e.0, e.1, m);
            if !heads_clash(e.0, e.1) {
                let (a1, a2) = match (e.0, e.1) {
                    (Term::TypCtor(a), Term::TypCtor(b)) => (a.args, b.args),
                    (Term::Call { args: a, .. }, Term::Call { args: b, .. }) => (a, b),
                    _ => (Seq::empty(), Seq::empty()),
                };
                let i = choose|i: int| 0 <= i < a1.len() && i < a2.len() && clash_within(#[trigger] a1[i], a2[i], (m - 1) as nat);
                let z = zip_args(a1, a2);
                assert(z[i] == (a1[i], a2[i]));
                if in_done(st1.done, z[i]) {
                    let j = choose|j: int|
                        0 <= j < st1.done.len() && term_eq(#[trigger] st1.done[j].0, z[i].0) && term_eq(st1.done[j].1, z[i].1);
                    lemma_clash_within_term_eq(a1[i], a2[i], st.done[j].0, st.done[j].1, (m - 1) as nat);
                    lemma_clash_within_mono(st.done[j].0, st.done[j].1, (m - 1) as nat, n);
                    assert(false);
                }
                lemma_add_equations(st1.eqns, st1.done, z);
                let st2 = UState { eqns: add_equations(st1.eqns, st1.done, z), ..st1 };
                assert(unify_eqn_spec(st1, e.0, e.1) == EqnM::Yes(st2));
                let st3 = UState { done: st2.done.push(e), ..st2 };
                let k = choose|k: int| 0 <= k < st2.eqns.len() && st2.eqns[k] == z[i];
                assert(clash_within(st3.eqns[k].0, st3.eqns[k].1, (m - 1) as nat));
                assert forall|j: int| 0 <= j < st3.done.len() implies !clash_within(
                    (#[trigger] st3.done[j]).0,
                    st3.done[j].1,
                    (m - 1) as nat,
                ) by {
                    if j < st.done.len() {
                        assert(st3.done[j] == st.done[j]);
                        if clash_within(st.done[j].0, st.done[j].1, (m - 1) as nat) {
                            lemma_clash_within_mono(st.done[j].0, st.done[j].1, (m - 1) as nat, n);
                        }
                    }
                }
                lemma_run_clash(st3, (fuel - 1) as nat, (m - 1) as nat);
            }
        } else {
            if let EqnM::Yes(st2) = unify_eqn_spec(st1, e.0, e.1) {
                let st3 = UState { done: st2.done.push(e), ..st2 };
                let k = choose|k: int| 0 <= k < st.eqns.len() && clash_within((#[trigger] st.eqns[k]).0, st.eqns[k].1, n);
                assert(k < st1.eqns.len());
                assert(st3.eqns[k] == st.eqns[k]);
                assert forall|j: int| 0 <= j < st3.done.len() implies !clash_within(
                    (#[trigger] st3.done[j]).0,
                    st3.done[j].1,
                    n,
                ) by {
                    if j < st.done.len() {
                        assert(st3.done[j] == st.done[j]);
                    }
                }
                lemma_run_clash(st3, (fuel - 1) as nat, n);
            }
        }
    }
}

/// Equations of which one clashes cannot be unified: the arguments of type
/// constructors, and of calls, of equal names are unified in turn, so a clash
/// between type constructors or calls of distinct names at any depth of
/// their arguments makes unification fail; it never succeeds.
pub proof fn lemma_unify_rigid_clash(bound: Seq<usize>, eqns: Seq<(Term, Term)>, fuel: nat)
    requires
        exists|k: int| 0 <= k < eqns.len() && rigid_clash((#[trigger] eqns[k]).0, eqns[k].1),
    ensures
        !(run(init_state(bound, eqns), fuel) matches RunM::Finished(Outcome::Unified(_))),
{
    let k = choose|k: int| 0 <= k < eqns.len() && rigid_clash((#[trigger] eqns[k]).0, eqns[k].1);
    let n = choose|n: nat| clash_within(eqns[k].0, eqns[k].1, n);
    lemma_run_clash(init_state(bound, eqns), fuel, n);
}


/// The variable that solving `l = r` assigns directly: the left side when it
/// is a variable, else the right side when it is one; none when the two sides
/// are alpha-equivalent.
pub open spec fn assigned_var(l: Term, r: Term) -> Option<Idx> {
    if term_eq(l, r) {
        None
    } else {
        match (l, r) {
            (Term::Variable { idx, .. }, _) => Some(idx),
            (_, Term::Variable { idx, .. }) => Some(idx),
            _ => None,
        }
    }
}

/// Solving `l = r` assigns the variable `idx` at most `n` levels deep: the
/// equation assigns it directly, or its sides are type constructors, calls
/// or destructor calls of the same name with a pair of corresponding
/// arguments (or, for destructor calls, the pair of destructees) of which
/// this holds at most `n - 1` levels deep.
pub open spec fn assigns_within(l: Term, r: Term, idx: Idx, n: nat) -> bool
    decreases n,
{
    ||| assigned_var(l, r) == Some(idx)
    ||| n > 0 && match (l, r) {
        (Term::TypCtor(a), Term::TypCtor(b)) => a.name == b.name && exists|i: int|
            0 <= i < a.args.len() && i < b.args.len() && assigns_within(#[trigger] a.args[i], b.args[i], idx, (n - 1) as nat),
        (Term::Call { name: n1, args: a1, .. }, Term::Call { name: n2, args: a2, .. }) => n1 == n2 && exists|i: int|
            0 <= i < a1.len() && i < a2.len() && assigns_within(#[trigger] a1[i], a2[i], idx, (n - 1) as nat),
        (
            Term::DotCall { exp: e1, name: n1, args: a1, .. },
            Term::DotCall { exp: e2, name: n2, args: a2, .. },
        ) => n1 == n2 && (assigns_within(*e1, *e2, idx, (n - 1) as nat) || exists|i: int|
            0 <= i < a1.len() && i < a2.len() && assigns_within(#[trigger] a1[i], a2[i], idx, (n - 1) as nat)),
        _ => false,
    }
}

/// Solving `l = r` assigns the variable `idx`: some variable `idx` faces an
/// expression that is not alpha-equivalent to it, at a position that is
/// reached through the corresponding arguments (and destructees) of type
/// constructors, calls and destructor calls of equal names.
pub open spec fn assigns(l: Term, r: Term, idx: Idx) -> bool {
    exists|n: nat| assigns_within(l, r, idx, n)
}

/// Whether the assignment assigns the level `l`.
pub open spec fn has_key(u: Seq<(Lvl, Term)>, l: Lvl) -> bool {
    exists|i: int| 0 <= i < u.len() && (#[trigger] u[i]).0 == l
}

proof fn lemma_assigns_within_mono(l: Term, r: Term, idx: Idx, n: nat, m: nat)
    requires
        assigns_within(l, r, idx, n),
        n <= m,
    ensures
        assigns_within(l, r, idx, m),
    decreases n,
{
    if assigned_var(l, r) != Some(idx) {
        match (l, r) {
            (Term::TypCtor(a), Term::TypCtor(b)) => {
                let i = choose|i: int|
                    0 <= i < a.args.len() && i < b.args.len() && assigns_within(#[trigger] a.args[i], b.args[i], idx, (n - 1) as nat);
                lemma_assigns_within_mono(a.args[i], b.args[i], idx, (n - 1) as nat, (m - 1) as nat);
            },
            (Term::Call { args: a1, .. }, Term::Call { args: a2, .. }) => {
                let i = choose|i: int|
                    0 <= i < a1.len() && i < a2.len() && assigns_within(#[trigger] a1[i], a2[i], idx, (n - 1) as nat);
                lemma_assigns_within_mono(a1[i], a2[i], idx, (n - 1) as nat, (m - 1) as nat);
            },
            (Term::DotCall { exp: e1, args: a1, .. }, Term::DotCall { exp: e2, args: a2, .. }) => {
                if assigns_within(*e1, *e2, idx, (n - 1) as nat) {
                    lemma_assigns_within_mono(*e1, *e2, idx, (n - 1) as nat, (m - 1) as nat);
                } else {
                    let i = choose|i: int|
                        0 <= i < a1.len() && i < a2.len() && assigns_within(#[trigger] a1[i], a2[i], idx, (n - 1) as nat);
                    lemma_assigns_within_mono(a1[i], a2[i], idx, (n - 1) as nat, (m - 1) as nat);
                }
            },
            _ => {},
        }
    }
}

proof fn lemma_assigns_least_depth(l: Term, r: Term, idx: Idx, n: nat) -> (m: nat)
    requires
        assigns_within(l, r, idx, n),
    ensures
        m <= n,
        assigns_within(l, r, idx, m),
        m > 0 ==> !assigns_within(l, r, idx, (m - 1) as nat),
    decreases n,
{
    if n > 0 && assigns_within(l, r, idx, (n - 1) as nat) {
        lemma_assigns_least_depth(l, r, idx, (n - 1) as nat)
    } else {
        n
    }
}

/// An equation that assigns a variable is not solved by alpha-equivalence,
/// and every alpha-equivalent equation assigns it as deeply.
proof fn lemma_assigns_within_term_eq(l: Term, r: Term, l2: Term, r2: Term, idx: Idx, n: nat)
    requires
        assigns_within(l, r, idx, n),
    ensures
        !term_eq(l, r),
        term_eq(l2, l) && term_eq(r2, r) ==> assigns_within(l2, r2, idx, n),
    decreases n,
{
    if term_eq(l2, l) && term_eq(r2, r) && term_eq(l2, r2) {
        lemma_term_eq_symm(l2, l);
        lemma_term_eq_trans(l, l2, r2);
        lemma_term_eq_trans(l, r2, r);
    }
    if assigned_var(l, r) != Some(idx) {
        match (l, r) {
            (Term::TypCtor(a), Term::TypCtor(b)) => {
                let i = choose|i: int|
                    0 <= i < a.args.len() && i < b.args.len() && assigns_within(#[trigger] a.args[i], b.args[i], idx, (n - 1) as nat);
                lemma_assigns_within_term_eq(a.args[i], b.args[i], a.args[i], b.args[i], idx, (n - 1) as nat);
                if term_eq(l, r) {
                    assert(terms_eq(a.args, b.args));
                    assert(term_eq(a.args[i], b.args[i]));
                }
                if term_eq(l2, l) && term_eq(r2, r) {
                    assert(l2 is TypCtor && r2 is TypCtor);
                    let (c, d) = (l2->TypCtor_0, r2->TypCtor_0);
                    assert(terms_eq(c.args, a.args) && terms_eq(d.args, b.args));
                    assert(term_eq(c.args[i], a.args[i]));
                    assert(term_eq(d.args[i], b.args[i]));
                    lemma_assigns_within_term_eq(a.args[i], b.args[i], c.args[i], d.args[i], idx, (n - 1) as nat);
                    assert(assigns_within(c.args[i], d.args[i], idx, (n - 1) as nat));
                }
            },
            (Term::Call { args: a1, .. }, Term::Call { args: a2, .. }) => {
                let i = choose|i: int|
                    0 <= i < a1.len() && i < a2.len() && assigns_within(#[trigger] a1[i], a2[i], idx, (n - 1) as nat);
                lemma_assigns_within_term_eq(a1[i], a2[i], a1[i], a2[i], idx, (n - 1) as nat);
                if term_eq(l, r) {
                    assert(terms_eq(a1, a2));
                    assert(term_eq(a1[i], a2[i]));
                }
                if term_eq(l2, l) && term_eq(r2, r) {
                    assert(l2 is Call && r2 is Call);
                    let (c, d) = (l2->Call_args, r2->Call_args);
                    assert(terms_eq(c, a1) && terms_eq(d, a2));
                    assert(term_eq(c[i], a1[i]));
                    assert(term_eq(d[i], a2[i]));
                    lemma_assigns_within_term_eq(a1[i], a2[i], c[i], d[i], idx, (n - 1) as nat);
                    assert(assigns_within(c[i], d[i], idx, (n - 1) as nat));
                }
            },
            (Term::DotCall { exp: e1, args: a1, .. }, Term::DotCall { exp: e2, args: a2, .. }) => {
                if assigns_within(*e1, *e2, idx, (n - 1) as nat) {
                    lemma_assigns_within_term_eq(*e1, *e2, *e1, *e2, idx, (n - 1) as nat);
                    if term_eq(l2, l) && term_eq(r2, r) {
                        assert(l2 is DotCall && r2 is DotCall);
                        lemma_assigns_within_term_eq(*e1, *e2, *l2->DotCall_exp, *r2->DotCall_exp, idx, (n - 1) as nat);
                    }
                } else {
                    let i = choose|i: int|
                        0 <= i < a1.len() && i < a2.len() && assigns_within(#[trigger] a1[i], a2[i], idx, (n - 1) as nat);
                    lemma_assigns_within_term_eq(a1[i], a2[i], a1[i], a2[i], idx, (n - 1) as nat);
                    if term_eq(l, r) {
                        assert(terms_eq(a1, a2));
                        assert(term_eq(a1[i], a2[i]));
                    }
                    if term_eq(l2, l) && term_eq(r2, r) {
                        assert(l2 is DotCall && r2 is DotCall);
                        let (c, d) = (l2->DotCall_args, r2->DotCall_args);
                        assert(terms_eq(c, a1) && terms_eq(d, a2));
                        assert(term_eq(c[i], a1[i]));
                        assert(term_eq(d[i], a2[i]));
                        lemma_assigns_within_term_eq(a1[i], a2[i], c[i], d[i], idx, (n - 1) as nat);
                        assert(assigns_within(c[i], d[i], idx, (n - 1) as nat));
                    }
                }
            },
            _ => {},
        }
    }
}


proof fn lemma_map_lookup_has_key(u: Seq<(Lvl, Term)>, l: Lvl)
    ensures
        map_lookup(u, l) is Some <==> has_key(u, l),
    decreases u.len(),
{
    if map_lookup(u, l) is None {
        lemma_map_lookup_none(u, l);
    } else if u.len() > 0 && u[0].0 != l {
        lemma_map_lookup_has_key(u.drop_first(), l);
        let i = choose|i: int| 0 <= i < u.drop_first().len() && (#[trigger] u.drop_first()[i]).0 == l;
        assert(u[i + 1] == u.drop_first()[i]);
    } else {
        assert(u[0].0 == l);
    }
}

/// Processing an equation keeps the context and the levels assigned so far,
/// and an equation that assigns a variable directly assigns its level.
proof fn lemma_eqn_keeps_keys(st: UState, lhs: Term, rhs: Term, idx: Idx)
    ensures
        unify_eqn_spec(st, lhs, rhs) matches EqnM::Yes(st2) ==> {
            &&& st2.bound == st.bound
            &&& st2.unif.len() >= st.unif.len()
            &&& forall|i: int| 0 <= i < st.unif.len() ==> (#[trigger] st2.unif[i]).0 == st.unif[i].0
            &&& assigned_var(lhs, rhs) == Some(idx) ==> has_key(st2.unif, idx_to_lvl_spec(st.bound, idx))
        },
{
    let pick = |e: Term|
        match e {
            Term::Variable { idx, .. } => idx,
            _ => Idx { fst: 0, snd: 0 },
        };
    if !term_eq(lhs, rhs) {
        let (v, e) = if lhs is Variable {
            (pick(lhs), rhs)
        } else {
            (pick(rhs), lhs)
        };
        if (lhs is Variable || rhs is Variable) && add_assignment_spec(st, v, e) is Yes {
            let lvl = idx_to_lvl_spec(st.bound, v);
            let e2 = subst_term(e, st.bound, SubstM::Entries(st.unif));
            let a = SubstM::Entries(seq![(lvl, e2)]);
            let u2 = unif_subst(st.unif, st.bound, a);
            assert(forall|i: int| 0 <= i < st.unif.len() ==> (#[trigger] u2[i]).0 == st.unif[i].0);
            if map_lookup(u2, lvl) is Some {
                lemma_map_lookup_has_key(u2, lvl);
            } else {
                let u3 = u2.push((lvl, e2));
                assert(u3[u2.len() as int].0 == lvl);
                assert(forall|i: int| 0 <= i < st.unif.len() ==> (#[trigger] u3[i]).0 == st.unif[i].0) by {
                    assert(forall|i: int| 0 <= i < u2.len() ==> #[trigger] u3[i] == u2[i]);
                }
            }
        }
    }
}

proof fn lemma_run_keeps_key(st: UState, fuel: nat, l: Lvl)
    requires
        has_key(st.unif, l),
    ensures
        run(st, fuel) matches RunM::Finished(Outcome::Unified(u)) ==> has_key(u, l),
    decreases fuel,
{
    if st.eqns.len() > 0 && fuel > 0 {
        let e = st.eqns.last();
        let st1 = UState { eqns: st.eqns.drop_last(), ..st };
        lemma_eqn_keeps_keys(st1, e.0, e.1, Idx { fst: 0, snd: 0 });
        if let EqnM::Yes(st2) = unify_eqn_spec(st1, e.0, e.1) {
            let i = choose|i: int| 0 <= i < st.unif.len() && (#[trigger] st.unif[i]).0 == l;
            assert(st2.unif[i].0 == l);
            lemma_run_keeps_key(UState { done: st2.done.push(e), ..st2 }, (fuel - 1) as nat, l);
        }
    }
}

proof fn lemma_run_assigns(st: UState, fuel: nat, idx: Idx, n: nat)
    requires
        exists|k: int| 0 <= k < st.eqns.len() && assigns_within((#[trigger] st.eqns[k]).0, st.eqns[k].1, idx, n),
        forall|j: int| 0 <= j < st.done.len() ==> !assigns_within((#[trigger] st.done[j]).0, st.done[j].1, idx, n),
    ensures
        run(st, fuel) matches RunM::Finished(Outcome::Unified(u)) ==> has_key(u, idx_to_lvl_spec(st.bound, idx)),
    decreases fuel,
{
    if st.eqns.len() > 0 && fuel > 0 {
        let e = st.eqns.last();
        let st1 = UState { eqns: st.eqns.drop_last(), ..st };
        lemma_eqn_keeps_worklist(st1, e.0, e.1);
        lemma_eqn_keeps_keys(st1, e.0, e.1, idx);
        if assigns_within(e.0, e.1, idx, n) {
            let m = lemma_assigns_least_depth(e.0, e.1, idx, n);
            lemma_assigns_within_term_eq(e.0, e.1, e.0, e.1, idx, m);
            if assigned_var(e.0, e.1) == Some(idx) {
                if let EqnM::Yes(st2) = unify_eqn_spec(st1, e.0, e.1) {
                    lemma_run_keeps_key(
                        UState { done: st2.done.push(e), ..st2 },
                        (fuel - 1) as nat,
                        idx_to_lvl_spec(st.bound, idx),
                    );
                }
            } else {
                assert(m > 0);
                let (a1, a2) = match (e.0, e.1) {
                    (Term::TypCtor(a), Term::TypCtor(b)) => (a.args, b.args),
                    (Term::Call { args: a, .. }, Term::Call { args: b, .. }) => (a, b),
                    (Term::DotCall { args: a, .. }, Term::DotCall { args: b, .. }) => (a, b),
                    _ => (Seq::empty(), Seq::empty()),
                };
                let z = zip_args(a1, a2);
                let p = if e.0 is DotCall && e.1 is DotCall && assigns_within(
                    *e.0->DotCall_exp,
                    *e.1->DotCall_exp,
                    idx,
                    (m - 1) as nat,
                ) {
                    (*e.0->DotCall_exp, *e.1->DotCall_exp)
                } else {
                    let i = choose|i: int|
                        0 <= i < a1.len() && i < a2.len() && assigns_within(#[trigger] a1[i], a2[i], idx, (m - 1) as nat);
                    assert(z[i] == (a1[i], a2[i]));
                    z[i]
                };
                assert(assigns_within(p.0, p.1, idx, (m - 1) as nat));
                if in_done(st1.done, p) {
                    let j = choose|j: int|
                        0 <= j < st1.done.len() && term_eq(#[trigger] st1.done[j].0, p.0) && term_eq(st1.done[j].1, p.1);
                    lemma_assigns_within_term_eq(p.0, p.1, st.done[j].0, st.done[j].1, idx, (m - 1) as nat);
                    lemma_assigns_within_mono(st.done[j].0, st.done[j].1, idx, (m - 1) as nat, n);
                    assert(false);
                }
                lemma_add_equations(st1.eqns, st1.done, z);
                let st2 = unify_eqn_spec(st1, e.0, e.1)->Yes_0;
                if e.0 is DotCall {
                    let q = (*e.0->DotCall_exp, *e.1->DotCall_exp);
                    let eqns1 = add_equations(st1.eqns, st1.done, seq![q]);
                    lemma_add_equations(st1.eqns, st1.done, seq![q]);
                    lemma_add_equations(eqns1, st1.done, z);
                    assert(seq![q][0] == q);
                    assert(st2.eqns == add_equations(eqns1, st1.done, z));
                    assert(st2.eqns.contains(p)) by {
                        if p == q {
                            let k = choose|k: int| 0 <= k < eqns1.len() && eqns1[k] == q;
                            assert(st2.eqns[k] == q);
                        }
                    }
                } else {
                    assert(st2.eqns == add_equations(st1.eqns, st1.done, z));
                }
                let st3 = UState { done: st2.done.push(e), ..st2 };
                let k = choose|k: int| 0 <= k < st2.eqns.len() && st2.eqns[k] == p;
                assert(assigns_within(st3.eqns[k].0, st3.eqns[k].1, idx, (m - 1) as nat));
                assert forall|j: int| 0 <= j < st3.done.len() implies !assigns_within(
                    (#[trigger] st3.done[j]).0,
                    st3.done[j].1,
                    idx,
                    (m - 1) as nat,
                ) by {
                    if j < st.done.len() {
                        assert(st3.done[j] == st.done[j]);
                        if assigns_within(st.done[j].0, st.done[j].1, idx, (m - 1) as nat) {
                            lemma_assigns_within_mono(st.done[j].0, st.done[j].1, idx, (m - 1) as nat, n);
                        }
                    }
                }
                lemma_run_assigns(st3, (fuel - 1) as nat, idx, (m - 1) as nat);
            }
        } else {
            if let EqnM::Yes(st2) = unify_eqn_spec(st1, e.0, e.1) {
                let st3 = UState { done: st2.done.push(e), ..st2 };
                let k = choose|k: int| 0 <= k < st.eqns.len() && assigns_within((#[trigger] st.eqns[k]).0, st.eqns[k].1, idx, n);
                assert(k < st1.eqns.len());
                assert(st3.eqns[k] == st.eqns[k]);
                assert forall|j: int| 0 <= j < st3.done.len() implies !assigns_within(
                    (#[trigger] st3.done[j]).0,
                    st3.done[j].1,
                    idx,
                    n,
                ) by {
                    if j < st.done.len() {
                        assert(st3.done[j] == st.done[j]);
                    }
                }
                lemma_run_assigns(st3, (fuel - 1) as nat, idx, n);
            }
        }
    }
}

/// A successful unification assigns every variable that its equations
/// demand: each variable that faces an expression not alpha-equivalent to
/// it, in an equation itself or among the corresponding arguments (and
/// destructees) of type constructors, calls and destructor calls of equal
/// names, has its level assigned. So the arguments of equal constructor
/// calls are unified: `S(x) = S(Z)` assigns `x`.
pub proof fn lemma_unify_assigns_demanded(bound: Seq<usize>, eqns: Seq<(Term, Term)>, idx: Idx, fuel: nat)
    requires
        exists|k: int| 0 <= k < eqns.len() && assigns((#[trigger] eqns[k]).0, eqns[k].1, idx),
    ensures
        run(init_state(bound, eqns), fuel) matches RunM::Finished(Outcome::Unified(u)) ==> map_lookup(
            u,
            idx_to_lvl_spec(bound, idx),
        ) is Some,
{
    let k = choose|k: int| 0 <= k < eqns.len() && assigns((#[trigger] eqns[k]).0, eqns[k].1, idx);
    let n = choose|n: nat| assigns_within(eqns[k].0, eqns[k].1, idx, n);
    lemma_run_assigns(init_state(bound, eqns), fuel, idx, n);
    if let RunM::Finished(Outcome::Unified(u)) = run(init_state(bound, eqns), fuel) {
        lemma_map_lookup_has_key(u, idx_to_lvl_spec(bound, idx));
    }
}


/// An equation between a variable and an expression in which it does not
/// occur, and which is not alpha-equivalent to it, is solved by assigning
/// that expression (up to alpha-equivalence) to the variable's level, and
/// nothing else.
pub proof fn lemma_unify_assigns_variable(bound: Seq<usize>, v: Term, t: Term, fuel: nat)
    requires
        v matches Term::Variable { idx, .. } && idx_in_ctx(bound, idx) && occurs_defined(
            t,
            bound,
            idx_to_lvl_spec(bound, idx),
        ) && !occurs_term(t, bound, idx_to_lvl_spec(bound, idx)),
        !term_eq(v, t),
        subst_ok(t, bound, SubstM::Entries(Seq::empty())),
        fuel >= 1,
    ensures
        run(init_state(bound, seq![(v, t)]), fuel) matches RunM::Finished(Outcome::Unified(u)) && u.len() == 1
            && u[0].0 == idx_to_lvl_spec(bound, v->idx) && term_eq(u[0].1, t),
{
    let st = init_state(bound, seq![(v, t)]);
    assert(st.eqns.last() == (v, t));
    let st1 = UState { eqns: st.eqns.drop_last(), ..st };
    lemma_assign_fresh(st1, v->idx, t);
    lemma_subst_empty(t, bound);
    let st2 = UState { unif: seq![(idx_to_lvl_spec(bound, v->idx), subst_term(t, bound, SubstM::Entries(Seq::empty())))], ..st1 };
    assert(unify_eqn_spec(st1, v, t) == EqnM::Yes(st2));
    assert(st1.eqns.len() == 0);
    assert(run(UState { done: st2.done.push((v, t)), ..st2 }, (fuel - 1) as nat) == RunM::Finished(Outcome::Unified(st2.unif)));
}

/// In a state with nothing assigned yet, assigning `t` to the variable `idx`
/// records the single pair of its level and `t` with the empty substitution
/// applied.
proof fn lemma_assign_fresh(st: UState, idx: Idx, t: Term)
    requires
        st.unif.len() == 0,
        idx_in_ctx(st.bound, idx),
        occurs_defined(t, st.bound, idx_to_lvl_spec(st.bound, idx)),
        !occurs_term(t, st.bound, idx_to_lvl_spec(st.bound, idx)),
        subst_ok(t, st.bound, SubstM::Entries(Seq::empty())),
    ensures
        add_assignment_spec(st, idx, t) == EqnM::Yes(
            UState {
                unif: seq![(idx_to_lvl_spec(st.bound, idx), subst_term(t, st.bound, SubstM::Entries(Seq::empty())))],
                ..st
            },
        ),
{
    let lvl = idx_to_lvl_spec(st.bound, idx);
    assert(st.unif == Seq::<(Lvl, Term)>::empty());
    let e2 = subst_term(t, st.bound, SubstM::Entries(st.unif));
    let a = SubstM::Entries(seq![(lvl, e2)]);
    let u2 = unif_subst(st.unif, st.bound, a);
    assert(u2 =~= Seq::<(Lvl, Term)>::empty());
    assert(u2.push((lvl, e2)) =~= seq![(lvl, e2)]);
}

/// The arguments of two calls of the same constructor are unified: solving
/// `c(x) = c(t)`, where `t` is not alpha-equivalent to the variable `x` and
/// `x` does not occur in it, assigns `t` (up to alpha-equivalence) to the
/// level of `x`, and nothing else.
pub proof fn lemma_unify_call_arguments(bound: Seq<usize>, lhs: Term, rhs: Term, v: Term, t: Term, fuel: nat)
    requires
        lhs matches Term::Call { name: n1, args: a1, .. } && rhs matches Term::Call { name: n2, args: a2, .. } && n1
            == n2 && a1 == seq![v] && a2 == seq![t],
        v matches Term::Variable { idx, .. } && idx_in_ctx(bound, idx) && occurs_defined(
            t,
            bound,
            idx_to_lvl_spec(bound, idx),
        ) && !occurs_term(t, bound, idx_to_lvl_spec(bound, idx)),
        !term_eq(v, t),
        subst_ok(t, bound, SubstM::Entries(Seq::empty())),
        fuel >= 2,
    ensures
        run(init_state(bound, seq![(lhs, rhs)]), fuel) matches RunM::Finished(Outcome::Unified(u)) && u.len() == 1
            && u[0].0 == idx_to_lvl_spec(bound, v->idx) && term_eq(u[0].1, t),
{
    let st = init_state(bound, seq![(lhs, rhs)]);
    assert(st.eqns.last() == (lhs, rhs));
    let st1 = UState { eqns: st.eqns.drop_last(), ..st };
    assert(st1.eqns.len() == 0);
    if term_eq(lhs, rhs) {
        assert(terms_eq(seq![v], seq![t]));
        assert(seq![v][0] == v && seq![t][0] == t);
    }
    let z = zip_args(seq![v], seq![t]);
    assert(z =~= seq![(v, t)]);
    assert(!in_done(st1.done, (v, t)));
    assert(add_equations(st1.eqns, st1.done, z) =~= seq![(v, t)]) by {
        assert(z[0] == (v, t));
        let e2 = st1.eqns.push(z[0]);
        assert(z.drop_first().len() == 0);
        assert(add_equations(e2, st1.done, z.drop_first()) == e2);
        assert(e2 =~= seq![(v, t)]);
    }
    let st2 = UState { eqns: seq![(v, t)], ..st1 };
    assert(unify_eqn_spec(st1, lhs, rhs) == EqnM::Yes(st2));
    let st3 = UState { done: st2.done.push((lhs, rhs)), ..st2 };
    assert(st3.eqns.last() == (v, t));
    let st4 = UState { eqns: st3.eqns.drop_last(), ..st3 };
    lemma_assign_fresh(st4, v->idx, t);
    lemma_subst_empty(t, bound);
    assert(st4.eqns.len() == 0);
    let st5 = UState { unif: seq![(idx_to_lvl_spec(bound, v->idx), subst_term(t, bound, SubstM::Entries(Seq::empty())))], ..st4 };
    assert(unify_eqn_spec(st4, v, t) == EqnM::Yes(st5));
    assert(run(UState { done: st5.done.push((v, t)), ..st5 }, (fuel - 2) as nat) == RunM::Finished(Outcome::Unified(st5.unif)));
    assert(run(st3, (fuel - 1) as nat) == RunM::Finished(Outcome::Unified(st5.unif)));
}

} // verus!
