//! Occurrence checks: does the variable at a given de Bruijn level occur in
//! an expression? The clause bodies of (co)matches are inspected under the
//! telescope of their clause; the motive of a match is not inspected.

use vstd::prelude::*;
use crate::de_bruijn::{Idx, Lvl, LevelCtx, idx_in_ctx, idx_to_lvl_spec};
use crate::exp::{Exp, Term, MatchM, Args, Match, Case, opt_view, case_view, exp_view};
use crate::free_vars::{fv_occurs, case_occurs};

verus! {

broadcast use vstd::std_specs::vec::group_vec_axioms, vstd::seq::group_seq_axioms;

/// Every variable that the occurrence check inspects is bound in the context
/// (extended by the telescopes of the enclosing clauses).
pub open spec fn occurs_scoped(t: Term, bound: Seq<usize>) -> bool
    decreases t,
{
    match t {
        Term::Variable { idx, .. } => idx_in_ctx(bound, idx),
        Term::TypCtor(tc) => forall|i: int| 0 <= i < tc.args.len() ==> occurs_scoped(#[trigger] tc.args[i], bound),
        Term::Call { args, .. } => forall|i: int| 0 <= i < args.len() ==> occurs_scoped(#[trigger] args[i], bound),
        Term::DotCall { exp, args, .. } => {
            &&& occurs_scoped(*exp, bound)
            &&& forall|i: int| 0 <= i < args.len() ==> occurs_scoped(#[trigger] args[i], bound)
        },
        Term::Anno { exp, typ, .. } => occurs_scoped(*exp, bound) && occurs_scoped(*typ, bound),
        Term::TypeUniv { .. } => true,
        Term::LocalMatch { on_exp, body, .. } => occurs_scoped(*on_exp, bound) && match_occurs_scoped(body, bound),
        Term::LocalComatch { body, .. } => match_occurs_scoped(body, bound),
        Term::Hole { .. } => true,
    }
}

pub open spec fn match_occurs_scoped(m: MatchM, bound: Seq<usize>) -> bool
    decreases m,
{
    forall|i: int|
        0 <= i < m.cases.len() ==> match #[trigger] m.cases[i].body {
            Some(b) => occurs_scoped(*b, bound.push(m.cases[i].params.len() as usize)),
            None => true,
        }
}

/// Whether the variable at level `lvl` occurs in `t` under the context `bound`.
/// A hole contains no variable: the check answers `false` for it.
pub open spec fn occurs_term(t: Term, bound: Seq<usize>, lvl: Lvl) -> bool
    decreases t,
{
    match t {
        Term::Variable { idx, .. } => idx_to_lvl_spec(bound, idx) == lvl,
        Term::TypCtor(tc) => exists|i: int| 0 <= i < tc.args.len() && occurs_term(#[trigger] tc.args[i], bound, lvl),
        Term::Call { args, .. } => exists|i: int| 0 <= i < args.len() && occurs_term(#[trigger] args[i], bound, lvl),
        Term::DotCall { exp, args, .. } => {
            ||| occurs_term(*exp, bound, lvl)
            ||| exists|i: int| 0 <= i < args.len() && occurs_term(#[trigger] args[i], bound, lvl)
        },
        Term::Anno { exp, typ, .. } => occurs_term(*exp, bound, lvl) || occurs_term(*typ, bound, lvl),
        Term::TypeUniv { .. } => false,
        Term::LocalMatch { on_exp, body, .. } => occurs_term(*on_exp, bound, lvl) || occurs_match(body, bound, lvl),
        Term::LocalComatch { body, .. } => occurs_match(body, bound, lvl),
        Term::Hole { .. } => false,
    }
}

/// Whether the variable occurs in some clause body, each body being inspected
/// under the telescope of its clause.
pub open spec fn occurs_match(m: MatchM, bound: Seq<usize>, lvl: Lvl) -> bool
    decreases m,
{
    exists|i: int|
        0 <= i < m.cases.len() && match #[trigger] m.cases[i].body {
            Some(b) => occurs_term(*b, bound.push(m.cases[i].params.len() as usize), lvl),
            None => false,
        }
}

/// Whether the check for the variable at `lvl` is defined: every variable
/// that it reaches is bound in the context. The check stops at the first
/// occurrence, so a variable after it is never reached.
pub open spec fn occurs_defined(t: Term, bound: Seq<usize>, lvl: Lvl) -> bool
    decreases t,
{
    match t {
        Term::Variable { idx, .. } => idx_in_ctx(bound, idx),
        Term::TypCtor(tc) => forall|i: int|
            0 <= i < tc.args.len() && (forall|j: int| 0 <= j < i ==> !occurs_term(#[trigger] tc.args[j], bound, lvl))
                ==> occurs_defined(#[trigger] tc.args[i], bound, lvl),
        Term::Call { args, .. } => forall|i: int|
            0 <= i < args.len() && (forall|j: int| 0 <= j < i ==> !occurs_term(#[trigger] args[j], bound, lvl))
                ==> occurs_defined(#[trigger] args[i], bound, lvl),
        Term::DotCall { exp, args, .. } => {
            &&& occurs_defined(*exp, bound, lvl)
            &&& !occurs_term(*exp, bound, lvl) ==> forall|i: int|
                0 <= i < args.len() && (forall|j: int| 0 <= j < i ==> !occurs_term(#[trigger] args[j], bound, lvl))
                    ==> occurs_defined(#[trigger] args[i], bound, lvl)
        },
        Term::Anno { exp, typ, .. } => occurs_defined(*exp, bound, lvl) && (!occurs_term(*exp, bound, lvl)
            ==> occurs_defined(*typ, bound, lvl)),
        Term::TypeUniv { .. } => true,
        Term::LocalMatch { on_exp, body, .. } => occurs_defined(*on_exp, bound, lvl) && (!occurs_term(
            *on_exp,
            bound,
            lvl,
        ) ==> match_occurs_defined(body, bound, lvl)),
        Term::LocalComatch { body, .. } => match_occurs_defined(body, bound, lvl),
        Term::Hole { .. } => true,
    }
}

/// Whether the check is defined on each clause body that it reaches.
pub open spec fn match_occurs_defined(m: MatchM, bound: Seq<usize>, lvl: Lvl) -> bool
    decreases m,
{
    forall|i: int|
        0 <= i < m.cases.len() && (forall|j: int|
            0 <= j < i ==> !match #[trigger] m.cases[j].body {
                Some(b) => occurs_term(*b, bound.push(m.cases[j].params.len() as usize), lvl),
                None => false,
            }) ==> match #[trigger] m.cases[i].body {
            Some(b) => occurs_defined(*b, bound.push(m.cases[i].params.len() as usize), lvl),
            None => true,
        }
}

/// Occurrence check of a variable, given by its de Bruijn level, in a piece
/// of syntax. The level context is extended while clause bodies are inspected
/// and is restored on return.
pub trait Occurs {
    /// Every variable that the check for `lvl` reaches is bound in `bound`.
    spec fn occurs_defined_in(&self, bound: Seq<usize>, lvl: Lvl) -> bool;

    /// Whether the variable at level `lvl` occurs under the context `bound`.
    spec fn occurs_spec(&self, bound: Seq<usize>, lvl: Lvl) -> bool;

    fn occurs(&self, ctx: &mut LevelCtx, lvl: Lvl) -> (r: bool)
        requires
            self.occurs_defined_in(old(ctx)@, lvl),
        ensures
            final(ctx)@ == old(ctx)@,
            r == self.occurs_spec(old(ctx)@, lvl),
    ;
}

impl Occurs for Args {
    open spec fn occurs_defined_in(&self, bound: Seq<usize>, lvl: Lvl) -> bool {
        forall|i: int|
            0 <= i < self@.len() && (forall|j: int| 0 <= j < i ==> !occurs_term(#[trigger] self@[j], bound, lvl))
                ==> occurs_defined(#[trigger] self@[i], bound, lvl)
    }

    open spec fn occurs_spec(&self, bound: Seq<usize>, lvl: Lvl) -> bool {
        exists|i: int| 0 <= i < self@.len() && occurs_term(#[trigger] self@[i], bound, lvl)
    }

    /// Whether the variable occurs in some argument.
    #[verifier::loop_isolation(false)]
    fn occurs(&self, ctx: &mut LevelCtx, lvl: Lvl) -> (r: bool)
        decreases self,
    {
        let mut i: usize = 0;
        while i < self.args.len()
            invariant
                i <= self@.len(),
                ctx@ == old(ctx)@,
                forall|j: int| 0 <= j < i ==> !occurs_term(#[trigger] self@[j], old(ctx)@, lvl),
            decreases self@.len() - i,
        {
            proof {
                assert(decreases_to!(self.args@ => self.args@[i as int]));
                assert(self@[i as int] == exp_view(self.args@[i as int]));
            }
            if self.args[i].occurs(ctx, lvl) {
                return true;
            }
            i += 1;
        }
        false
    }
}

impl Occurs for Match {
    open spec fn occurs_defined_in(&self, bound: Seq<usize>, lvl: Lvl) -> bool {
        match_occurs_defined(self@, bound, lvl)
    }

    open spec fn occurs_spec(&self, bound: Seq<usize>, lvl: Lvl) -> bool {
        occurs_match(self@, bound, lvl)
    }

    /// Whether the variable occurs in some clause body.
    #[verifier::loop_isolation(false)]
    fn occurs(&self, ctx: &mut LevelCtx, lvl: Lvl) -> (r: bool)
        decreases self,
    {
        let mut i: usize = 0;
        while i < self.cases.len()
            invariant
                i <= self.cases@.len(),
                ctx@ == old(ctx)@,
                forall|j: int|
                    0 <= j < i ==> !match #[trigger] self@.cases[j].body {
                        Some(b) => occurs_term(*b, old(ctx)@.push(self@.cases[j].params.len() as usize), lvl),
                        None => false,
                    },
            decreases self.cases@.len() - i,
        {
            proof {
                assert(decreases_to!(self.cases@ => self.cases@[i as int]));
            }
            let c: &Case = &self.cases[i];
            assert(self@.cases[i as int] == case_view(*c));
            assert(self@.cases[i as int].body == opt_view(c.body));
            assert(self@.cases[i as int].params.len() == c.params.params@.len());
            match &c.body {
                Some(b) => {
                    ctx.bind(c.params.params.len());
                    let found = b.occurs(ctx, lvl);
                    ctx.unbind();
                    assert(ctx@ =~= old(ctx)@);
                    if found {
                        return true;
                    }
                },
                None => {},
            }
            i += 1;
        }
        false
    }
}

impl Occurs for Exp {
    open spec fn occurs_defined_in(&self, bound: Seq<usize>, lvl: Lvl) -> bool {
        occurs_defined(self@, bound, lvl)
    }

    open spec fn occurs_spec(&self, bound: Seq<usize>, lvl: Lvl) -> bool {
        occurs_term(self@, bound, lvl)
    }

    /// Whether the variable at level `lvl` occurs in the expression.
    fn occurs(&self, ctx: &mut LevelCtx, lvl: Lvl) -> (r: bool)
        decreases self,
    {
        match self {
            Exp::Variable(v) => {
                let l = ctx.idx_to_lvl(v.idx);
                l.fst == lvl.fst && l.snd == lvl.snd
            },
            Exp::TypCtor(t) => {
                assert(t@.args == t.args@);
                t.args.occurs(ctx, lvl)
            },
            Exp::Call(c) => {
                assert(self@ matches Term::Call { args, .. } && args == c.args@);
                c.args.occurs(ctx, lvl)
            },
            Exp::DotCall(d) => {
                assert(self@ matches Term::DotCall { args, .. } && args == d.args@);
                d.exp.occurs(ctx, lvl) || d.args.occurs(ctx, lvl)
            },
            Exp::Anno(a) => a.exp.occurs(ctx, lvl) || a.typ.occurs(ctx, lvl),
            Exp::TypeUniv(_) => false,
            Exp::LocalMatch(m) => {
                assert(self@ matches Term::LocalMatch { body, .. } && body == m.body@);
                m.on_exp.occurs(ctx, lvl) || m.body.occurs(ctx, lvl)
            },
            Exp::LocalComatch(m) => {
                assert(self@ matches Term::LocalComatch { body, .. } && body == m.body@);
                m.body.occurs(ctx, lvl)
            },
            Exp::Hole(_) => false,
        }
    }
}

/// Whether the variable denoted by `the_idx` occurs in `in_exp`.
pub fn occurs_in(ctx: &mut LevelCtx, the_idx: Idx, in_exp: &Exp) -> (r: bool)
    requires
        idx_in_ctx(old(ctx)@, the_idx),
        occurs_defined(in_exp@, old(ctx)@, idx_to_lvl_spec(old(ctx)@, the_idx)),
    ensures
        final(ctx)@ == old(ctx)@,
        r == occurs_term(in_exp@, old(ctx)@, idx_to_lvl_spec(old(ctx)@, the_idx)),
{
    let lvl = ctx.idx_to_lvl(the_idx);
    in_exp.occurs(ctx, lvl)
}

/// Where every variable that the check inspects is bound, every variable
/// that it reaches is.
pub proof fn lemma_scoped_defined(t: Term, bound: Seq<usize>, lvl: Lvl)
    requires
        occurs_scoped(t, bound),
    ensures
        occurs_defined(t, bound, lvl),
    decreases t,
{
    match t {
        Term::TypCtor(tc) => {
            assert forall|i: int| 0 <= i < tc.args.len() implies occurs_defined(#[trigger] tc.args[i], bound, lvl) by {
                lemma_scoped_defined(tc.args[i], bound, lvl);
            }
        },
        Term::Call { args, .. } => {
            assert forall|i: int| 0 <= i < args.len() implies occurs_defined(#[trigger] args[i], bound, lvl) by {
                lemma_scoped_defined(args[i], bound, lvl);
            }
        },
        Term::DotCall { exp, args, .. } => {
            lemma_scoped_defined(*exp, bound, lvl);
            assert forall|i: int| 0 <= i < args.len() implies occurs_defined(#[trigger] args[i], bound, lvl) by {
                lemma_scoped_defined(args[i], bound, lvl);
            }
        },
        Term::Anno { exp, typ, .. } => {
            lemma_scoped_defined(*exp, bound, lvl);
            lemma_scoped_defined(*typ, bound, lvl);
        },
        Term::LocalMatch { on_exp, body, .. } => {
            lemma_scoped_defined(*on_exp, bound, lvl);
            lemma_match_scoped_defined(body, bound, lvl);
        },
        Term::LocalComatch { body, .. } => lemma_match_scoped_defined(body, bound, lvl),
        _ => {},
    }
}

proof fn lemma_match_scoped_defined(m: MatchM, bound: Seq<usize>, lvl: Lvl)
    requires
        match_occurs_scoped(m, bound),
    ensures
        match_occurs_defined(m, bound, lvl),
    decreases m,
{
    assert forall|i: int| 0 <= i < m.cases.len() implies match #[trigger] m.cases[i].body {
        Some(b) => occurs_defined(*b, bound.push(m.cases[i].params.len() as usize), lvl),
        None => true,
    } by {
        if let Some(b) = m.cases[i].body {
            lemma_scoped_defined(*b, bound.push(m.cases[i].params.len() as usize), lvl);
        }
    }
}


/// Whether no match inside `t` carries a motive.
pub open spec fn motive_free(t: Term) -> bool
    decreases t,
{
    match t {
        Term::TypCtor(tc) => forall|i: int| 0 <= i < tc.args.len() ==> motive_free(#[trigger] tc.args[i]),
        Term::Call { args, .. } => forall|i: int| 0 <= i < args.len() ==> motive_free(#[trigger] args[i]),
        Term::DotCall { exp, args, .. } => {
            &&& motive_free(*exp)
            &&& forall|i: int| 0 <= i < args.len() ==> motive_free(#[trigger] args[i])
        },
        Term::Anno { exp, typ, .. } => motive_free(*exp) && motive_free(*typ),
        Term::LocalMatch { on_exp, motive, body, .. } => motive is None && motive_free(*on_exp) && match_motive_free(body),
        Term::LocalComatch { body, .. } => match_motive_free(body),
        _ => true,
    }
}

/// Whether no match inside a clause body carries a motive.
pub open spec fn match_motive_free(m: MatchM) -> bool
    decreases m,
{
    forall|i: int|
        0 <= i < m.cases.len() ==> match #[trigger] m.cases[i].body {
            Some(b) => motive_free(*b),
            None => true,
        }
}

/// The occurrence check finds free occurrences of the variable, and, apart
/// from the motives of matches, which it does not inspect, it finds every one
/// of them: in a variable that denotes the level, in the destructee and in
/// every argument of a destructor call, in every argument of a call or a type
/// constructor, on either side of an annotation, in the scrutinee of a match
/// and in every clause body.
pub proof fn lemma_occurs_iff_free(t: Term, bound: Seq<usize>, lvl: Lvl)
    ensures
        occurs_term(t, bound, lvl) ==> fv_occurs(t, bound, lvl),
        motive_free(t) ==> (occurs_term(t, bound, lvl) <==> fv_occurs(t, bound, lvl)),
    decreases t,
{
    match t {
        Term::TypCtor(tc) => lemma_args_occurs_iff_free(tc.args, bound, lvl),
        Term::Call { args, .. } => lemma_args_occurs_iff_free(args, bound, lvl),
        Term::DotCall { exp, args, .. } => {
            lemma_occurs_iff_free(*exp, bound, lvl);
            lemma_args_occurs_iff_free(args, bound, lvl);
        },
        Term::Anno { exp, typ, .. } => {
            lemma_occurs_iff_free(*exp, bound, lvl);
            lemma_occurs_iff_free(*typ, bound, lvl);
        },
        Term::LocalMatch { on_exp, body, .. } => {
            lemma_occurs_iff_free(*on_exp, bound, lvl);
            lemma_match_occurs_iff_free(body, bound, lvl);
        },
        Term::LocalComatch { body, .. } => lemma_match_occurs_iff_free(body, bound, lvl),
        _ => {},
    }
}

proof fn lemma_args_occurs_iff_free(args: Seq<Term>, bound: Seq<usize>, lvl: Lvl)
    ensures
        (exists|i: int| 0 <= i < args.len() && occurs_term(#[trigger] args[i], bound, lvl)) ==> (exists|i: int|
            0 <= i < args.len() && fv_occurs(#[trigger] args[i], bound, lvl)),
        (forall|i: int| 0 <= i < args.len() ==> motive_free(#[trigger] args[i])) ==> ((exists|i: int|
            0 <= i < args.len() && occurs_term(#[trigger] args[i], bound, lvl)) <==> (exists|i: int|
            0 <= i < args.len() && fv_occurs(#[trigger] args[i], bound, lvl))),
    decreases args,
{
    assert forall|i: int| 0 <= i < args.len() implies {
        &&& occurs_term(#[trigger] args[i], bound, lvl) ==> fv_occurs(args[i], bound, lvl)
        &&& motive_free(args[i]) ==> (occurs_term(args[i], bound, lvl) <==> fv_occurs(args[i], bound, lvl))
    } by {
        lemma_occurs_iff_free(args[i], bound, lvl);
    }
}

proof fn lemma_match_occurs_iff_free(m: MatchM, bound: Seq<usize>, lvl: Lvl)
    ensures
        occurs_match(m, bound, lvl) ==> (exists|i: int| 0 <= i < m.cases.len() && case_occurs(#[trigger] m.cases[i], bound, lvl)),
        match_motive_free(m) ==> (occurs_match(m, bound, lvl) <==> (exists|i: int|
            0 <= i < m.cases.len() && case_occurs(#[trigger] m.cases[i], bound, lvl))),
    decreases m,
{
    assert forall|i: int| 0 <= i < m.cases.len() implies {
        &&& match #[trigger] m.cases[i].body {
            Some(b) => occurs_term(*b, bound.push(m.cases[i].params.len() as usize), lvl),
            None => false,
        } ==> case_occurs(m.cases[i], bound, lvl)
        &&& match m.cases[i].body {
            Some(b) => motive_free(*b),
            None => true,
        } ==> (match m.cases[i].body {
            Some(b) => occurs_term(*b, bound.push(m.cases[i].params.len() as usize), lvl),
            None => false,
        } <==> case_occurs(m.cases[i], bound, lvl))
    } by {
        if let Some(b) = m.cases[i].body {
            lemma_occurs_iff_free(*b, bound.push(m.cases[i].params.len() as usize), lvl);
        }
    }
}

} // verus!
