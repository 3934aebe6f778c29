//! Shifting de Bruijn indices.
//!
//! Shifting an expression by `(d1, d2)` in a range of telescopes adds `d1` to
//! the first and `d2` to the second component of every variable index whose
//! telescope (counted from the point where the shift starts) lies in that
//! range. Under a binder the range moves outwards by one telescope.
//! Shifting drops elaboration annotations (inferred types, the annotated
//! return type of a match), since they would no longer be valid.

use vstd::prelude::*;
use crate::de_bruijn::Idx;
use crate::equiv::{term_eq, terms_eq, cases_eq, opt_eq};
use crate::exp::{Exp, Term, TypCtorM, MotiveM, MatchM, CaseM, Args, Match, Case, Variable, TypCtor, Call, DotCall, Anno, TypeUniv, LocalMatch, LocalComatch, Hole, Motive, args_view, opt_view, exp_view, case_view, copy_telescope_inst, copy_param, copy_label};


verus! {

broadcast use vstd::std_specs::vec::group_vec_axioms, vstd::seq::group_seq_axioms;

/// A range of telescope positions: `[start, end)`, or `[start, ∞)` when `end` is `None`.
#[derive(Clone, Copy, Debug)]
pub struct ShiftRange {
    pub start: usize,
    pub end: Option<usize>,
}

/// Model of a [`ShiftRange`], with unbounded integers.
pub struct RangeM {
    pub lo: int,
    pub hi: Option<int>,
}

impl View for ShiftRange {
    type V = RangeM;

    open spec fn view(&self) -> RangeM {
        RangeM {
            lo: self.start as int,
            hi: match self.end {
                Some(e) => Some(e as int),
                None => None,
            },
        }
    }
}

/// Whether the telescope position `fst` lies in the range.
pub open spec fn in_range(r: RangeM, fst: int) -> bool {
    &&& r.lo <= fst
    &&& r.hi matches Some(h) ==> fst < h
}

/// The range as seen under one more binder.
pub open spec fn bump(r: RangeM) -> RangeM {
    RangeM {
        lo: r.lo + 1,
        hi: match r.hi {
            Some(h) => Some(h + 1),
            None => None,
        },
    }
}

/// Whether the range can be represented by a [`ShiftRange`].
pub open spec fn range_ok(r: RangeM) -> bool {
    &&& 0 <= r.lo <= usize::MAX
    &&& r.hi matches Some(h) ==> 0 <= h <= usize::MAX
}

impl ShiftRange {
    /// The range of all telescopes, `0..`.
    pub fn full() -> (r: ShiftRange)
        ensures
            r@ == (RangeM { lo: 0, hi: None }),
    {
        ShiftRange { start: 0, end: None }
    }

    /// The range `start..`.
    pub fn from(start: usize) -> (r: ShiftRange)
        ensures
            r@ == (RangeM { lo: start as int, hi: None }),
    {
        ShiftRange { start, end: None }
    }

    /// The range `start..end`.
    pub fn between(start: usize, end: usize) -> (r: ShiftRange)
        ensures
            r@ == (RangeM { lo: start as int, hi: Some(end as int) }),
    {
        ShiftRange { start, end: Some(end) }
    }

    /// Whether the telescope position `fst` lies in the range.
    pub fn contains(&self, fst: usize) -> (b: bool)
        ensures
            b == in_range(self@, fst as int),
    {
        match self.end {
            Some(e) => self.start <= fst && fst < e,
            None => self.start <= fst,
        }
    }

    /// The range moved outwards by `by` telescopes.
    pub fn shift(&self, by: usize) -> (r: ShiftRange)
        requires
            self.start + by <= usize::MAX,
            self.end matches Some(e) ==> e + by <= usize::MAX,
        ensures
            r@.lo == self@.lo + by,
            r@.hi == match self@.hi {
                Some(h) => Some(h + by),
                None => None,
            },
    {
        ShiftRange {
            start: self.start + by,
            end: match self.end {
                Some(e) => Some(e + by),
                None => None,
            },
        }
    }
}

// ---------------------------------------------------------------------------
// Specification
// ---------------------------------------------------------------------------

/// Whether shifting `idx` stays within the arithmetic of the machine.
pub open spec fn idx_shift_ok(idx: Idx, r: RangeM, by: (isize, isize)) -> bool {
    in_range(r, idx.fst as int) ==> {
        &&& idx.fst <= isize::MAX
        &&& idx.snd <= isize::MAX
        &&& isize::MIN <= idx.fst + by.0 <= isize::MAX
        &&& isize::MIN <= idx.snd + by.1 <= isize::MAX
    }
}

/// The shifted index. A negative result wraps around, as the cast to `usize` does.
pub open spec fn shift_idx(idx: Idx, r: RangeM, by: (isize, isize)) -> Idx {
    if in_range(r, idx.fst as int) {
        Idx { fst: (idx.fst + by.0) as usize, snd: (idx.snd + by.1) as usize }
    } else {
        idx
    }
}

/// Whether shifting a term stays within the arithmetic of the machine.
pub open spec fn shift_ok(t: Term, r: RangeM, by: (isize, isize)) -> bool
    decreases t,
{
    match t {
        Term::Variable { idx, .. } => idx_shift_ok(idx, r, by),
        Term::TypCtor(tc) => terms_shift_ok(tc.args, r, by),
        Term::Call { args, .. } => terms_shift_ok(args, r, by),
        Term::DotCall { exp, args, .. } => shift_ok(*exp, r, by) && terms_shift_ok(args, r, by),
        Term::Anno { exp, typ, .. } => shift_ok(*exp, r, by) && shift_ok(*typ, r, by),
        Term::TypeUniv { .. } => true,
        Term::LocalMatch { on_exp, motive, body, .. } => {
            &&& shift_ok(*on_exp, r, by)
            &&& motive matches Some(m) ==> range_ok(bump(r)) && shift_ok(*m.ret_typ, bump(r), by)
            &&& match_shift_ok(body, r, by)
        },
        Term::LocalComatch { body, .. } => match_shift_ok(body, r, by),
        Term::Hole { .. } => true,
    }
}

pub open spec fn terms_shift_ok(s: Seq<Term>, r: RangeM, by: (isize, isize)) -> bool
    decreases s,
{
    forall|i: int| 0 <= i < s.len() ==> shift_ok(#[trigger] s[i], r, by)
}

pub open spec fn opt_shift_ok(o: Option<Box<Term>>, r: RangeM, by: (isize, isize)) -> bool
    decreases o,
{
    match o {
        Some(t) => shift_ok(*t, r, by),
        None => true,
    }
}

/// Clause bodies are shifted under one more binder.
pub open spec fn match_shift_ok(m: MatchM, r: RangeM, by: (isize, isize)) -> bool
    decreases m,
{
    &&& range_ok(bump(r))
    &&& forall|i: int| 0 <= i < m.cases.len() ==> opt_shift_ok(#[trigger] m.cases[i].body, bump(r), by)
}

/// The shifted term.
pub open spec fn shift_term(t: Term, r: RangeM, by: (isize, isize)) -> Term
    decreases t,
{
    match t {
        Term::Variable { span, idx, name, .. } => Term::Variable {
            span,
            idx: shift_idx(idx, r, by),
            name,
            inferred_type: None,
        },
        Term::TypCtor(tc) => Term::TypCtor(
            TypCtorM { span: tc.span, name: tc.name, args: shift_terms(tc.args, r, by) },
        ),
        Term::Call { span, name, args, .. } => Term::Call {
            span,
            name,
            args: shift_terms(args, r, by),
            inferred_type: None,
        },
        Term::DotCall { span, exp, name, args, .. } => Term::DotCall {
            span,
            exp: Box::new(shift_term(*exp, r, by)),
            name,
            args: shift_terms(args, r, by),
            inferred_type: None,
        },
        Term::Anno { span, exp, typ, .. } => Term::Anno {
            span,
            exp: Box::new(shift_term(*exp, r, by)),
            typ: Box::new(shift_term(*typ, r, by)),
            normalized_type: None,
        },
        Term::TypeUniv { span } => Term::TypeUniv { span },
        Term::LocalMatch { span, name, on_exp, motive, body, .. } => Term::LocalMatch {
            span,
            name,
            on_exp: Box::new(shift_term(*on_exp, r, by)),
            motive: match motive {
                Some(m) => Some(
                    MotiveM {
                        span: m.span,
                        param: m.param,
                        ret_typ: Box::new(shift_term(*m.ret_typ, bump(r), by)),
                    },
                ),
                None => None,
            },
            ret_typ: None,
            body: shift_match(body, r, by),
            inferred_type: None,
        },
        Term::LocalComatch { span, name, is_lambda_sugar, body, .. } => Term::LocalComatch {
            span,
            name,
            is_lambda_sugar,
            body: shift_match(body, r, by),
            inferred_type: None,
        },
        Term::Hole { span, .. } => Term::Hole { span, inferred_type: None, inferred_ctx: None },
    }
}

pub open spec fn shift_terms(s: Seq<Term>, r: RangeM, by: (isize, isize)) -> Seq<Term>
    decreases s,
{
    Seq::new(
        s.len(),
        |i: int| if 0 <= i < s.len() { shift_term(s[i], r, by) } else { Term::TypeUniv { span: None } },
    )
}

pub open spec fn shift_opt(o: Option<Box<Term>>, r: RangeM, by: (isize, isize)) -> Option<Box<Term>>
    decreases o,
{
    match o {
        Some(t) => Some(Box::new(shift_term(*t, r, by))),
        None => None,
    }
}

/// Each clause body is shifted under the telescope of the clause.
pub open spec fn shift_match(m: MatchM, r: RangeM, by: (isize, isize)) -> MatchM
    decreases m,
{
    MatchM {
        span: m.span,
        cases: Seq::new(
            m.cases.len(),
            |i: int|
                if 0 <= i < m.cases.len() {
                    CaseM {
                        span: m.cases[i].span,
                        name: m.cases[i].name,
                        params: m.cases[i].params,
                        body: shift_opt(m.cases[i].body, bump(r), by),
                    }
                } else {
                    CaseM { span: None, name: Seq::empty(), params: Seq::empty(), body: None }
                },
        ),
        omit_absurd: m.omit_absurd,
    }
}

// ---------------------------------------------------------------------------
// Implementation
// ---------------------------------------------------------------------------

impl Idx {
    /// The index shifted by `by` when its telescope lies in `range`.
    pub fn shift_in_range(&self, range: &ShiftRange, by: (isize, isize)) -> (r: Idx)
        requires
            idx_shift_ok(*self, range@, by),
        ensures
            r == shift_idx(*self, range@, by),
    {
        if range.contains(self.fst) {
            Idx { fst: (self.fst as isize + by.0) as usize, snd: (self.snd as isize + by.1) as usize }
        } else {
            *self
        }
    }
}

/// Shift every argument.
#[verifier::loop_isolation(false)]
pub fn shift_exps(s: &Vec<Exp>, range: &ShiftRange, by: (isize, isize)) -> (r: Vec<Exp>)
    requires
        terms_shift_ok(args_view(s@), range@, by),
    ensures
        args_view(r@) == shift_terms(args_view(s@), range@, by),
    decreases s,
{
    let mut out: Vec<Exp> = Vec::new();
    let mut i: usize = 0;
    while i < s.len()
        invariant
            i <= s@.len(),
            out@.len() == i,
            forall|j: int| 0 <= j < i ==> exp_view(#[trigger] out@[j]) == shift_term(exp_view(s@[j]), range@, by),
        decreases s@.len() - i,
    {
        proof {
            assert(decreases_to!(s@ => s@[i as int]));
            assert(args_view(s@)[i as int] == exp_view(s@[i as int]));
        }
        let c = s[i].shift_in_range(range, by);
        out.push(c);
        i += 1;
    }
    assert(args_view(out@) =~= shift_terms(args_view(s@), range@, by));
    out
}

impl Args {
    /// Shift every argument.
    pub fn shift_in_range(&self, range: &ShiftRange, by: (isize, isize)) -> (r: Args)
        requires
            terms_shift_ok(self@, range@, by),
        ensures
            r@ == shift_terms(self@, range@, by),
        decreases self,
    {
        Args { args: shift_exps(&self.args, range, by) }
    }
}

/// Shift an optional clause body.
pub fn shift_opt_exp(o: &Option<Box<Exp>>, range: &ShiftRange, by: (isize, isize)) -> (r: Option<Box<Exp>>)
    requires
        opt_shift_ok(opt_view(*o), range@, by),
    ensures
        opt_view(r) == shift_opt(opt_view(*o), range@, by),
    decreases o,
{
    match o {
        Some(e) => Some(Box::new(e.shift_in_range(range, by))),
        None => None,
    }
}

impl Match {
    /// Shift every clause body; each body lies under the telescope of its clause.
    #[verifier::loop_isolation(false)]
    pub fn shift_in_range(&self, range: &ShiftRange, by: (isize, isize)) -> (r: Match)
        requires
            range_ok(range@),
            match_shift_ok(self@, range@, by),
        ensures
            r@ == shift_match(self@, range@, by),
        decreases self,
    {
        let inner = range.shift(1);
        let mut out: Vec<Case> = Vec::new();
        let mut i: usize = 0;
        while i < self.cases.len()
            invariant
                i <= self.cases@.len(),
                out@.len() == i,
                inner@ == bump(range@),
                forall|j: int|
                    0 <= j < i ==> #[trigger] case_view(out@[j]) == shift_match(self@, range@, by).cases[j],
            decreases self.cases@.len() - i,
        {
            proof {
                assert(decreases_to!(self.cases@ => self.cases@[i as int]));
                assert(self@.cases[i as int] == case_view(self.cases@[i as int]));
            }
            let c = &self.cases[i];
            assert(self@.cases[i as int].body == opt_view(c.body));
            assert(opt_shift_ok(self@.cases[i as int].body, bump(range@), by));
            let body = shift_opt_exp(&c.body, &inner, by);
            let params = copy_telescope_inst(&c.params);
            out.push(Case { span: c.span, name: c.name.clone(), params, body });
            i += 1;
        }
        let r = Match { span: self.span, cases: out, omit_absurd: self.omit_absurd };
        assert forall|j: int| 0 <= j < r@.cases.len() implies r@.cases[j] == shift_match(self@, range@, by).cases[j] by {
            assert(r@.cases[j] == case_view(out@[j]));
        }
        assert(r@.cases =~= shift_match(self@, range@, by).cases);
        r
    }
}

impl Exp {
    /// The expression with its variable indices shifted by `by` in `range`.
    pub fn shift_in_range(&self, range: &ShiftRange, by: (isize, isize)) -> (r: Exp)
        requires
            range_ok(range@),
            shift_ok(self@, range@, by),
        ensures
            r@ == shift_term(self@, range@, by),
        decreases self,
    {
        let res = match self {
            Exp::Variable(v) => Exp::Variable(
                Variable {
                    span: v.span,
                    idx: v.idx.shift_in_range(range, by),
                    name: v.name.clone(),
                    inferred_type: None,
                },
            ),
            Exp::TypCtor(t) => {
                assert(t@.args == t.args@);
                Exp::TypCtor(
                    TypCtor { span: t.span, name: t.name.clone(), args: t.args.shift_in_range(range, by) },
                )
            },
            Exp::Call(c) => Exp::Call(
                Call {
                    span: c.span,
                    name: c.name.clone(),
                    args: c.args.shift_in_range(range, by),
                    inferred_type: None,
                },
            ),
            Exp::DotCall(d) => Exp::DotCall(
                DotCall {
                    span: d.span,
                    exp: Box::new(d.exp.shift_in_range(range, by)),
                    name: d.name.clone(),
                    args: d.args.shift_in_range(range, by),
                    inferred_type: None,
                },
            ),
            Exp::Anno(a) => Exp::Anno(
                Anno {
                    span: a.span,
                    exp: Box::new(a.exp.shift_in_range(range, by)),
                    typ: Box::new(a.typ.shift_in_range(range, by)),
                    normalized_type: None,
                },
            ),
            Exp::TypeUniv(t) => Exp::TypeUniv(TypeUniv { span: t.span }),
            Exp::LocalMatch(m) => {
                let motive = match &m.motive {
                    Some(mo) => {
                        assert(crate::exp::opt_motive_view(m.motive) == Some(crate::exp::motive_view(*mo)));
                        let inner = range.shift(1);
                        Some(
                            Motive {
                                span: mo.span,
                                param: copy_param(&mo.param),
                                ret_typ: Box::new(mo.ret_typ.shift_in_range(&inner, by)),
                            },
                        )
                    },
                    None => None,
                };
                Exp::LocalMatch(
                    LocalMatch {
                        span: m.span,
                        name: copy_label(&m.name),
                        on_exp: Box::new(m.on_exp.shift_in_range(range, by)),
                        motive,
                        ret_typ: None,
                        body: m.body.shift_in_range(range, by),
                        inferred_type: None,
                    },
                )
            },
            Exp::LocalComatch(m) => Exp::LocalComatch(
                LocalComatch {
                    span: m.span,
                    name: copy_label(&m.name),
                    is_lambda_sugar: m.is_lambda_sugar,
                    body: m.body.shift_in_range(range, by),
                    inferred_type: None,
                },
            ),
            Exp::Hole(h) => {
                assert(crate::exp::opt_type_ctx_view(None) == None::<Seq<Seq<(Seq<char>, Term)>>>);
                assert(crate::exp::opt_view(None) == None::<Box<Term>>);
                Exp::Hole(Hole { span: h.span, inferred_type: None, inferred_ctx: None })
            },
        };
        proof {
            if let Exp::TypCtor(t) = self {
                if let Exp::TypCtor(u) = &res {
                    assert(u@.args == u.args@);
                }
            }
            assert(crate::exp::opt_typ_ctor_view(None) == None::<TypCtorM>);
            if let Exp::LocalMatch(m) = self {
                if let Exp::LocalMatch(n) = &res {
                    assert(crate::exp::label_view(n.name) == crate::exp::label_view(m.name));
                    assert(n.body@ == shift_match(m.body@, range@, by));
                    assert(crate::exp::opt_typ_ctor_view(n.inferred_type) == None::<TypCtorM>);
                    assert(opt_view(n.ret_typ) == None::<Box<Term>>);
                    assert(exp_view(*n.on_exp) == shift_term(exp_view(*m.on_exp), range@, by));
                    assert(crate::exp::opt_motive_view(n.motive) == match crate::exp::opt_motive_view(m.motive) {
                        Some(mo) => Some(MotiveM { span: mo.span, param: mo.param, ret_typ: Box::new(shift_term(*mo.ret_typ, bump(range@), by)) }),
                        None => None,
                    });
                    assert(res@ == shift_term(self@, range@, by));
                }
            }
            if let Exp::LocalComatch(m) = self {
                if let Exp::LocalComatch(n) = &res {
                    assert(crate::exp::label_view(n.name) == crate::exp::label_view(m.name));
                    assert(n.body@ == shift_match(m.body@, range@, by));
                    assert(crate::exp::opt_typ_ctor_view(n.inferred_type) == None::<TypCtorM>);
                    assert(res@ == shift_term(self@, range@, by));
                }
            }
        }
        res
    }

    /// The expression with the indices of all its free variables shifted by `by`.
    pub fn shift(&self, by: (isize, isize)) -> (r: Exp)
        requires
            shift_ok(self@, RangeM { lo: 0, hi: None }, by),
        ensures
            r@ == shift_term(self@, RangeM { lo: 0, hi: None }, by),
    {
        let range = ShiftRange::full();
        self.shift_in_range(&range, by)
    }
}

// ---------------------------------------------------------------------------
// Laws
// ---------------------------------------------------------------------------

proof fn lemma_shift_zero_terms(s: Seq<Term>, r: RangeM)
    requires
        terms_shift_ok(s, r, (0, 0)),
    ensures
        terms_eq(shift_terms(s, r, (0, 0)), s),
    decreases s,
{
    assert forall|i: int| 0 <= i < s.len() implies term_eq(#[trigger] shift_terms(s, r, (0, 0))[i], s[i]) by {
        lemma_shift_zero(s[i], r);
    }
}

proof fn lemma_shift_zero_opt(o: Option<Box<Term>>, r: RangeM)
    requires
        opt_shift_ok(o, r, (0, 0)),
    ensures
        opt_eq(shift_opt(o, r, (0, 0)), o),
    decreases o,
{
    if let Some(t) = o {
        lemma_shift_zero(*t, r);
    }
}

proof fn lemma_shift_zero_match(m: MatchM, r: RangeM)
    requires
        match_shift_ok(m, r, (0, 0)),
    ensures
        cases_eq(shift_match(m, r, (0, 0)), m),
    decreases m,
{
    let sm = shift_match(m, r, (0, 0));
    assert forall|i: int| 0 <= i < sm.cases.len() implies opt_eq(#[trigger] sm.cases[i].body, m.cases[i].body) by {
        lemma_shift_zero_opt(m.cases[i].body, bump(r));
    }
}

/// Shifting by zero gives an alpha-equivalent expression.
pub proof fn lemma_shift_zero(t: Term, r: RangeM)
    requires
        shift_ok(t, r, (0, 0)),
    ensures
        term_eq(shift_term(t, r, (0, 0)), t),
    decreases t,
{
    match t {
        Term::TypCtor(tc) => lemma_shift_zero_terms(tc.args, r),
        Term::Call { args, .. } => lemma_shift_zero_terms(args, r),
        Term::DotCall { exp, args, .. } => {
            lemma_shift_zero(*exp, r);
            lemma_shift_zero_terms(args, r);
        },
        Term::Anno { exp, typ, .. } => {
            lemma_shift_zero(*exp, r);
            lemma_shift_zero(*typ, r);
        },
        Term::LocalMatch { on_exp, motive, body, .. } => {
            lemma_shift_zero(*on_exp, r);
            if let Some(mo) = motive {
                lemma_shift_zero(*mo.ret_typ, bump(r));
            }
            lemma_shift_zero_match(body, r);
        },
        Term::LocalComatch { body, .. } => lemma_shift_zero_match(body, r),
        _ => {},
    }
}

proof fn lemma_shift_back_terms(s: Seq<Term>, r: RangeM, k: isize)
    requires
        r.hi is None,
        0 <= k,
        terms_shift_ok(s, r, (k, 0)),
    ensures
        terms_shift_ok(shift_terms(s, r, (k, 0)), r, (-k as isize, 0)),
        terms_eq(shift_terms(shift_terms(s, r, (k, 0)), r, (-k as isize, 0)), s),
    decreases s,
{
    let s1 = shift_terms(s, r, (k, 0));
    assert forall|i: int| 0 <= i < s1.len() implies shift_ok(#[trigger] s1[i], r, (-k as isize, 0)) by {
        lemma_shift_back(s[i], r, k);
    }
    assert forall|i: int| 0 <= i < s.len() implies term_eq(#[trigger] shift_terms(s1, r, (-k as isize, 0))[i], s[i]) by {
        lemma_shift_back(s[i], r, k);
    }
}

proof fn lemma_shift_back_opt(o: Option<Box<Term>>, r: RangeM, k: isize)
    requires
        r.hi is None,
        0 <= k,
        opt_shift_ok(o, r, (k, 0)),
    ensures
        opt_shift_ok(shift_opt(o, r, (k, 0)), r, (-k as isize, 0)),
        opt_eq(shift_opt(shift_opt(o, r, (k, 0)), r, (-k as isize, 0)), o),
    decreases o,
{
    if let Some(t) = o {
        lemma_shift_back(*t, r, k);
    }
}

proof fn lemma_shift_back_match(m: MatchM, r: RangeM, k: isize)
    requires
        r.hi is None,
        0 <= k,
        match_shift_ok(m, r, (k, 0)),
    ensures
        match_shift_ok(shift_match(m, r, (k, 0)), r, (-k as isize, 0)),
        cases_eq(shift_match(shift_match(m, r, (k, 0)), r, (-k as isize, 0)), m),
    decreases m,
{
    let m1 = shift_match(m, r, (k, 0));
    let m2 = shift_match(m1, r, (-k as isize, 0));
    assert forall|i: int| 0 <= i < m1.cases.len() implies opt_shift_ok(#[trigger] m1.cases[i].body, bump(r), (-k as isize, 0)) by {
        lemma_shift_back_opt(m.cases[i].body, bump(r), k);
    }
    assert forall|i: int| 0 <= i < m2.cases.len() implies opt_eq(#[trigger] m2.cases[i].body, m.cases[i].body) by {
        lemma_shift_back_opt(m.cases[i].body, bump(r), k);
    }
}

/// Shifting by `k` telescopes and then by `-k` telescopes, over all telescopes
/// from some position outwards, gives an alpha-equivalent expression; the
/// second shift is always defined when the first one is.
pub proof fn lemma_shift_back(t: Term, r: RangeM, k: isize)
    requires
        r.hi is None,
        0 <= k,
        shift_ok(t, r, (k, 0)),
    ensures
        shift_ok(shift_term(t, r, (k, 0)), r, (-k as isize, 0)),
        term_eq(shift_term(shift_term(t, r, (k, 0)), r, (-k as isize, 0)), t),
    decreases t,
{
    match t {
        Term::TypCtor(tc) => lemma_shift_back_terms(tc.args, r, k),
        Term::Call { args, .. } => lemma_shift_back_terms(args, r, k),
        Term::DotCall { exp, args, .. } => {
            lemma_shift_back(*exp, r, k);
            lemma_shift_back_terms(args, r, k);
        },
        Term::Anno { exp, typ, .. } => {
            lemma_shift_back(*exp, r, k);
            lemma_shift_back(*typ, r, k);
        },
        Term::LocalMatch { on_exp, motive, body, .. } => {
            lemma_shift_back(*on_exp, r, k);
            if let Some(mo) = motive {
                lemma_shift_back(*mo.ret_typ, bump(r), k);
            }
            lemma_shift_back_match(body, r, k);
        },
        Term::LocalComatch { body, .. } => lemma_shift_back_match(body, r, k),
        _ => {},
    }
}

/// The range of all telescopes from `k` positions further out than `r`.
pub open spec fn range_after(r: RangeM, k: int) -> RangeM {
    RangeM { lo: r.lo + k, hi: None }
}

/// Every range that shifting `t` over `r` meets under the binders of `t` can
/// be represented by a [`ShiftRange`].
pub open spec fn ranges_ok(t: Term, r: RangeM) -> bool
    decreases t,
{
    match t {
        Term::TypCtor(tc) => forall|i: int| 0 <= i < tc.args.len() ==> ranges_ok(#[trigger] tc.args[i], r),
        Term::Call { args, .. } => forall|i: int| 0 <= i < args.len() ==> ranges_ok(#[trigger] args[i], r),
        Term::DotCall { exp, args, .. } => ranges_ok(*exp, r) && forall|i: int|
            0 <= i < args.len() ==> ranges_ok(#[trigger] args[i], r),
        Term::Anno { exp, typ, .. } => ranges_ok(*exp, r) && ranges_ok(*typ, r),
        Term::LocalMatch { on_exp, motive, body, .. } => {
            &&& ranges_ok(*on_exp, r)
            &&& motive matches Some(m) ==> range_ok(bump(r)) && ranges_ok(*m.ret_typ, bump(r))
            &&& range_ok(bump(r))
            &&& forall|i: int|
                0 <= i < body.cases.len() ==> match #[trigger] body.cases[i].body {
                    Some(b) => ranges_ok(*b, bump(r)),
                    None => true,
                }
        },
        Term::LocalComatch { body, .. } => {
            &&& range_ok(bump(r))
            &&& forall|i: int|
                0 <= i < body.cases.len() ==> match #[trigger] body.cases[i].body {
                    Some(b) => ranges_ok(*b, bump(r)),
                    None => true,
                }
        },
        _ => true,
    }
}

proof fn lemma_shift_up_back_terms(s: Seq<Term>, r: RangeM, k: isize)
    requires
        r.hi is None,
        0 <= k,
        terms_shift_ok(s, r, (k, 0)),
        forall|i: int| 0 <= i < s.len() ==> ranges_ok(#[trigger] s[i], range_after(r, k as int)),
    ensures
        terms_shift_ok(shift_terms(s, r, (k, 0)), range_after(r, k as int), (-k as isize, 0)),
        terms_eq(shift_terms(shift_terms(s, r, (k, 0)), range_after(r, k as int), (-k as isize, 0)), s),
    decreases s,
{
    let s1 = shift_terms(s, r, (k, 0));
    assert forall|i: int| 0 <= i < s1.len() implies shift_ok(#[trigger] s1[i], range_after(r, k as int), (-k as isize, 0)) by {
        lemma_shift_up_back(s[i], r, k);
    }
    assert forall|i: int| 0 <= i < s.len() implies term_eq(
        #[trigger] shift_terms(s1, range_after(r, k as int), (-k as isize, 0))[i],
        s[i],
    ) by {
        lemma_shift_up_back(s[i], r, k);
    }
}

proof fn lemma_shift_up_back_opt(o: Option<Box<Term>>, r: RangeM, k: isize)
    requires
        r.hi is None,
        0 <= k,
        opt_shift_ok(o, r, (k, 0)),
        o matches Some(t) ==> ranges_ok(*t, range_after(r, k as int)),
    ensures
        opt_shift_ok(shift_opt(o, r, (k, 0)), range_after(r, k as int), (-k as isize, 0)),
        opt_eq(shift_opt(shift_opt(o, r, (k, 0)), range_after(r, k as int), (-k as isize, 0)), o),
    decreases o,
{
    if let Some(t) = o {
        lemma_shift_up_back(*t, r, k);
    }
}

proof fn lemma_shift_up_back_match(m: MatchM, r: RangeM, k: isize)
    requires
        r.hi is None,
        0 <= k,
        match_shift_ok(m, r, (k, 0)),
        range_ok(bump(range_after(r, k as int))),
        forall|i: int|
            0 <= i < m.cases.len() ==> match #[trigger] m.cases[i].body {
                Some(b) => ranges_ok(*b, bump(range_after(r, k as int))),
                None => true,
            },
    ensures
        match_shift_ok(shift_match(m, r, (k, 0)), range_after(r, k as int), (-k as isize, 0)),
        cases_eq(shift_match(shift_match(m, r, (k, 0)), range_after(r, k as int), (-k as isize, 0)), m),
    decreases m,
{
    let r2 = range_after(r, k as int);
    let m1 = shift_match(m, r, (k, 0));
    let m2 = shift_match(m1, r2, (-k as isize, 0));
    assert(bump(r2) == range_after(bump(r), k as int));
    assert forall|i: int| 0 <= i < m1.cases.len() implies opt_shift_ok(#[trigger] m1.cases[i].body, bump(r2), (-k as isize, 0)) by {
        assert(match m.cases[i].body {
            Some(b) => ranges_ok(*b, bump(r2)),
            None => true,
        });
        lemma_shift_up_back_opt(m.cases[i].body, bump(r), k);
    }
    assert forall|i: int| 0 <= i < m2.cases.len() implies opt_eq(#[trigger] m2.cases[i].body, m.cases[i].body) by {
        assert(match m.cases[i].body {
            Some(b) => ranges_ok(*b, bump(r2)),
            None => true,
        });
        lemma_shift_up_back_opt(m.cases[i].body, bump(r), k);
    }
}

/// Shifting the variables of the telescopes from some position outwards up
/// by `k` telescopes, and then those from `k` positions further out back
/// down by `k`, gives an alpha-equivalent expression: the variables that were
/// moved are moved back, and the others are never touched. The second shift
/// is defined whenever the first one is and the ranges that it meets under
/// the binders of the term can be represented.
pub proof fn lemma_shift_up_back(t: Term, r: RangeM, k: isize)
    requires
        r.hi is None,
        0 <= k,
        shift_ok(t, r, (k, 0)),
        ranges_ok(t, range_after(r, k as int)),
    ensures
        shift_ok(shift_term(t, r, (k, 0)), range_after(r, k as int), (-k as isize, 0)),
        term_eq(shift_term(shift_term(t, r, (k, 0)), range_after(r, k as int), (-k as isize, 0)), t),
    decreases t,
{
    let r2 = range_after(r, k as int);
    assert(bump(r2) == range_after(bump(r), k as int));
    match t {
        Term::TypCtor(tc) => lemma_shift_up_back_terms(tc.args, r, k),
        Term::Call { args, .. } => lemma_shift_up_back_terms(args, r, k),
        Term::DotCall { exp, args, .. } => {
            lemma_shift_up_back(*exp, r, k);
            lemma_shift_up_back_terms(args, r, k);
        },
        Term::Anno { exp, typ, .. } => {
            lemma_shift_up_back(*exp, r, k);
            lemma_shift_up_back(*typ, r, k);
        },
        Term::LocalMatch { on_exp, motive, body, .. } => {
            lemma_shift_up_back(*on_exp, r, k);
            if let Some(mo) = motive {
                lemma_shift_up_back(*mo.ret_typ, bump(r), k);
            }
            lemma_shift_up_back_match(body, r, k);
        },
        Term::LocalComatch { body, .. } => lemma_shift_up_back_match(body, r, k),
        _ => {},
    }
}

} // verus!
