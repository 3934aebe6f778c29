//! Lifting local (co)matches to toplevel definitions: the free variables of
//! the lifted expression, the order in which the new definition binds them,
//! the map from them to the new variables, and the signature of the new
//! definition.

use vstd::prelude::*;
use crate::de_bruijn::{Idx, Lvl, LevelCtx, lvl_in_ctx, lvl_to_idx_spec};
use crate::exp::{Exp, Term, Variable, exp_view};
use crate::subst::{Substitution, SubstM, entries_view};
use crate::occurs::{Occurs, occurs_term, occurs_scoped};
use crate::subst::{subst_ok, subst_term};
use crate::decl::{Param, Telescope};
use crate::exp::Args;

verus! {

broadcast use vstd::std_specs::vec::group_vec_axioms, vstd::seq::group_seq_axioms;

/// The new bound variable that replaces a free variable.
#[derive(Clone, Debug)]
pub struct NewBoundVar {
    pub name: String,
    pub lvl: Lvl,
}

/// Map from the levels of free variables to the new variables that bind
/// them, which form one telescope in the order in which they were added.
/// `cutoff` is the number of telescopes of the context under which the
/// lifted expression stood.
#[derive(Clone, Debug)]
pub struct FreeVarsMap {
    map: Vec<(Lvl, NewBoundVar)>,
    cutoff: usize,
}

/// Model of a [`FreeVarsMap`].
pub struct FreeVarsM {
    pub map: Seq<(Lvl, Seq<char>, Lvl)>,
    pub cutoff: usize,
}

impl View for FreeVarsMap {
    type V = FreeVarsM;

    closed spec fn view(&self) -> FreeVarsM {
        FreeVarsM {
            map: Seq::new(self.map@.len(), |i: int| (self.map@[i].0, self.map@[i].1.name@, self.map@[i].1.lvl)),
            cutoff: self.cutoff,
        }
    }
}

/// Whether no level is mapped twice.
pub open spec fn levels_unique(m: Seq<(Lvl, Seq<char>, Lvl)>) -> bool {
    forall|i: int, j: int| 0 <= i < m.len() && 0 <= j < m.len() && i != j ==> m[i].0 != m[j].0
}

/// The map with `lvl` mapped to a new variable at the next position of the
/// new telescope; an entry for `lvl` that exists already is replaced.
pub open spec fn add_spec(m: Seq<(Lvl, Seq<char>, Lvl)>, name: Seq<char>, lvl: Lvl) -> Seq<(Lvl, Seq<char>, Lvl)> {
    let nv = (lvl, name, Lvl { fst: 0, snd: m.len() as usize });
    if exists|i: int| 0 <= i < m.len() && m[i].0 == lvl {
        m.update(choose|i: int| 0 <= i < m.len() && m[i].0 == lvl, nv)
    } else {
        m.push(nv)
    }
}

/// The variable named `name` at index `idx`, as the substitutions build it.
pub open spec fn new_var(idx: Idx, name: Seq<char>) -> Term {
    Term::Variable { span: None, idx, name, inferred_type: None }
}

/// Every new variable lies in the new telescope.
pub open spec fn positions_ok(m: Seq<(Lvl, Seq<char>, Lvl)>) -> bool {
    forall|i: int| 0 <= i < m.len() ==> (#[trigger] m[i]).2.snd < m.len()
}

impl FreeVarsMap {
    /// The empty map for an expression under `cutoff` telescopes.
    pub fn new(cutoff: usize) -> (r: FreeVarsMap)
        ensures
            r@.map == Seq::<(Lvl, Seq<char>, Lvl)>::empty(),
            r@.cutoff == cutoff,
    {
        let r = FreeVarsMap { map: Vec::new(), cutoff };
        assert(r@.map =~= Seq::<(Lvl, Seq<char>, Lvl)>::empty());
        r
    }

    /// The number of free variables.
    pub fn len(&self) -> (n: usize)
        ensures
            n == self@.map.len(),
    {
        self.map.len()
    }

    /// Map the free variable at `lvl` to a new variable named `name` at the
    /// next position of the new telescope.
    #[verifier::loop_isolation(false)]
    pub fn add(&mut self, name: String, lvl: Lvl)
        requires
            levels_unique(old(self)@.map),
        ensures
            final(self)@.map == add_spec(old(self)@.map, name@, lvl),
            final(self)@.cutoff == old(self)@.cutoff,
            levels_unique(final(self)@.map),
    {
        let n = self.map.len();
        let ghost nm = name@;
        let nv = NewBoundVar { name, lvl: Lvl { fst: 0, snd: n } };
        let ghost new_entry = (lvl, nv.name@, nv.lvl);
        let mut i: usize = 0;
        while i < self.map.len()
            invariant
                i <= self.map@.len(),
                self@ == old(self)@,
                levels_unique(self@.map),
                n == self.map@.len(),
                new_entry == (lvl, nv.name@, nv.lvl),
                nm == nv.name@,
                nv.lvl == (Lvl { fst: 0, snd: n }),
                forall|j: int| 0 <= j < i ==> self.map@[j].0 != lvl,
            decreases self.map@.len() - i,
        {
            if self.map[i].0.fst == lvl.fst && self.map[i].0.snd == lvl.snd {
                let ghost m = self@.map;
                assert(m[i as int].0 == lvl);
                assert forall|k: int| 0 <= k < m.len() && m[k].0 == lvl implies k == i by {
                    if k != i {
                        assert(m[k].0 != m[i as int].0);
                    }
                }
                self.map.set(i, (lvl, nv));
                assert(self@.map =~= m.update(i as int, new_entry));
                proof {
                    let c = choose|k: int| 0 <= k < m.len() && m[k].0 == lvl;
                    assert(0 <= c < m.len() && m[c].0 == lvl);
                    assert(c == i);
                    assert(new_entry == (lvl, nm, Lvl { fst: 0, snd: m.len() as usize }));
                    assert(self@.map == add_spec(m, nm, lvl));
                    let r = self@.map;
                    assert forall|a: int, b: int| 0 <= a < r.len() && 0 <= b < r.len() && a != b implies r[a].0 != r[b].0 by {
                        if a != i && b != i {
                            assert(r[a] == m[a] && r[b] == m[b]);
                        } else if a == i {
                            assert(r[b] == m[b]);
                        } else {
                            assert(r[a] == m[a]);
                        }
                    }
                }
                return;
            }
            i += 1;
        }
        let ghost m = self@.map;
        self.map.push((lvl, nv));
        assert(self@.map =~= m.push(new_entry));
        proof {
            assert(!exists|k: int| 0 <= k < m.len() && m[k].0 == lvl);
            assert(self@.map == add_spec(m, nm, lvl));
            let r = self@.map;
            assert forall|a: int, b: int| 0 <= a < r.len() && 0 <= b < r.len() && a != b implies r[a].0 != r[b].0 by {
                if a < m.len() && b < m.len() {
                    assert(r[a] == m[a] && r[b] == m[b]);
                } else if a < m.len() {
                    assert(r[a] == m[a]);
                } else {
                    assert(r[b] == m[b]);
                }
            }
        }
    }

    /// The substitution for the parameter types of the lifted definition: the
    /// free variable at each mapped level is replaced by its new variable,
    /// indexed within the new telescope alone.
    #[verifier::spinoff_prover]
    pub fn to_param_subst(&self) -> (s: Substitution)
        requires
            positions_ok(self@.map),
        ensures
            s@ == SubstM::Entries(
                Seq::new(
                    self@.map.len(),
                    |i: int| (self@.map[i].0, new_var(Idx { fst: 0, snd: (self@.map.len() - 1 - self@.map[i].2.snd) as usize }, self@.map[i].1)),
                ),
            ),
    {
        let n = self.map.len();
        let mut out: Vec<(Lvl, Exp)> = Vec::new();
        let mut i: usize = 0;
        while i < self.map.len()
            invariant
                i <= self.map@.len(),
                n == self.map@.len(),
                positions_ok(self@.map),
                out@.len() == i,
                forall|j: int| 0 <= j < i ==> #[trigger] out@[j].0 == self@.map[j].0 && exp_view(out@[j].1) == new_var(
                    Idx { fst: 0, snd: (n - 1 - self@.map[j].2.snd) as usize },
                    self@.map[j].1,
                ),
            decreases self.map@.len() - i,
        {
            let orig = self.map[i].0;
            let nv = &self.map[i].1;
            assert(self@.map[i as int].2.snd < n);
            let idx = Idx { fst: 0, snd: n - 1 - nv.lvl.snd };
            let e = Exp::Variable(Variable { span: None, idx, name: nv.name.clone(), inferred_type: None });
            assert(crate::exp::opt_view(None) == None::<Box<Term>>);
            assert(exp_view(e) == new_var(idx, self@.map[i as int].1));
            let ghost before = out@;
            out.push((orig, e));
            assert forall|j: int| 0 <= j < i + 1 implies #[trigger] out@[j].0 == self@.map[j].0 && exp_view(out@[j].1) == new_var(
                Idx { fst: 0, snd: (n - 1 - self@.map[j].2.snd) as usize },
                self@.map[j].1,
            ) by {
                if j < i {
                    assert(out@[j] == before[j]);
                    assert(before[j].0 == self@.map[j].0);
                } else {
                    assert(out@[j] == (orig, e));
                    assert(self@.map[j].0 == orig);
                    assert(self@.map[j].2 == nv.lvl);
                    assert(self@.map[j].1 == nv.name@);
                    assert(idx == Idx { fst: 0, snd: (n - 1 - self@.map[j].2.snd) as usize });
                    assert(exp_view(out@[j].1) == new_var(idx, self@.map[j].1));
                }
            }
            i += 1;
        }
        let s = Substitution::Entries(out);
        assert(entries_view(out@) =~= Seq::new(
            self@.map.len(),
            |i: int| (self@.map[i].0, new_var(Idx { fst: 0, snd: (self@.map.len() - 1 - self@.map[i].2.snd) as usize }, self@.map[i].1)),
        ));
        s
    }

    /// The substitution for the body of the lifted definition: the free
    /// variable at each mapped level is replaced by its new variable, indexed
    /// in the context made of the new telescope followed by the telescopes of
    /// `ctx` after the cutoff.
    pub fn into_body_subst(self, ctx: &LevelCtx) -> (s: Substitution)
        requires
            positions_ok(self@.map),
            forall|i: int| 0 <= i < self@.map.len() ==> (#[trigger] self@.map[i]).2.fst == 0,
            ctx@.len() < usize::MAX,
        ensures
            s@ == SubstM::Entries(
                Seq::new(
                    self@.map.len(),
                    |i: int| (self@.map[i].0, new_var(
                        lvl_to_idx_spec(seq![self@.map.len() as usize] + (if self@.cutoff <= ctx@.len() { ctx@.skip(self@.cutoff as int) } else { Seq::empty() }), self@.map[i].2),
                        self@.map[i].1,
                    )),
                ),
            ),
    {
        let ghost m = self@.map;
        let n = self.map.len();
        let mut sizes: Vec<usize> = Vec::new();
        sizes.push(n);
        let tail = ctx.tail(self.cutoff);
        let new_ctx = LevelCtx::from_sizes(sizes).append(&tail);
        let ghost nb = new_ctx@;
        assert(nb =~= seq![n] + (if self@.cutoff <= ctx@.len() { ctx@.skip(self@.cutoff as int) } else { Seq::empty() }));
        let mut out: Vec<(Lvl, Exp)> = Vec::new();
        let mut i: usize = 0;
        while i < self.map.len()
            invariant
                i <= m.len(),
                self@.map == m,
                n == m.len(),
                nb == new_ctx@,
                nb.len() >= 1,
                nb[0] == n,
                nb.len() <= usize::MAX,
                positions_ok(m),
                forall|k: int| 0 <= k < m.len() ==> (#[trigger] m[k]).2.fst == 0,
                out@.len() == i,
                forall|j: int| 0 <= j < i ==> #[trigger] out@[j].0 == m[j].0 && exp_view(out@[j].1) == new_var(
                    lvl_to_idx_spec(nb, m[j].2),
                    m[j].1,
                ),
            decreases m.len() - i,
        {
            let orig = self.map[i].0;
            let nv = &self.map[i].1;
            assert(m[i as int].2.snd < n && m[i as int].2.fst == 0);
            assert(lvl_in_ctx(new_ctx@, nv.lvl));
            let idx = new_ctx.lvl_to_idx(nv.lvl);
            let e = Exp::Variable(Variable { span: None, idx, name: nv.name.clone(), inferred_type: None });
            assert(crate::exp::opt_view(None) == None::<Box<Term>>);
            out.push((orig, e));
            i += 1;
        }
        let s = Substitution::Entries(out);
        assert(entries_view(out@) =~= Seq::new(
            m.len(),
            |i: int| (m[i].0, new_var(lvl_to_idx_spec(nb, m[i].2), m[i].1)),
        ));
        s
    }
}

/// The index of the new variable of the `i`-th free variable in the context
/// of the body.
pub open spec fn body_idx(m: FreeVarsM, ctx: Seq<usize>, i: int) -> Idx {
    lvl_to_idx_spec(seq![m.map.len() as usize] + ctx.skip(m.cutoff as int), m.map[i].2)
}

/// The index of the new variable of the `i`-th free variable, seen `fst`
/// telescopes further in.
pub open spec fn new_idx(m: FreeVarsM, fst: usize, i: int) -> Idx {
    Idx { fst, snd: (m.map.len() - 1 - m.map[i].2.snd) as usize }
}

/// The body substitution replaces each free variable by the variable at
/// position `j` of the new telescope, whose index is `(ctx.len() - cutoff, n - 1 - j)`
/// for `n` new variables; when no telescope of `ctx` lies after the cutoff,
/// it agrees entry by entry with the parameter substitution.
pub proof fn lemma_body_subst_indices(m: FreeVarsM, ctx: Seq<usize>)
    requires
        positions_ok(m.map),
        forall|i: int| 0 <= i < m.map.len() ==> (#[trigger] m.map[i]).2.fst == 0,
        m.cutoff <= ctx.len(),
        m.map.len() <= usize::MAX,
    ensures
        forall|i: int| 0 <= i < m.map.len() ==> #[trigger] body_idx(m, ctx, i) == new_idx(m, (ctx.len() - m.cutoff) as usize, i),
        m.cutoff == ctx.len() ==> forall|i: int| 0 <= i < m.map.len() ==> #[trigger] body_idx(m, ctx, i) == new_idx(m, 0, i),
{
    let nb = seq![m.map.len() as usize] + ctx.skip(m.cutoff as int);
    assert(nb.len() == 1 + ctx.len() - m.cutoff);
    assert(nb[0] == m.map.len());
}

/// Adding distinct levels to an empty map, one after another, keeps every new
/// variable in the new telescope.
pub proof fn lemma_add_keeps_positions(m: Seq<(Lvl, Seq<char>, Lvl)>, name: Seq<char>, lvl: Lvl)
    requires
        positions_ok(m),
        forall|i: int| 0 <= i < m.len() ==> m[i].0 != lvl,
    ensures
        positions_ok(add_spec(m, name, lvl)),
        add_spec(m, name, lvl).len() == m.len() + 1,
        add_spec(m, name, lvl).last().2 == (Lvl { fst: 0, snd: m.len() as usize }),
{
    let r = add_spec(m, name, lvl);
    assert(r == m.push((lvl, name, Lvl { fst: 0, snd: m.len() as usize })));
    assert forall|i: int| 0 <= i < r.len() implies (#[trigger] r[i]).2.snd < r.len() by {
        if i < m.len() {
            assert(r[i] == m[i]);
        }
    }
}

// ---------------------------------------------------------------------------
// Free variables and their order
// ---------------------------------------------------------------------------

/// A free variable of an expression that is lifted: its name, its level in
/// the context of the expression, its type, and the context in which the
/// type is closed.
#[derive(Debug)]
pub struct FreeVar {
    pub name: String,
    pub lvl: Lvl,
    pub typ: Box<Exp>,
    pub ctx: LevelCtx,
}

/// Whether the variable `a` occurs in the type of `b`.
pub open spec fn occurs_in_type(a: FreeVar, b: FreeVar) -> bool {
    occurs_term(exp_view(*b.typ), b.ctx@, a.lvl)
}

/// The lexicographic order of levels.
pub open spec fn lvl_less(a: Lvl, b: Lvl) -> bool {
    a.fst < b.fst || (a.fst == b.fst && a.snd < b.snd)
}

/// The order in which free variables are bound: a variable comes before the
/// variables in whose types it occurs; otherwise the order of the levels decides.
pub open spec fn fv_less(a: FreeVar, b: FreeVar) -> bool {
    if occurs_in_type(a, b) {
        true
    } else if occurs_in_type(b, a) {
        false
    } else {
        lvl_less(a.lvl, b.lvl)
    }
}

/// Every variable of the type of `a` is bound in its context.
pub open spec fn fv_scoped(a: FreeVar) -> bool {
    occurs_scoped(exp_view(*a.typ), a.ctx@)
}

/// Neither variable occurs in the type of the other one.
pub open spec fn not_mutual(a: FreeVar, b: FreeVar) -> bool {
    !(occurs_in_type(a, b) && occurs_in_type(b, a))
}

/// The free variables can be compared: their types are scoped and no two of
/// them occur in each other's types.
pub open spec fn fvs_comparable(s: Seq<FreeVar>) -> bool {
    &&& forall|x: FreeVar| #[trigger] s.contains(x) ==> fv_scoped(x)
    &&& forall|x: FreeVar, y: FreeVar| #[trigger] s.contains(x) && #[trigger] s.contains(y) ==> not_mutual(x, y)
}

/// The order is a strict total order on the free variables.
pub open spec fn strict_total_on(s: Seq<FreeVar>) -> bool {
    &&& forall|x: FreeVar| #[trigger] s.contains(x) ==> !fv_less(x, x)
    &&& forall|x: FreeVar, y: FreeVar, z: FreeVar|
        #![trigger s.contains(x), s.contains(y), s.contains(z)]
        s.contains(x) && s.contains(y) && s.contains(z) && fv_less(x, y) && fv_less(y, z) ==> fv_less(x, z)
    &&& forall|x: FreeVar, y: FreeVar|
        #![trigger s.contains(x), s.contains(y)]
        s.contains(x) && s.contains(y) && x != y ==> fv_less(x, y) || fv_less(y, x)
}

/// No element comes after one that it is less than.
pub open spec fn fvs_sorted(s: Seq<FreeVar>) -> bool {
    forall|i: int, j: int| 0 <= i < j < s.len() ==> !fv_less(#[trigger] s[j], #[trigger] s[i])
}

/// Whether `a` comes before `b` in the order of free variables.
pub fn free_var_less(a: &FreeVar, b: &FreeVar) -> (r: bool)
    requires
        fv_scoped(*a),
        fv_scoped(*b),
        not_mutual(*a, *b),
    ensures
        r == fv_less(*a, *b),
{
    proof {
        crate::occurs::lemma_scoped_defined(exp_view(*b.typ), b.ctx@, a.lvl);
        crate::occurs::lemma_scoped_defined(exp_view(*a.typ), a.ctx@, b.lvl);
    }
    let mut cb = b.ctx.tail(0);
    assert(cb@ =~= b.ctx@);
    let a_in_b = b.typ.occurs(&mut cb, a.lvl);
    let mut ca = a.ctx.tail(0);
    assert(ca@ =~= a.ctx@);
    let b_in_a = a.typ.occurs(&mut ca, b.lvl);
    if a_in_b {
        true
    } else if b_in_a {
        false
    } else {
        a.lvl.fst < b.lvl.fst || (a.lvl.fst == b.lvl.fst && a.lvl.snd < b.lvl.snd)
    }
}

proof fn lemma_insert_sorted(out: Seq<FreeVar>, x: FreeVar, p: int, all: Seq<FreeVar>)
    requires
        strict_total_on(all),
        all.contains(x),
        forall|i: int| 0 <= i < out.len() ==> all.contains(#[trigger] out[i]),
        fvs_sorted(out),
        0 <= p <= out.len(),
        forall|m: int| 0 <= m < p ==> !fv_less(x, #[trigger] out[m]),
        p < out.len() ==> fv_less(x, out[p]),
    ensures
        fvs_sorted(out.insert(p, x)),
{
    let r = out.insert(p, x);
    assert forall|i: int, j: int| 0 <= i < j < r.len() implies !fv_less(#[trigger] r[j], #[trigger] r[i]) by {
        if j < p {
            assert(r[i] == out[i] && r[j] == out[j]);
        } else if j == p {
            assert(r[i] == out[i] && r[j] == x);
        } else if i > p {
            assert(r[i] == out[i - 1] && r[j] == out[j - 1]);
        } else if i == p {
            let y = out[j - 1];
            assert(r[j] == y && r[i] == x);
            assert(all.contains(y) && all.contains(out[p]));
            if j - 1 == p {
                if fv_less(y, x) {
                    assert(fv_less(x, x));
                }
            } else {
                assert(!fv_less(out[j - 1], out[p]));
                if y != out[p] {
                    assert(fv_less(out[p], y));
                    assert(fv_less(x, y));
                }
                if fv_less(y, x) {
                    assert(fv_less(x, x));
                }
            }
        } else {
            assert(i < p && j > p);
            assert(r[i] == out[i] && r[j] == out[j - 1]);
        }
    }
}

/// Sort the free variables such that each comes before the variables in
/// whose types it occurs. The result is a rearrangement of the input; when
/// the order is a strict total order on the input, it is sorted.
#[verifier::loop_isolation(false)]
pub fn sort_free_vars(fvs: Vec<FreeVar>) -> (r: Vec<FreeVar>)
    requires
        fvs_comparable(fvs@),
    ensures
        r@.to_multiset() == fvs@.to_multiset(),
        strict_total_on(fvs@) ==> fvs_sorted(r@),
{
    let ghost all = fvs@;
    let mut rest = fvs;
    let mut out: Vec<FreeVar> = Vec::new();
    assert(out@ =~= all.skip(all.len() as int));
    while rest.len() > 0
        invariant
            rest@ == all.take(rest@.len() as int),
            rest@.len() <= all.len(),
            out@.to_multiset() == all.skip(rest@.len() as int).to_multiset(),
            forall|i: int| 0 <= i < out@.len() ==> all.contains(#[trigger] out@[i]),
            strict_total_on(all) ==> fvs_sorted(out@),
        decreases rest@.len(),
    {
        let ghost before_rest = rest@;
        let ghost before_out = out@;
        let ghost taken = all.skip(rest@.len() as int);
        let x = rest.pop().unwrap();
        assert(before_rest =~= rest@.push(x));
        assert(all.contains(x)) by {
            assert(all[rest@.len() as int] == x);
        }
        assert(rest@ =~= all.take(rest@.len() as int));
        let mut p: usize = 0;
        while p < out.len()
            invariant
                p <= out@.len(),
                out@ == before_out,
                forall|m: int| 0 <= m < p ==> !fv_less(x, #[trigger] out@[m]),
            decreases out@.len() - p,
        {
            assert(all.contains(out@[p as int]));
            if free_var_less(&x, &out[p]) {
                break;
            }
            p += 1;
        }
        proof {
            if strict_total_on(all) {
                lemma_insert_sorted(before_out, x, p as int, all);
            }
        }
        let ghost gx = x;
        out.insert(p, x);
        assert(out@ == before_out.insert(p as int, gx));
        assert forall|i: int| 0 <= i < out@.len() implies all.contains(#[trigger] out@[i]) by {
            if i < p {
                assert(out@[i] == before_out[i]);
            } else if i > p {
                assert(out@[i] == before_out[i - 1]);
            }
        }
        proof {
            vstd::seq_lib::to_multiset_insert(before_out, p as int, gx);
            assert(all.skip(rest@.len() as int) =~= seq![gx] + taken);
            vstd::seq_lib::lemma_seq_union_to_multiset_commutative(seq![gx], taken);
            assert(taken + seq![gx] =~= taken.push(gx));
            vstd::seq_lib::to_multiset_build(taken, gx);
        }
    }
    assert(all.skip(0) =~= all);
    out
}

// ---------------------------------------------------------------------------
// The lifted signature
// ---------------------------------------------------------------------------

/// The signature of a lifted expression `e`: with a fresh name `f`, the
/// definition `let f(telescope) { e[subst] }` is closed, and `e` can be
/// replaced by `f(args)`.
#[derive(Debug)]
pub struct LiftedSignature {
    /// The parameters of the lifted definition, one for each free variable.
    pub telescope: Telescope,
    /// Closes the free variables of the body under `telescope`.
    pub subst: Substitution,
    /// The free variables themselves, as arguments to the lifted definition.
    pub args: Args,
}

/// The substitution applied to the type of the `i`-th free variable: each
/// earlier free variable is replaced by its parameter in the telescope of the
/// `i` parameters before it.
pub open spec fn param_subst_spec(fvs: Seq<FreeVar>, i: int) -> SubstM {
    SubstM::Entries(
        Seq::new(i as nat, |k: int| (fvs[k].lvl, new_var(Idx { fst: 0, snd: (i - 1 - k) as usize }, fvs[k].name@))),
    )
}

/// Entries that replace levels by variables of the innermost telescope.
pub open spec fn innermost_vars(m: Seq<(Lvl, Term)>) -> bool {
    forall|k: int|
        0 <= k < m.len() ==> ((#[trigger] m[k]).1 matches Term::Variable { span, idx, inferred_type, .. } && span is None
            && idx.fst == 0 && inferred_type is None)
}

/// Substituting variables of the innermost telescope into the type of `fv`
/// is defined: every variable of the type is bound in its context (looking
/// one up that is not fails), and shifting the substituted variables under
/// the binders of the type stays within the machine's integers.
pub open spec fn fv_subst_ok(fv: FreeVar) -> bool {
    forall|m: Seq<(Lvl, Term)>| innermost_vars(m) ==> #[trigger] subst_ok(exp_view(*fv.typ), fv.ctx@, SubstM::Entries(m))
}

/// `r` is the signature built from the free variables `fvs`, in this order,
/// of an expression under the context `base`.
pub open spec fn is_signature_of(r: LiftedSignature, fvs: Seq<FreeVar>, base: Seq<usize>) -> bool {
    &&& r.telescope@ == Seq::new(
        fvs.len(),
        |i: int| (fvs[i].name@, subst_term(exp_view(*fvs[i].typ), fvs[i].ctx@, param_subst_spec(fvs, i))),
    )
    &&& args_view_of(r.args) == Seq::new(fvs.len(), |i: int| new_var(lvl_to_idx_spec(base, fvs[i].lvl), fvs[i].name@))
    &&& r.subst@ == SubstM::Entries(
        Seq::new(fvs.len(), |i: int| (fvs[i].lvl, new_var(Idx { fst: 0, snd: (fvs.len() - 1 - i) as usize }, fvs[i].name@))),
    )
}

pub open spec fn args_view_of(a: Args) -> Seq<Term> {
    a@
}

/// The signature of a lifted expression under the context `base_ctx`, whose
/// free variables are `fvs` in the order in which they are bound.
#[verifier::loop_isolation(false)]
pub fn signature_of_sorted(fvs: &Vec<FreeVar>, base_ctx: &LevelCtx) -> (r: LiftedSignature)
    requires
        forall|i: int, j: int| 0 <= i < fvs@.len() && 0 <= j < fvs@.len() && i != j ==> fvs@[i].lvl != fvs@[j].lvl,
        forall|i: int| 0 <= i < fvs@.len() ==> lvl_in_ctx(base_ctx@, #[trigger] fvs@[i].lvl),
        forall|i: int| 0 <= i < fvs@.len() ==> fv_subst_ok(#[trigger] fvs@[i]),
        base_ctx@.len() < usize::MAX,
    ensures
        is_signature_of(r, fvs@, base_ctx@),
{
    let cutoff = base_ctx.len();
    let mut params: Vec<Param> = Vec::new();
    let mut args: Vec<Exp> = Vec::new();
    let mut free_vars = FreeVarsMap::new(cutoff);
    let ghost f = fvs@;
    let mut i: usize = 0;
    assert(free_vars@.map =~= Seq::new(0, |k: int| (f[k].lvl, f[k].name@, Lvl { fst: 0, snd: k as usize })));
    while i < fvs.len()
        invariant
            i <= f.len(),
            f == fvs@,
            params@.len() == i,
            args@.len() == i,
            free_vars@.cutoff == cutoff,
            free_vars@.map == Seq::new(i as nat, |k: int| (f[k].lvl, f[k].name@, Lvl { fst: 0, snd: k as usize })),
            forall|k: int| 0 <= k < i ==> (#[trigger] params@[k])@ == (f[k].name@, subst_term(exp_view(*f[k].typ), f[k].ctx@, param_subst_spec(f, k))),
            forall|k: int| 0 <= k < i ==> exp_view(#[trigger] args@[k]) == new_var(lvl_to_idx_spec(base_ctx@, f[k].lvl), f[k].name@),
        decreases f.len() - i,
    {
        let fv = &fvs[i];
        let ghost m = free_vars@.map;
        assert(positions_ok(m));
        assert(levels_unique(m));
        let s = free_vars.to_param_subst();
        assert(s@ == param_subst_spec(f, i as int)) by {
            if let SubstM::Entries(e) = s@ {
                assert(e =~= param_subst_spec(f, i as int)->Entries_0);
            }
        }
        assert(innermost_vars(param_subst_spec(f, i as int)->Entries_0));
        assert(subst_ok(exp_view(*fv.typ), fv.ctx@, param_subst_spec(f, i as int)));
        let mut ctx = fv.ctx.tail(0);
        assert(ctx@ =~= fv.ctx@);
        let typ = fv.typ.subst(&mut ctx, &s);
        params.push(Param { name: fv.name.clone(), typ: Box::new(typ) });
        let idx = base_ctx.lvl_to_idx(fv.lvl);
        let arg = Exp::Variable(Variable { span: None, idx, name: fv.name.clone(), inferred_type: None });
        assert(crate::exp::opt_view(None) == None::<Box<Term>>);
        args.push(arg);
        proof {
            assert forall|j: int| 0 <= j < m.len() implies m[j].0 != fv.lvl by {
                assert(m[j].0 == f[j].lvl);
            }
            lemma_add_keeps_positions(m, fv.name@, fv.lvl);
        }
        free_vars.add(fv.name.clone(), fv.lvl);
        assert(free_vars@.map =~= Seq::new((i + 1) as nat, |k: int| (f[k].lvl, f[k].name@, Lvl { fst: 0, snd: k as usize })));
        i += 1;
    }
    assert forall|k: int| 0 <= k < free_vars@.map.len() implies (#[trigger] free_vars@.map[k]).2.fst == 0 by {}
    let subst = free_vars.into_body_subst(base_ctx);
    let r = LiftedSignature { telescope: Telescope { params }, subst, args: Args { args } };
    assert(r.telescope@ =~= Seq::new(
        f.len(),
        |i: int| (f[i].name@, subst_term(exp_view(*f[i].typ), f[i].ctx@, param_subst_spec(f, i))),
    ));
    assert(args_view_of(r.args) =~= Seq::new(f.len(), |i: int| new_var(lvl_to_idx_spec(base_ctx@, f[i].lvl), f[i].name@)));
    assert(base_ctx@.skip(cutoff as int) =~= Seq::<usize>::empty());
    assert(seq![f.len() as usize] + Seq::<usize>::empty() =~= seq![f.len() as usize]);
    proof {
        if let SubstM::Entries(e) = r.subst@ {
            assert(e =~= Seq::new(f.len(), |i: int| (f[i].lvl, new_var(Idx { fst: 0, snd: (f.len() - 1 - i) as usize }, f[i].name@))));
        }
    }
    r
}

/// The free variables have distinct levels.
pub open spec fn levels_distinct(s: Seq<FreeVar>) -> bool {
    forall|i: int, j: int| 0 <= i < s.len() && 0 <= j < s.len() && i != j ==> s[i].lvl != s[j].lvl
}

proof fn lemma_permutation_keeps_properties(a: Seq<FreeVar>, b: Seq<FreeVar>)
    requires
        a.to_multiset() == b.to_multiset(),
        levels_distinct(a),
    ensures
        levels_distinct(b),
        forall|x: FreeVar| #[trigger] b.contains(x) <==> a.contains(x),
{
    broadcast use vstd::seq_lib::to_multiset_contains;

    assert(a.no_duplicates());
    a.lemma_multiset_has_no_duplicates();
    b.lemma_multiset_has_no_duplicates_conv();
    assert forall|x: FreeVar| #[trigger] b.contains(x) <==> a.contains(x) by {
        assert(b.contains(x) <==> b.to_multiset().count(x) > 0);
        assert(a.contains(x) <==> a.to_multiset().count(x) > 0);
    }
    assert forall|i: int, j: int| 0 <= i < b.len() && 0 <= j < b.len() && i != j implies b[i].lvl != b[j].lvl by {
        assert(b.contains(b[i]) && b.contains(b[j]));
        let p = choose|p: int| 0 <= p < a.len() && a[p] == b[i];
        let q = choose|q: int| 0 <= q < a.len() && a[q] == b[j];
        assert(b[i] != b[j]);
    }
}

/// The signature of a lifted expression under the context `base_ctx`, whose
/// free variables are `fvs`. The free variables are bound in the order that
/// [`sort_free_vars`] gives them.
pub fn lifted_signature(fvs: Vec<FreeVar>, base_ctx: &LevelCtx) -> (r: LiftedSignature)
    requires
        fvs_comparable(fvs@),
        levels_distinct(fvs@),
        forall|x: FreeVar| #[trigger] fvs@.contains(x) ==> lvl_in_ctx(base_ctx@, x.lvl) && fv_subst_ok(x),
        base_ctx@.len() < usize::MAX,
    ensures
        exists|s: Seq<FreeVar>|
            #![trigger is_signature_of(r, s, base_ctx@)]
            s.to_multiset() == fvs@.to_multiset() && (strict_total_on(fvs@) ==> fvs_sorted(s)) && is_signature_of(
                r,
                s,
                base_ctx@,
            ),
{
    let ghost original = fvs@;
    let sorted = sort_free_vars(fvs);
    proof {
        lemma_permutation_keeps_properties(original, sorted@);
        assert forall|i: int| 0 <= i < sorted@.len() implies lvl_in_ctx(base_ctx@, #[trigger] sorted@[i].lvl) by {
            assert(sorted@.contains(sorted@[i]));
        }
        assert forall|i: int| 0 <= i < sorted@.len() implies fv_subst_ok(#[trigger] sorted@[i]) by {
            assert(sorted@.contains(sorted@[i]));
        }
    }
    let r = signature_of_sorted(&sorted, base_ctx);
    assert(is_signature_of(r, sorted@, base_ctx@));
    r
}

/// In a sorted list of free variables, no variable occurs in the type of a
/// variable before it: each type refers to earlier parameters only.
pub proof fn lemma_sorted_respects_dependencies(s: Seq<FreeVar>)
    requires
        fvs_comparable(s),
        fvs_sorted(s),
    ensures
        forall|i: int, j: int| 0 <= i < j < s.len() ==> !occurs_in_type(#[trigger] s[j], #[trigger] s[i]),
{
    assert forall|i: int, j: int| 0 <= i < j < s.len() implies !occurs_in_type(#[trigger] s[j], #[trigger] s[i]) by {
        assert(s.contains(s[i]) && s.contains(s[j]));
        assert(!fv_less(s[j], s[i]));
    }
}

} // verus!
