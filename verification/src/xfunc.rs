//! The matrix view of a program used by the transformation between data and
//! codata types (defunctionalization and refunctionalization).

use vstd::prelude::*;
use vstd::string::StringExecFns;
use codespan::Span;
use crate::decls::DocComment;
use crate::strings::str_eq;
use crate::de_bruijn::LevelCtx;
use crate::exp::{Exp, Term, TypCtorM, CaseM, MatchM, Case, Match, exp_view, opt_view, case_view, cases_view, copy_opt, copy_exp};
use crate::subst::{Substitution, SubstM, subst_ok, subst_opt, subst_opt_exp, lemma_swap_twice};
use crate::equiv::opt_eq;
use crate::decl::{
    Telescope, Ctor, Dtor, Def, Codef, Data, Codata, Decl, Instantiate, doc_view, opt_name_view, strings_view, instantiate_spec,
    copy_doc, copy_telescope, copy_ctor, copy_dtor, copy_self_param,
};
use crate::decls::Attribute;
use crate::lookup_table::find_key;

verus! {

/// The URL of a module, carried through as an opaque value.
#[verifier::external_type_specification]
#[verifier::external_body]
pub struct ExUrl(url::Url);

/// Whether a type is currently represented as a data type or as a codata type.
#[derive(Clone, Copy, Debug, PartialEq, Eq, Structural)]
pub enum Repr {
    Data,
    Codata,
}

/// A cell of the matrix: a constructor and a destructor of the same type.
#[derive(Debug, Clone, PartialEq, Eq, Hash)]
pub struct Key {
    pub ctor: String,
    pub dtor: String,
}

/// The matrix entry of one type: its constructors and destructors, and for
/// each cell the body of the clause, binding first the parameters of the
/// destructor and then those of the constructor. A name, or a cell, occurs
/// at most once.
#[derive(Debug)]
pub struct XData {
    pub repr: Repr,
    pub span: Option<Span>,
    pub doc: Option<DocComment>,
    pub name: String,
    pub typ: Telescope,
    pub ctors: Vec<(String, Ctor)>,
    pub dtors: Vec<(String, Dtor)>,
    pub exprs: Vec<(Key, Option<Box<Exp>>)>,
}

/// A program as a matrix: each type with its entry, and the module's URL.
/// A type name occurs at most once; a lookup finds its first entry.
#[derive(Debug)]
pub struct Prg {
    pub map: Vec<(String, XData)>,
    pub uri: url::Url,
}

/// Errors of the transformation.
#[derive(Debug)]
pub enum XfuncError {
    /// An internal invariant does not hold.
    Impossible { message: String, span: Option<Span> },
}

// ---------------------------------------------------------------------------
// Models
// ---------------------------------------------------------------------------

/// Model of a constructor: span, documentation, name, parameters and type.
pub type CtorV = (Option<Span>, Option<Seq<Seq<char>>>, Seq<char>, Seq<(Seq<char>, Term)>, TypCtorM);

/// Model of a destructor: span, documentation, name, parameters, self
/// parameter (span, name, type) and return type.
pub type DtorV = (
    Option<Span>,
    Option<Seq<Seq<char>>>,
    Seq<char>,
    Seq<(Seq<char>, Term)>,
    (Option<Span>, Option<Seq<char>>, TypCtorM),
    Term,
);

/// Model of a cell: the constructor's name and the destructor's name.
pub type KeyV = (Seq<char>, Seq<char>);

pub open spec fn ctor_v(c: Ctor) -> CtorV {
    (c.span, doc_view(c.doc), c.name@, c.params@, c.typ@)
}

pub open spec fn dtor_v(d: Dtor) -> DtorV {
    (
        d.span,
        doc_view(d.doc),
        d.name@,
        d.params@,
        (d.self_param.info, opt_name_view(d.self_param.name), d.self_param.typ@),
        exp_view(*d.ret_typ),
    )
}

/// The destructor that a definition declares.
pub open spec fn def_dtor_v(d: Def) -> DtorV {
    (
        d.span,
        doc_view(d.doc),
        d.name@,
        d.params@,
        (d.self_param.info, opt_name_view(d.self_param.name), d.self_param.typ@),
        exp_view(*d.ret_typ),
    )
}

/// The constructor that a codefinition declares.
pub open spec fn codef_ctor_v(d: Codef) -> CtorV {
    (d.span, doc_view(d.doc), d.name@, d.params@, d.typ@)
}

/// Model of an [`XData`].
pub struct XDataM {
    pub repr: Repr,
    pub span: Option<Span>,
    pub doc: Option<Seq<Seq<char>>>,
    pub name: Seq<char>,
    pub typ: Seq<(Seq<char>, Term)>,
    pub ctors: Seq<(Seq<char>, CtorV)>,
    pub dtors: Seq<(Seq<char>, DtorV)>,
    pub exprs: Seq<(KeyV, Option<Box<Term>>)>,
}

pub open spec fn ctors_v(s: Seq<(String, Ctor)>) -> Seq<(Seq<char>, CtorV)> {
    Seq::new(s.len(), |i: int| (s[i].0@, ctor_v(s[i].1)))
}

pub open spec fn dtors_v(s: Seq<(String, Dtor)>) -> Seq<(Seq<char>, DtorV)> {
    Seq::new(s.len(), |i: int| (s[i].0@, dtor_v(s[i].1)))
}

pub open spec fn exprs_v(s: Seq<(Key, Option<Box<Exp>>)>) -> Seq<(KeyV, Option<Box<Term>>)> {
    Seq::new(s.len(), |i: int| ((s[i].0.ctor@, s[i].0.dtor@), opt_view(s[i].1)))
}

pub open spec fn xdata_v(x: XData) -> XDataM {
    XDataM {
        repr: x.repr,
        span: x.span,
        doc: doc_view(x.doc),
        name: x.name@,
        typ: x.typ@,
        ctors: ctors_v(x.ctors@),
        dtors: dtors_v(x.dtors@),
        exprs: exprs_v(x.exprs@),
    }
}

/// Model of the map of a [`Prg`].
pub open spec fn prg_v(m: Seq<(String, XData)>) -> Seq<(Seq<char>, XDataM)> {
    Seq::new(m.len(), |i: int| (m[i].0@, xdata_v(m[i].1)))
}

/// The index of the first pair with key `k`, if any.
pub open spec fn first_key<K, W>(m: Seq<(K, W)>, k: K) -> Option<int> {
    if exists|i: int| 0 <= i < m.len() && m[i].0 == k {
        Some(choose|i: int| 0 <= i < m.len() && m[i].0 == k && forall|j: int| 0 <= j < i ==> m[j].0 != k)
    } else {
        None
    }
}

proof fn lemma_first_key<K, W>(m: Seq<(K, W)>, k: K, i: int)
    requires
        0 <= i < m.len(),
        m[i].0 == k,
        forall|j: int| 0 <= j < i ==> m[j].0 != k,
    ensures
        first_key(m, k) == Some(i),
{
    let c = choose|c: int| 0 <= c < m.len() && m[c].0 == k && forall|j: int| 0 <= j < c ==> m[j].0 != k;
    assert(0 <= c < m.len() && m[c].0 == k && forall|j: int| 0 <= j < c ==> m[j].0 != k);
    if c < i {
        assert(m[c].0 != k);
    }
    if i < c {
        assert(m[i].0 != k);
    }
}

/// `m` with `k` mapped to `v`: the value of an existing pair with key `k`
/// is replaced, otherwise the pair is added at the end.
pub open spec fn put_v<K, W>(m: Seq<(K, W)>, k: K, v: W) -> Seq<(K, W)> {
    match first_key(m, k) {
        Some(i) => m.update(i, (k, v)),
        None => m.push((k, v)),
    }
}

// ---------------------------------------------------------------------------
// Building the matrix
// ---------------------------------------------------------------------------

/// A new entry for a type, without constructors, destructors or cells.
pub open spec fn new_entry(
    repr: Repr,
    span: Option<Span>,
    doc: Option<Seq<Seq<char>>>,
    name: Seq<char>,
    typ: Seq<(Seq<char>, Term)>,
) -> XDataM {
    XDataM { repr, span, doc, name, typ, ctors: Seq::empty(), dtors: Seq::empty(), exprs: Seq::empty() }
}

/// The first pass: each data and codata type gets an entry.
pub open spec fn pass_types(m: Seq<(Seq<char>, XDataM)>, d: Decl) -> Seq<(Seq<char>, XDataM)> {
    match d {
        Decl::Data(x) => put_v(m, x.name@, new_entry(Repr::Data, x.span, doc_view(x.doc), x.name@, x.typ@)),
        Decl::Codata(x) => put_v(m, x.name@, new_entry(Repr::Codata, x.span, doc_view(x.doc), x.name@, x.typ@)),
        _ => m,
    }
}

/// The entry with its constructors, destructors and cells changed.
pub open spec fn with_parts(
    e: XDataM,
    ctors: Seq<(Seq<char>, CtorV)>,
    dtors: Seq<(Seq<char>, DtorV)>,
    exprs: Seq<(KeyV, Option<Box<Term>>)>,
) -> XDataM {
    XDataM { repr: e.repr, span: e.span, doc: e.doc, name: e.name, typ: e.typ, ctors, dtors, exprs }
}

/// The cells of the clauses of a definition `d`: one per constructor.
pub open spec fn def_cells(ex: Seq<(KeyV, Option<Box<Term>>)>, d: Seq<char>, cs: Seq<CaseM>) -> Seq<(KeyV, Option<Box<Term>>)>
    decreases cs.len(),
{
    if cs.len() == 0 {
        ex
    } else {
        let c = cs[cs.len() - 1];
        put_v(def_cells(ex, d, cs.drop_last()), (c.name, d), c.body)
    }
}

/// The telescope sizes under which the body of a clause of a codefinition
/// with `n` parameters stands.
pub open spec fn codef_bound(n: nat, c: CaseM) -> Seq<usize> {
    seq![n as usize, c.params.len() as usize]
}

/// The cells of the clauses of a codefinition `k` with `n` parameters: one
/// per destructor, with the two telescopes of each body exchanged.
pub open spec fn codef_cells(ex: Seq<(KeyV, Option<Box<Term>>)>, k: Seq<char>, n: nat, cs: Seq<CaseM>) -> Seq<
    (KeyV, Option<Box<Term>>),
>
    decreases cs.len(),
{
    if cs.len() == 0 {
        ex
    } else {
        let c = cs[cs.len() - 1];
        put_v(
            codef_cells(ex, k, n, cs.drop_last()),
            (k, c.name),
            subst_opt(c.body, codef_bound(n, c), SubstM::Swap(0, 1)),
        )
    }
}

/// The entry of the type `ty` changed by `f`, if there is one.
pub open spec fn at_type(m: Seq<(Seq<char>, XDataM)>, ty: Seq<char>, f: spec_fn(XDataM) -> XDataM) -> Seq<
    (Seq<char>, XDataM),
> {
    match first_key(m, ty) {
        Some(i) => m.update(i, (m[i].0, f(m[i].1))),
        None => m,
    }
}

/// The second pass: constructors, destructors, definitions and
/// codefinitions are added to the entry of their type, where there is one.
pub open spec fn pass_xtors(m: Seq<(Seq<char>, XDataM)>, d: Decl) -> Seq<(Seq<char>, XDataM)> {
    match d {
        Decl::Ctor(x) => at_type(
            m,
            x.typ@.name,
            |e: XDataM| with_parts(e, put_v(e.ctors, x.name@, ctor_v(x)), e.dtors, e.exprs),
        ),
        Decl::Dtor(x) => at_type(
            m,
            x.self_param.typ@.name,
            |e: XDataM| with_parts(e, e.ctors, put_v(e.dtors, x.name@, dtor_v(x)), e.exprs),
        ),
        Decl::Def(x) => at_type(
            m,
            x.self_param.typ@.name,
            |e: XDataM|
                with_parts(e, e.ctors, put_v(e.dtors, x.name@, def_dtor_v(x)), def_cells(e.exprs, x.name@, x.body@.cases)),
        ),
        Decl::Codef(x) => at_type(
            m,
            x.typ@.name,
            |e: XDataM|
                with_parts(
                    e,
                    put_v(e.ctors, x.name@, codef_ctor_v(x)),
                    e.dtors,
                    codef_cells(e.exprs, x.name@, x.params@.len(), x.body@.cases),
                ),
        ),
        _ => m,
    }
}

pub open spec fn fold_types(ds: Seq<Decl>) -> Seq<(Seq<char>, XDataM)>
    decreases ds.len(),
{
    if ds.len() == 0 {
        Seq::empty()
    } else {
        pass_types(fold_types(ds.drop_last()), ds[ds.len() - 1])
    }
}

pub open spec fn fold_xtors(m: Seq<(Seq<char>, XDataM)>, ds: Seq<Decl>) -> Seq<(Seq<char>, XDataM)>
    decreases ds.len(),
{
    if ds.len() == 0 {
        m
    } else {
        pass_xtors(fold_xtors(m, ds.drop_last()), ds[ds.len() - 1])
    }
}

/// The matrix of a list of declarations: an entry for each data and codata
/// type, then the constructors, destructors, definitions and codefinitions
/// of those types.
pub open spec fn build_spec(ds: Seq<Decl>) -> Seq<(Seq<char>, XDataM)> {
    fold_xtors(fold_types(ds), ds)
}

/// The body of the clause is bound in the parameters of the codefinition
/// (`n` of them) and of the clause, so that the two telescopes can be exchanged.
pub open spec fn case_swappable(n: nat, c: CaseM) -> bool {
    match c.body {
        Some(t) => subst_ok(*t, codef_bound(n, c), SubstM::Swap(0, 1)),
        None => true,
    }
}

/// Every clause of the codefinition can have its telescopes exchanged.
pub open spec fn codef_swappable(x: Codef) -> bool {
    forall|j: int| 0 <= j < x.body@.cases.len() ==> case_swappable(x.params@.len(), #[trigger] x.body@.cases[j])
}

/// Every codefinition among the declarations can have the telescopes of its
/// clauses exchanged.
pub open spec fn codef_bodies_ok(ds: Seq<Decl>) -> bool {
    forall|i: int| 0 <= i < ds.len() ==> match #[trigger] ds[i] {
        Decl::Codef(x) => codef_swappable(x),
        _ => true,
    }
}

/// The index of the first entry for `name`, if any.
pub open spec fn first_entry(m: Seq<(String, XData)>, name: Seq<char>) -> Option<int> {
    if exists|i: int| 0 <= i < m.len() && m[i].0@ == name {
        Some(choose|i: int| 0 <= i < m.len() && m[i].0@ == name && forall|j: int| 0 <= j < i ==> m[j].0@ != name)
    } else {
        None
    }
}

proof fn lemma_first_entry(m: Seq<(String, XData)>, name: Seq<char>, i: int)
    requires
        0 <= i < m.len(),
        m[i].0@ == name,
        forall|j: int| 0 <= j < i ==> m[j].0@ != name,
    ensures
        first_entry(m, name) == Some(i),
{
    let k = choose|k: int| 0 <= k < m.len() && m[k].0@ == name && forall|j: int| 0 <= j < k ==> m[j].0@ != name;
    assert(0 <= k < m.len() && m[k].0@ == name && forall|j: int| 0 <= j < k ==> m[j].0@ != name);
    if k < i {
        assert(m[k].0@ != name);
    }
    if i < k {
        assert(m[i].0@ != name);
    }
}

/// The representation of the type `name`, or an error when the program has no such type.
pub fn repr(prg: &Prg, name: &str) -> (r: Result<Repr, XfuncError>)
    ensures
        match first_entry(prg.map@, name@) {
            Some(i) => r == Ok::<Repr, XfuncError>(prg.map@[i].1.repr),
            None => r matches Err(XfuncError::Impossible { message, span }) && message@ == "Could not resolve "@ + name@
                && span is None,
        },
{
    let mut i: usize = 0;
    while i < prg.map.len()
        invariant
            i <= prg.map@.len(),
            forall|j: int| 0 <= j < i ==> prg.map@[j].0@ != name@,
        decreases prg.map@.len() - i,
    {
        if str_eq(prg.map[i].0.as_str(), name) {
            proof {
                lemma_first_entry(prg.map@, name@, i as int);
            }
            return Ok(prg.map[i].1.repr);
        }
        i += 1;
    }
    let mut message = String::from_str("Could not resolve ");
    message.append(name);
    Err(XfuncError::Impossible { message, span: None })
}

// ---------------------------------------------------------------------------
// Building the matrix: executable part
// ---------------------------------------------------------------------------

fn put_entry(m: &mut Vec<(String, XData)>, k: String, v: XData)
    ensures
        prg_v(final(m)@) == put_v(prg_v(old(m)@), k@, xdata_v(v)),
{
    let ghost kv = k@;
    let ghost vv = xdata_v(v);
    match find_key(m, k.as_str()) {
        Some(i) => {
            proof {
                lemma_first_key(prg_v(m@), kv, i as int);
            }
            m.set(i, (k, v));
            assert(prg_v(m@) =~= prg_v(old(m)@).update(i as int, (kv, vv)));
        },
        None => {
            assert(first_key(prg_v(m@), kv) is None);
            m.push((k, v));
            assert(prg_v(m@) =~= prg_v(old(m)@).push((kv, vv)));
        },
    }
}

fn put_ctor(m: &mut Vec<(String, Ctor)>, k: String, v: Ctor)
    ensures
        ctors_v(final(m)@) == put_v(ctors_v(old(m)@), k@, ctor_v(v)),
{
    let ghost kv = k@;
    let ghost vv = ctor_v(v);
    match find_key(m, k.as_str()) {
        Some(i) => {
            proof {
                lemma_first_key(ctors_v(m@), kv, i as int);
            }
            m.set(i, (k, v));
            assert(ctors_v(m@) =~= ctors_v(old(m)@).update(i as int, (kv, vv)));
        },
        None => {
            assert(first_key(ctors_v(m@), kv) is None);
            m.push((k, v));
            assert(ctors_v(m@) =~= ctors_v(old(m)@).push((kv, vv)));
        },
    }
}

fn put_dtor(m: &mut Vec<(String, Dtor)>, k: String, v: Dtor)
    ensures
        dtors_v(final(m)@) == put_v(dtors_v(old(m)@), k@, dtor_v(v)),
{
    let ghost kv = k@;
    let ghost vv = dtor_v(v);
    match find_key(m, k.as_str()) {
        Some(i) => {
            proof {
                lemma_first_key(dtors_v(m@), kv, i as int);
            }
            m.set(i, (k, v));
            assert(dtors_v(m@) =~= dtors_v(old(m)@).update(i as int, (kv, vv)));
        },
        None => {
            assert(first_key(dtors_v(m@), kv) is None);
            m.push((k, v));
            assert(dtors_v(m@) =~= dtors_v(old(m)@).push((kv, vv)));
        },
    }
}

fn put_expr(m: &mut Vec<(Key, Option<Box<Exp>>)>, k: Key, v: Option<Box<Exp>>)
    ensures
        exprs_v(final(m)@) == put_v(exprs_v(old(m)@), (k.ctor@, k.dtor@), opt_view(v)),
{
    let ghost kv = (k.ctor@, k.dtor@);
    let ghost vv = opt_view(v);
    let ghost mv = exprs_v(m@);
    let mut i: usize = 0;
    while i < m.len()
        invariant
            i <= m@.len(),
            mv == exprs_v(m@),
            mv == exprs_v(old(m)@),
            kv == (k.ctor@, k.dtor@),
            vv == opt_view(v),
            forall|j: int| 0 <= j < i ==> mv[j].0 != kv,
        decreases m@.len() - i,
    {
        if str_eq(m[i].0.ctor.as_str(), k.ctor.as_str()) && str_eq(m[i].0.dtor.as_str(), k.dtor.as_str()) {
            proof {
                assert(mv[i as int].0 == kv);
                lemma_first_key(mv, kv, i as int);
            }
            m.set(i, (k, v));
            assert(exprs_v(m@) =~= mv.update(i as int, (kv, vv)));
            return;
        }
        assert(mv[i as int].0 != kv);
        i += 1;
    }
    assert(first_key(mv, kv) is None);
    m.push((k, v));
    assert(exprs_v(m@) =~= mv.push((kv, vv)));
}

/// Replace the entry at `i` by the entry `e`, which differs from it only in
/// its constructors, destructors and cells.
proof fn lemma_replace_entry(old_m: Seq<(String, XData)>, new_m: Seq<(String, XData)>, i: int, e: XData)
    requires
        0 <= i < old_m.len(),
        new_m == old_m.update(i, (old_m[i].0, e)),
    ensures
        prg_v(new_m) == prg_v(old_m).update(i, (prg_v(old_m)[i].0, xdata_v(e))),
{
    assert(prg_v(new_m) =~= prg_v(old_m).update(i, (prg_v(old_m)[i].0, xdata_v(e))));
}

fn add_ctor(m: &mut Vec<(String, XData)>, x: &Ctor)
    ensures
        prg_v(final(m)@) == pass_xtors(prg_v(old(m)@), Decl::Ctor(*x)),
{
    match find_key(m, x.typ.name.as_str()) {
        Some(i) => {
            proof {
                lemma_first_key(prg_v(m@), x.typ@.name, i as int);
            }
            let (k, mut e) = m.remove(i);
            let ghost e0 = xdata_v(e);
            put_ctor(&mut e.ctors, x.name.clone(), copy_ctor(x));
            assert(xdata_v(e) == with_parts(e0, put_v(e0.ctors, x.name@, ctor_v(*x)), e0.dtors, e0.exprs));
            m.insert(i, (k, e));
            proof {
                assert(m@ =~= old(m)@.update(i as int, (old(m)@[i as int].0, e)));
                lemma_replace_entry(old(m)@, m@, i as int, e);
            }
        },
        None => {
            assert(first_key(prg_v(m@), x.typ@.name) is None);
        },
    }
}

fn add_dtor(m: &mut Vec<(String, XData)>, x: &Dtor)
    ensures
        prg_v(final(m)@) == pass_xtors(prg_v(old(m)@), Decl::Dtor(*x)),
{
    match find_key(m, x.self_param.typ.name.as_str()) {
        Some(i) => {
            proof {
                lemma_first_key(prg_v(m@), x.self_param.typ@.name, i as int);
            }
            let (k, mut e) = m.remove(i);
            let ghost e0 = xdata_v(e);
            put_dtor(&mut e.dtors, x.name.clone(), copy_dtor(x));
            assert(xdata_v(e) == with_parts(e0, e0.ctors, put_v(e0.dtors, x.name@, dtor_v(*x)), e0.exprs));
            m.insert(i, (k, e));
            proof {
                assert(m@ =~= old(m)@.update(i as int, (old(m)@[i as int].0, e)));
                lemma_replace_entry(old(m)@, m@, i as int, e);
            }
        },
        None => {
            assert(first_key(prg_v(m@), x.self_param.typ@.name) is None);
        },
    }
}

/// Add the cells of the clauses of the definition `x`.
fn add_def_cells(ex: &mut Vec<(Key, Option<Box<Exp>>)>, x: &Def)
    ensures
        exprs_v(final(ex)@) == def_cells(exprs_v(old(ex)@), x.name@, x.body@.cases),
{
    let ghost cs = x.body@.cases;
    let ghost ex0 = exprs_v(ex@);
    let mut j: usize = 0;
    assert(cs.subrange(0, 0).len() == 0);
    while j < x.body.cases.len()
        invariant
            j <= x.body.cases@.len(),
            cs == x.body@.cases,
            cs.len() == x.body.cases@.len(),
            ex0 == exprs_v(old(ex)@),
            exprs_v(ex@) == def_cells(ex0, x.name@, cs.subrange(0, j as int)),
        decreases x.body.cases@.len() - j,
    {
        let c: &Case = &x.body.cases[j];
        proof {
            assert(cs[j as int] == case_view(*c));
            let sub = cs.subrange(0, j + 1);
            assert(sub.drop_last() =~= cs.subrange(0, j as int));
            assert(sub[sub.len() - 1] == cs[j as int]);
        }
        put_expr(ex, Key { ctor: c.name.clone(), dtor: x.name.clone() }, copy_opt(&c.body));
        j += 1;
    }
    assert(cs.subrange(0, cs.len() as int) =~= cs);
}

/// Add the cells of the clauses of the codefinition `x`, exchanging the two
/// telescopes of each body.
fn add_codef_cells(ex: &mut Vec<(Key, Option<Box<Exp>>)>, x: &Codef)
    requires
        codef_swappable(*x),
    ensures
        exprs_v(final(ex)@) == codef_cells(exprs_v(old(ex)@), x.name@, x.params@.len(), x.body@.cases),
{
    let ghost cs = x.body@.cases;
    let ghost ex0 = exprs_v(ex@);
    let mut j: usize = 0;
    assert(cs.subrange(0, 0).len() == 0);
    while j < x.body.cases.len()
        invariant
            j <= x.body.cases@.len(),
            cs == x.body@.cases,
            cs.len() == x.body.cases@.len(),
            ex0 == exprs_v(old(ex)@),
            codef_swappable(*x),
            exprs_v(ex@) == codef_cells(ex0, x.name@, x.params@.len(), cs.subrange(0, j as int)),
        decreases x.body.cases@.len() - j,
    {
        let c: &Case = &x.body.cases[j];
        let mut sizes: Vec<usize> = Vec::new();
        sizes.push(x.params.params.len());
        sizes.push(c.params.params.len());
        let mut lc = LevelCtx::from_sizes(sizes);
        let sw = Substitution::Swap { fst1: 0, fst2: 1 };
        proof {
            assert(cs[j as int] == case_view(*c));
            assert(case_swappable(x.params@.len(), cs[j as int]));
            assert(lc@ =~= codef_bound(x.params@.len(), cs[j as int]));
        }
        let body = subst_opt_exp(&c.body, &mut lc, &sw);
        proof {
            let sub = cs.subrange(0, j + 1);
            assert(sub.drop_last() =~= cs.subrange(0, j as int));
            assert(sub[sub.len() - 1] == cs[j as int]);
        }
        put_expr(ex, Key { ctor: x.name.clone(), dtor: c.name.clone() }, body);
        j += 1;
    }
    assert(cs.subrange(0, cs.len() as int) =~= cs);
}

fn add_def(m: &mut Vec<(String, XData)>, x: &Def)
    ensures
        prg_v(final(m)@) == pass_xtors(prg_v(old(m)@), Decl::Def(*x)),
{
    match find_key(m, x.self_param.typ.name.as_str()) {
        Some(i) => {
            proof {
                lemma_first_key(prg_v(m@), x.self_param.typ@.name, i as int);
            }
            let (k, mut e) = m.remove(i);
            let ghost e0 = xdata_v(e);
            put_dtor(&mut e.dtors, x.name.clone(), x.to_dtor());
            add_def_cells(&mut e.exprs, x);
            assert(xdata_v(e) == with_parts(
                e0,
                e0.ctors,
                put_v(e0.dtors, x.name@, def_dtor_v(*x)),
                def_cells(e0.exprs, x.name@, x.body@.cases),
            ));
            m.insert(i, (k, e));
            proof {
                assert(m@ =~= old(m)@.update(i as int, (old(m)@[i as int].0, e)));
                lemma_replace_entry(old(m)@, m@, i as int, e);
            }
        },
        None => {
            assert(first_key(prg_v(m@), x.self_param.typ@.name) is None);
        },
    }
}

fn add_codef(m: &mut Vec<(String, XData)>, x: &Codef)
    requires
        codef_swappable(*x),
    ensures
        prg_v(final(m)@) == pass_xtors(prg_v(old(m)@), Decl::Codef(*x)),
{
    match find_key(m, x.typ.name.as_str()) {
        Some(i) => {
            proof {
                lemma_first_key(prg_v(m@), x.typ@.name, i as int);
            }
            let (k, mut e) = m.remove(i);
            let ghost e0 = xdata_v(e);
            put_ctor(&mut e.ctors, x.name.clone(), x.to_ctor());
            add_codef_cells(&mut e.exprs, x);
            assert(xdata_v(e) == with_parts(
                e0,
                put_v(e0.ctors, x.name@, codef_ctor_v(*x)),
                e0.dtors,
                codef_cells(e0.exprs, x.name@, x.params@.len(), x.body@.cases),
            ));
            m.insert(i, (k, e));
            proof {
                assert(m@ =~= old(m)@.update(i as int, (old(m)@[i as int].0, e)));
                lemma_replace_entry(old(m)@, m@, i as int, e);
            }
        },
        None => {
            assert(first_key(prg_v(m@), x.typ@.name) is None);
        },
    }
}

/// The matrix of a list of declarations, for the module at `uri`: an entry
/// for each data and codata type, then the constructors, destructors,
/// definitions and codefinitions added to the entries of their types.
pub fn build(decls: &Vec<Decl>, uri: url::Url) -> (r: Result<Prg, XfuncError>)
    requires
        codef_bodies_ok(decls@),
    ensures
        r matches Ok(p) && prg_v(p.map@) == build_spec(decls@),
{
    let ghost ds = decls@;
    let mut m: Vec<(String, XData)> = Vec::new();
    let mut i: usize = 0;
    assert(prg_v(m@) =~= fold_types(ds.subrange(0, 0)));
    while i < decls.len()
        invariant
            i <= ds.len(),
            ds == decls@,
            prg_v(m@) == fold_types(ds.subrange(0, i as int)),
        decreases ds.len() - i,
    {
        proof {
            let sub = ds.subrange(0, i + 1);
            assert(sub.drop_last() =~= ds.subrange(0, i as int));
            assert(sub[sub.len() - 1] == ds[i as int]);
        }
        match &decls[i] {
            Decl::Data(x) => {
                let e = XData {
                    repr: Repr::Data,
                    span: x.span,
                    doc: copy_doc(&x.doc),
                    name: x.name.clone(),
                    typ: copy_telescope(&x.typ),
                    ctors: Vec::new(),
                    dtors: Vec::new(),
                    exprs: Vec::new(),
                };
                assert(ctors_v(e.ctors@) =~= Seq::empty());
                assert(dtors_v(e.dtors@) =~= Seq::empty());
                assert(exprs_v(e.exprs@) =~= Seq::empty());
                assert(xdata_v(e) == new_entry(Repr::Data, x.span, doc_view(x.doc), x.name@, x.typ@));
                put_entry(&mut m, x.name.clone(), e);
            },
            Decl::Codata(x) => {
                let e = XData {
                    repr: Repr::Codata,
                    span: x.span,
                    doc: copy_doc(&x.doc),
                    name: x.name.clone(),
                    typ: copy_telescope(&x.typ),
                    ctors: Vec::new(),
                    dtors: Vec::new(),
                    exprs: Vec::new(),
                };
                assert(ctors_v(e.ctors@) =~= Seq::empty());
                assert(dtors_v(e.dtors@) =~= Seq::empty());
                assert(exprs_v(e.exprs@) =~= Seq::empty());
                assert(xdata_v(e) == new_entry(Repr::Codata, x.span, doc_view(x.doc), x.name@, x.typ@));
                put_entry(&mut m, x.name.clone(), e);
            },
            _ => {},
        }
        i += 1;
    }
    assert(ds.subrange(0, ds.len() as int) =~= ds);
    let ghost m1 = prg_v(m@);
    i = 0;
    assert(ds.subrange(0, 0).len() == 0);
    while i < decls.len()
        invariant
            i <= ds.len(),
            ds == decls@,
            codef_bodies_ok(ds),
            m1 == fold_types(ds),
            prg_v(m@) == fold_xtors(m1, ds.subrange(0, i as int)),
        decreases ds.len() - i,
    {
        proof {
            let sub = ds.subrange(0, i + 1);
            assert(sub.drop_last() =~= ds.subrange(0, i as int));
            assert(sub[sub.len() - 1] == ds[i as int]);
        }
        match &decls[i] {
            Decl::Ctor(x) => add_ctor(&mut m, x),
            Decl::Dtor(x) => add_dtor(&mut m, x),
            Decl::Def(x) => add_def(&mut m, x),
            Decl::Codef(x) => {
                assert(match ds[i as int] {
                    Decl::Codef(y) => codef_swappable(y),
                    _ => true,
                });
                add_codef(&mut m, x)
            },
            _ => {},
        }
        i += 1;
    }
    Ok(Prg { map: m, uri })
}

// ---------------------------------------------------------------------------
// Reading a type off the matrix
// ---------------------------------------------------------------------------

/// The value of the first pair with key `k`, if any.
pub open spec fn get_v<K, W>(m: Seq<(K, W)>, k: K) -> Option<W> {
    match first_key(m, k) {
        Some(i) => Some(m[i].1),
        None => None,
    }
}

/// The clauses of the definition of the destructor `d`: one for each
/// constructor, in order, whose cell with `d` is filled.
pub open spec fn data_cases(cs: Seq<(Seq<char>, CtorV)>, ex: Seq<(KeyV, Option<Box<Term>>)>, d: Seq<char>) -> Seq<CaseM>
    decreases cs.len(),
{
    if cs.len() == 0 {
        Seq::empty()
    } else {
        let init = data_cases(cs.drop_last(), ex, d);
        let c = cs[cs.len() - 1].1;
        match get_v(ex, (c.2, d)) {
            Some(b) => init.push(CaseM { span: None, name: c.2, params: instantiate_spec(c.3), body: b }),
            None => init,
        }
    }
}

/// The telescope sizes under which a cell of the constructor `c` and the
/// destructor `d` stands: first the destructor's parameters.
pub open spec fn cell_bound(c: CtorV, d: DtorV) -> Seq<usize> {
    seq![d.3.len() as usize, c.3.len() as usize]
}

/// The clauses of the codefinition of the constructor `c`: one for each
/// destructor, in order, whose cell with `c` is filled; the two telescopes of
/// each body are exchanged back.
pub open spec fn codata_cases(ds: Seq<(Seq<char>, DtorV)>, ex: Seq<(KeyV, Option<Box<Term>>)>, c: CtorV) -> Seq<CaseM>
    decreases ds.len(),
{
    if ds.len() == 0 {
        Seq::empty()
    } else {
        let init = codata_cases(ds.drop_last(), ex, c);
        let d = ds[ds.len() - 1].1;
        match get_v(ex, (c.2, d.2)) {
            Some(b) => init.push(
                CaseM {
                    span: None,
                    name: d.2,
                    params: instantiate_spec(d.3),
                    body: subst_opt(b, cell_bound(c, d), SubstM::Swap(0, 1)),
                },
            ),
            None => init,
        }
    }
}

/// Every filled cell of the entry can have its two telescopes exchanged.
pub open spec fn cells_swappable(e: XDataM) -> bool {
    forall|i: int, j: int|
        0 <= i < e.ctors.len() && 0 <= j < e.dtors.len() ==> match get_v(
            e.exprs,
            (#[trigger] e.ctors[i].1.2, #[trigger] e.dtors[j].1.2),
        ) {
            Some(Some(t)) => subst_ok(*t, cell_bound(e.ctors[i].1, e.dtors[j].1), SubstM::Swap(0, 1)),
            _ => true,
        }
}

/// `r` is the definition of the destructor `dv` with the clauses `cases`.
pub open spec fn def_of(r: Def, dv: DtorV, cases: Seq<CaseM>) -> bool {
    &&& r.span is None
    &&& doc_view(r.doc) == dv.1
    &&& r.name@ == dv.2
    &&& r.attr@ == Seq::<Seq<char>>::empty()
    &&& r.params@ == dv.3
    &&& (r.self_param.info, opt_name_view(r.self_param.name), r.self_param.typ@) == dv.4
    &&& exp_view(*r.ret_typ) == dv.5
    &&& r.body@ == MatchM { span: None, cases, omit_absurd: false }
}

/// `r` is the codefinition of the constructor `cv` with the clauses `cases`.
pub open spec fn codef_of(r: Codef, cv: CtorV, cases: Seq<CaseM>) -> bool {
    &&& r.span is None
    &&& doc_view(r.doc) == cv.1
    &&& r.name@ == cv.2
    &&& r.attr@ == Seq::<Seq<char>>::empty()
    &&& r.params@ == cv.3
    &&& r.typ@ == cv.4
    &&& r.body@ == MatchM { span: None, cases, omit_absurd: false }
}

/// The names of the constructors or destructors of an entry.
pub open spec fn xtor_names<W>(s: Seq<(Seq<char>, W)>, name: spec_fn(W) -> Seq<char>) -> Seq<Seq<char>> {
    Seq::new(s.len(), |i: int| name(s[i].1))
}

/// `r` is the entry `e` as a data type: the data declaration, its
/// constructors, and a definition for each destructor.
pub open spec fn data_repr(r: (Data, Vec<Ctor>, Vec<Def>), e: XDataM) -> bool {
    &&& r.0.span is None
    &&& doc_view(r.0.doc) == e.doc
    &&& r.0.name@ == e.name
    &&& r.0.attr@ == Seq::<Seq<char>>::empty()
    &&& r.0.typ@ == e.typ
    &&& strings_view(r.0.ctors@) == xtor_names(e.ctors, |c: CtorV| c.2)
    &&& r.1@.len() == e.ctors.len()
    &&& forall|i: int| 0 <= i < r.1@.len() ==> ctor_v(#[trigger] r.1@[i]) == e.ctors[i].1
    &&& r.2@.len() == e.dtors.len()
    &&& forall|i: int|
        0 <= i < r.2@.len() ==> def_of(#[trigger] r.2@[i], e.dtors[i].1, data_cases(e.ctors, e.exprs, e.dtors[i].1.2))
}

/// `r` is the entry `e` as a codata type: the codata declaration, its
/// destructors, and a codefinition for each constructor.
pub open spec fn codata_repr(r: (Codata, Vec<Dtor>, Vec<Codef>), e: XDataM) -> bool {
    &&& r.0.span is None
    &&& doc_view(r.0.doc) == e.doc
    &&& r.0.name@ == e.name
    &&& r.0.attr@ == Seq::<Seq<char>>::empty()
    &&& r.0.typ@ == e.typ
    &&& strings_view(r.0.dtors@) == xtor_names(e.dtors, |d: DtorV| d.2)
    &&& r.1@.len() == e.dtors.len()
    &&& forall|i: int| 0 <= i < r.1@.len() ==> dtor_v(#[trigger] r.1@[i]) == e.dtors[i].1
    &&& r.2@.len() == e.ctors.len()
    &&& forall|i: int|
        0 <= i < r.2@.len() ==> codef_of(#[trigger] r.2@[i], e.ctors[i].1, codata_cases(e.dtors, e.exprs, e.ctors[i].1))
}

/// The cell of the constructor `ctor` and the destructor `dtor`, if it is there.
fn get_cell<'a>(ex: &'a Vec<(Key, Option<Box<Exp>>)>, ctor: &str, dtor: &str) -> (r: Option<&'a Option<Box<Exp>>>)
    ensures
        match get_v(exprs_v(ex@), (ctor@, dtor@)) {
            Some(b) => r matches Some(x) && opt_view(*x) == b,
            None => r is None,
        },
{
    let ghost mv = exprs_v(ex@);
    let ghost kv = (ctor@, dtor@);
    let mut i: usize = 0;
    while i < ex.len()
        invariant
            i <= ex@.len(),
            mv == exprs_v(ex@),
            kv == (ctor@, dtor@),
            forall|j: int| 0 <= j < i ==> mv[j].0 != kv,
        decreases ex@.len() - i,
    {
        if str_eq(ex[i].0.ctor.as_str(), ctor) && str_eq(ex[i].0.dtor.as_str(), dtor) {
            proof {
                assert(mv[i as int].0 == kv);
                lemma_first_key(mv, kv, i as int);
            }
            return Some(&ex[i].1);
        }
        assert(mv[i as int].0 != kv);
        i += 1;
    }
    assert(first_key(mv, kv) is None);
    None
}

/// The clauses of the definition of `d` in the data representation.
fn data_cases_exec(ctors: &Vec<(String, Ctor)>, ex: &Vec<(Key, Option<Box<Exp>>)>, d: &String) -> (r: Vec<Case>)
    ensures
        cases_view(r@) == data_cases(ctors_v(ctors@), exprs_v(ex@), d@),
{
    let ghost cs = ctors_v(ctors@);
    let mut out: Vec<Case> = Vec::new();
    let mut i: usize = 0;
    assert(cases_view(out@) =~= data_cases(cs.subrange(0, 0), exprs_v(ex@), d@));
    while i < ctors.len()
        invariant
            i <= ctors@.len(),
            cs == ctors_v(ctors@),
            cases_view(out@) == data_cases(cs.subrange(0, i as int), exprs_v(ex@), d@),
        decreases ctors@.len() - i,
    {
        let c = &ctors[i].1;
        proof {
            let sub = cs.subrange(0, i + 1);
            assert(sub.drop_last() =~= cs.subrange(0, i as int));
            assert(sub[sub.len() - 1].1 == ctor_v(*c));
        }
        match get_cell(ex, c.name.as_str(), d.as_str()) {
            Some(b) => {
                let case = Case { span: None, name: c.name.clone(), params: c.params.instantiate(), body: copy_opt(b) };
                let ghost before = cases_view(out@);
                out.push(case);
                assert(cases_view(out@) =~= before.push(case_view(case)));
            },
            None => {},
        }
        i += 1;
    }
    assert(cs.subrange(0, cs.len() as int) =~= cs);
    out
}

/// The clauses of the codefinition of `c` in the codata representation.
fn codata_cases_exec(dtors: &Vec<(String, Dtor)>, ex: &Vec<(Key, Option<Box<Exp>>)>, c: &Ctor) -> (r: Vec<Case>)
    requires
        forall|j: int|
            0 <= j < dtors@.len() ==> match get_v(exprs_v(ex@), (c.name@, #[trigger] dtors_v(dtors@)[j].1.2)) {
                Some(Some(t)) => subst_ok(*t, cell_bound(ctor_v(*c), dtors_v(dtors@)[j].1), SubstM::Swap(0, 1)),
                _ => true,
            },
    ensures
        cases_view(r@) == codata_cases(dtors_v(dtors@), exprs_v(ex@), ctor_v(*c)),
{
    let ghost ds = dtors_v(dtors@);
    let mut out: Vec<Case> = Vec::new();
    let mut i: usize = 0;
    assert(cases_view(out@) =~= codata_cases(ds.subrange(0, 0), exprs_v(ex@), ctor_v(*c)));
    while i < dtors.len()
        invariant
            i <= dtors@.len(),
            ds == dtors_v(dtors@),
            cases_view(out@) == codata_cases(ds.subrange(0, i as int), exprs_v(ex@), ctor_v(*c)),
            forall|j: int|
                0 <= j < dtors@.len() ==> match get_v(exprs_v(ex@), (c.name@, #[trigger] ds[j].1.2)) {
                    Some(Some(t)) => subst_ok(*t, cell_bound(ctor_v(*c), ds[j].1), SubstM::Swap(0, 1)),
                    _ => true,
                },
        decreases dtors@.len() - i,
    {
        let d = &dtors[i].1;
        proof {
            let sub = ds.subrange(0, i + 1);
            assert(sub.drop_last() =~= ds.subrange(0, i as int));
            assert(sub[sub.len() - 1].1 == dtor_v(*d));
            assert(ds[i as int].1 == dtor_v(*d));
        }
        match get_cell(ex, c.name.as_str(), d.name.as_str()) {
            Some(b) => {
                let mut sizes: Vec<usize> = Vec::new();
                sizes.push(d.params.params.len());
                sizes.push(c.params.params.len());
                let mut lc = LevelCtx::from_sizes(sizes);
                let sw = Substitution::Swap { fst1: 0, fst2: 1 };
                assert(lc@ =~= cell_bound(ctor_v(*c), dtor_v(*d)));
                assert(ds[i as int].1.2 == d.name@);
                assert(match get_v(exprs_v(ex@), (c.name@, ds[i as int].1.2)) {
                    Some(Some(t)) => subst_ok(*t, cell_bound(ctor_v(*c), ds[i as int].1), SubstM::Swap(0, 1)),
                    _ => true,
                });
                let body = subst_opt_exp(b, &mut lc, &sw);
                let case = Case { span: None, name: d.name.clone(), params: d.params.instantiate(), body };
                let ghost before = cases_view(out@);
                out.push(case);
                assert(cases_view(out@) =~= before.push(case_view(case)));
            },
            None => {},
        }
        i += 1;
    }
    assert(ds.subrange(0, ds.len() as int) =~= ds);
    out
}

impl XData {
    /// The type as a data type: the data declaration, its constructors, and
    /// a definition for each destructor with a clause for each filled cell.
    pub fn as_data(&self, _uri: &url::Url) -> (r: (Data, Vec<Ctor>, Vec<Def>))
        ensures
            data_repr(r, xdata_v(*self)),
    {
        let ghost e = xdata_v(*self);
        let mut names: Vec<String> = Vec::new();
        let mut ctors: Vec<Ctor> = Vec::new();
        let mut i: usize = 0;
        while i < self.ctors.len()
            invariant
                i <= self.ctors@.len(),
                e == xdata_v(*self),
                names@.len() == i,
                ctors@.len() == i,
                forall|j: int| 0 <= j < i ==> (#[trigger] names@[j])@ == e.ctors[j].1.2,
                forall|j: int| 0 <= j < i ==> ctor_v(#[trigger] ctors@[j]) == e.ctors[j].1,
            decreases self.ctors@.len() - i,
        {
            names.push(self.ctors[i].1.name.clone());
            ctors.push(copy_ctor(&self.ctors[i].1));
            i += 1;
        }
        let attr = Attribute { attrs: Vec::new() };
        assert(attr@ =~= Seq::<Seq<char>>::empty());
        let data = Data {
            span: None,
            doc: copy_doc(&self.doc),
            name: self.name.clone(),
            attr,
            typ: copy_telescope(&self.typ),
            ctors: names,
        };
        assert(strings_view(data.ctors@) =~= xtor_names(e.ctors, |c: CtorV| c.2));
        let mut defs: Vec<Def> = Vec::new();
        let mut k: usize = 0;
        while k < self.dtors.len()
            invariant
                k <= self.dtors@.len(),
                e == xdata_v(*self),
                defs@.len() == k,
                forall|j: int|
                    0 <= j < k ==> def_of(#[trigger] defs@[j], e.dtors[j].1, data_cases(e.ctors, e.exprs, e.dtors[j].1.2)),
            decreases self.dtors@.len() - k,
        {
            let d = &self.dtors[k].1;
            assert(e.dtors[k as int].1 == dtor_v(*d));
            let cases = data_cases_exec(&self.ctors, &self.exprs, &d.name);
            let attr = Attribute { attrs: Vec::new() };
            assert(attr@ =~= Seq::<Seq<char>>::empty());
            let def = Def {
                span: None,
                doc: copy_doc(&d.doc),
                name: d.name.clone(),
                attr,
                params: copy_telescope(&d.params),
                self_param: copy_self_param(&d.self_param),
                ret_typ: Box::new(copy_exp(&d.ret_typ)),
                body: Match { span: None, cases, omit_absurd: false },
            };
            defs.push(def);
            k += 1;
        }
        (data, ctors, defs)
    }

    /// The type as a codata type: the codata declaration, its destructors,
    /// and a codefinition for each constructor with a clause for each filled
    /// cell, whose two telescopes are exchanged back.
    pub fn as_codata(&self, _uri: &url::Url) -> (r: (Codata, Vec<Dtor>, Vec<Codef>))
        requires
            cells_swappable(xdata_v(*self)),
        ensures
            codata_repr(r, xdata_v(*self)),
    {
        let ghost e = xdata_v(*self);
        let mut names: Vec<String> = Vec::new();
        let mut dtors: Vec<Dtor> = Vec::new();
        let mut i: usize = 0;
        while i < self.dtors.len()
            invariant
                i <= self.dtors@.len(),
                e == xdata_v(*self),
                names@.len() == i,
                dtors@.len() == i,
                forall|j: int| 0 <= j < i ==> (#[trigger] names@[j])@ == e.dtors[j].1.2,
                forall|j: int| 0 <= j < i ==> dtor_v(#[trigger] dtors@[j]) == e.dtors[j].1,
            decreases self.dtors@.len() - i,
        {
            names.push(self.dtors[i].1.name.clone());
            dtors.push(copy_dtor(&self.dtors[i].1));
            i += 1;
        }
        let attr = Attribute { attrs: Vec::new() };
        assert(attr@ =~= Seq::<Seq<char>>::empty());
        let codata = Codata {
            span: None,
            doc: copy_doc(&self.doc),
            name: self.name.clone(),
            attr,
            typ: copy_telescope(&self.typ),
            dtors: names,
        };
        assert(strings_view(codata.dtors@) =~= xtor_names(e.dtors, |d: DtorV| d.2));
        let mut codefs: Vec<Codef> = Vec::new();
        let mut k: usize = 0;
        while k < self.ctors.len()
            invariant
                k <= self.ctors@.len(),
                e == xdata_v(*self),
                cells_swappable(e),
                codefs@.len() == k,
                forall|j: int|
                    0 <= j < k ==> codef_of(
                        #[trigger] codefs@[j],
                        e.ctors[j].1,
                        codata_cases(e.dtors, e.exprs, e.ctors[j].1),
                    ),
            decreases self.ctors@.len() - k,
        {
            let c = &self.ctors[k].1;
            proof {
                assert(e.ctors[k as int].1 == ctor_v(*c));
                assert forall|j: int|
                    0 <= j < self.dtors@.len() implies match get_v(
                        exprs_v(self.exprs@),
                        (c.name@, #[trigger] dtors_v(self.dtors@)[j].1.2),
                    ) {
                        Some(Some(t)) => subst_ok(*t, cell_bound(ctor_v(*c), dtors_v(self.dtors@)[j].1), SubstM::Swap(0, 1)),
                        _ => true,
                    } by {
                    assert(e.dtors[j] == dtors_v(self.dtors@)[j]);
                    assert(e.ctors[k as int].1.2 == c.name@);
                }
            }
            let cases = codata_cases_exec(&self.dtors, &self.exprs, c);
            let attr = Attribute { attrs: Vec::new() };
            assert(attr@ =~= Seq::<Seq<char>>::empty());
            let codef = Codef {
                span: None,
                doc: copy_doc(&c.doc),
                name: c.name.clone(),
                attr,
                params: copy_telescope(&c.params),
                typ: crate::exp::copy_typ_ctor(&c.typ),
                body: Match { span: None, cases, omit_absurd: false },
            };
            codefs.push(codef);
            k += 1;
        }
        (codata, dtors, codefs)
    }
}

/// The index of the first entry for `name`, if any.
fn entry_index(prg: &Prg, name: &str) -> (r: Option<usize>)
    ensures
        r matches Some(i) ==> i < prg.map@.len() && first_entry(prg.map@, name@) == Some(i as int),
        match first_entry(prg.map@, name@) {
            Some(i) => r == Some(i as usize),
            None => r is None,
        },
{
    let mut i: usize = 0;
    while i < prg.map.len()
        invariant
            i <= prg.map@.len(),
            forall|j: int| 0 <= j < i ==> prg.map@[j].0@ != name@,
        decreases prg.map@.len() - i,
    {
        if str_eq(prg.map[i].0.as_str(), name) {
            proof {
                lemma_first_entry(prg.map@, name@, i as int);
            }
            return Some(i);
        }
        i += 1;
    }
    None
}

/// The error for a type that the program does not have.
fn unresolved(name: &str) -> (r: XfuncError)
    ensures
        r matches XfuncError::Impossible { message, span } && message@ == "Could not resolve "@ + name@ && span is None,
{
    let mut message = String::from_str("Could not resolve ");
    message.append(name);
    XfuncError::Impossible { message, span: None }
}

/// The matrix of the declarations of a module.
pub fn as_matrix(decls: &Vec<Decl>, uri: url::Url) -> (r: Result<Prg, XfuncError>)
    requires
        codef_bodies_ok(decls@),
    ensures
        r matches Ok(p) && prg_v(p.map@) == build_spec(decls@),
{
    build(decls, uri)
}

/// The type `name` of the matrix as a data type, or an error when the
/// program has no such type.
pub fn as_data(prg: &Prg, name: &str) -> (r: Result<(Data, Vec<Ctor>, Vec<Def>), XfuncError>)
    ensures
        match first_entry(prg.map@, name@) {
            Some(i) => r matches Ok(t) && data_repr(t, xdata_v(prg.map@[i].1)),
            None => r matches Err(XfuncError::Impossible { message, span }) && message@ == "Could not resolve "@ + name@
                && span is None,
        },
{
    match entry_index(prg, name) {
        Some(i) => Ok(prg.map[i].1.as_data(&prg.uri)),
        None => Err(unresolved(name)),
    }
}

/// The type `name` of the matrix as a codata type, or an error when the
/// program has no such type.
pub fn as_codata(prg: &Prg, name: &str) -> (r: Result<(Codata, Vec<Dtor>, Vec<Codef>), XfuncError>)
    requires
        forall|i: int| 0 <= i < prg.map@.len() ==> cells_swappable(#[trigger] prg_v(prg.map@)[i].1),
    ensures
        match first_entry(prg.map@, name@) {
            Some(i) => r matches Ok(t) && codata_repr(t, xdata_v(prg.map@[i].1)),
            None => r matches Err(XfuncError::Impossible { message, span }) && message@ == "Could not resolve "@ + name@
                && span is None,
        },
{
    match entry_index(prg, name) {
        Some(i) => {
            assert(prg_v(prg.map@)[i as int].1 == xdata_v(prg.map@[i as int].1));
            Ok(prg.map[i].1.as_codata(&prg.uri))
        },
        None => Err(unresolved(name)),
    }
}

/// The body of a clause of a codefinition with `n` parameters, put into the
/// matrix and read back into a codefinition whose destructor has as many
/// parameters as the clause, is the body that was put in, up to
/// alpha-equivalence.
pub proof fn lemma_codef_cell_round_trip(n: nat, c: CaseM)
    requires
        n <= usize::MAX,
        c.params.len() <= usize::MAX,
        case_swappable(n, c),
    ensures
        opt_eq(
            subst_opt(
                subst_opt(c.body, codef_bound(n, c), SubstM::Swap(0, 1)),
                seq![c.params.len() as usize, n as usize],
                SubstM::Swap(0, 1),
            ),
            c.body,
        ),
{
    let b = codef_bound(n, c);
    assert(crate::de_bruijn::swap_spec(b, 0, 1) =~= seq![c.params.len() as usize, n as usize]);
    if let Some(t) = c.body {
        lemma_swap_twice(*t, b, 0, 1);
    }
}

/// Whether some pair of `m` has the key `k`.
pub open spec fn has_key<K, W>(m: Seq<(K, W)>, k: K) -> bool {
    exists|i: int| 0 <= i < m.len() && (#[trigger] m[i]).0 == k
}

/// Whether the declaration declares a data or codata type named `k`.
pub open spec fn declares_type(d: Decl, k: Seq<char>) -> bool {
    match d {
        Decl::Data(x) => x.name@ == k,
        Decl::Codata(x) => x.name@ == k,
        _ => false,
    }
}

proof fn lemma_min_key<K, W>(m: Seq<(K, W)>, k: K) -> (i: int)
    requires
        has_key(m, k),
    ensures
        0 <= i < m.len(),
        m[i].0 == k,
        forall|x: int| 0 <= x < i ==> m[x].0 != k,
    decreases m.len(),
{
    let init = m.drop_last();
    if has_key(init, k) {
        let i = lemma_min_key(init, k);
        assert forall|x: int| 0 <= x < i implies m[x].0 != k by {
            assert(m[x] == init[x]);
        }
        assert(m[i] == init[i]);
        i
    } else {
        let j = choose|j: int| 0 <= j < m.len() && (#[trigger] m[j]).0 == k;
        assert forall|x: int| 0 <= x < m.len() - 1 implies m[x].0 != k by {
            assert(m[x] == init[x]);
        }
        assert(j == m.len() - 1);
        m.len() - 1
    }
}

proof fn lemma_first_key_props<K, W>(m: Seq<(K, W)>, k: K)
    ensures
        match first_key(m, k) {
            Some(i) => 0 <= i < m.len() && m[i].0 == k,
            None => !has_key(m, k),
        },
{
    if has_key(m, k) {
        let i = lemma_min_key(m, k);
        lemma_first_key(m, k, i);
    }
}

proof fn lemma_put_keys<K, W>(m: Seq<(K, W)>, k: K, v: W)
    ensures
        forall|k2: K| has_key(put_v(m, k, v), k2) <==> (has_key(m, k2) || k2 == k),
{
    let r = put_v(m, k, v);
    lemma_first_key_props(m, k);
    if let Some(i) = first_key(m, k) {
        assert forall|k2: K| has_key(r, k2) <==> (has_key(m, k2) || k2 == k) by {
            if has_key(m, k2) {
                let j = choose|j: int| 0 <= j < m.len() && (#[trigger] m[j]).0 == k2;
                assert(r[j].0 == k2);
            }
            if has_key(r, k2) {
                let j = choose|j: int| 0 <= j < r.len() && (#[trigger] r[j]).0 == k2;
                if j != i {
                    assert(m[j].0 == k2);
                }
            }
            if k2 == k {
                assert(r[i].0 == k);
            }
        }
    } else {
        assert forall|k2: K| has_key(r, k2) <==> (has_key(m, k2) || k2 == k) by {
            if has_key(m, k2) {
                let j = choose|j: int| 0 <= j < m.len() && (#[trigger] m[j]).0 == k2;
                assert(r[j].0 == k2);
            }
            if has_key(r, k2) {
                let j = choose|j: int| 0 <= j < r.len() && (#[trigger] r[j]).0 == k2;
                if j < m.len() {
                    assert(m[j].0 == k2);
                }
            }
            if k2 == k {
                assert(r[m.len() as int].0 == k);
            }
        }
    }
}

proof fn lemma_pass_xtors_keys(m: Seq<(Seq<char>, XDataM)>, d: Decl)
    ensures
        pass_xtors(m, d).len() == m.len(),
        forall|i: int| 0 <= i < m.len() ==> (#[trigger] pass_xtors(m, d)[i]).0 == m[i].0,
{
    match d {
        Decl::Ctor(x) => lemma_first_key_props(m, x.typ@.name),
        Decl::Dtor(x) => lemma_first_key_props(m, x.self_param.typ@.name),
        Decl::Def(x) => lemma_first_key_props(m, x.self_param.typ@.name),
        Decl::Codef(x) => lemma_first_key_props(m, x.typ@.name),
        _ => {},
    }
}

proof fn lemma_fold_xtors_keys(m: Seq<(Seq<char>, XDataM)>, ds: Seq<Decl>)
    ensures
        fold_xtors(m, ds).len() == m.len(),
        forall|i: int| 0 <= i < m.len() ==> (#[trigger] fold_xtors(m, ds)[i]).0 == m[i].0,
    decreases ds.len(),
{
    if ds.len() > 0 {
        lemma_fold_xtors_keys(m, ds.drop_last());
        lemma_pass_xtors_keys(fold_xtors(m, ds.drop_last()), ds[ds.len() - 1]);
    }
}

proof fn lemma_fold_types_keys(ds: Seq<Decl>)
    ensures
        forall|k: Seq<char>| has_key(fold_types(ds), k) <==> exists|i: int| 0 <= i < ds.len() && declares_type(#[trigger] ds[i], k),
    decreases ds.len(),
{
    if ds.len() > 0 {
        let init = ds.drop_last();
        let d = ds[ds.len() - 1];
        lemma_fold_types_keys(init);
        let m = fold_types(init);
        assert(fold_types(ds) == pass_types(m, d));
        match d {
            Decl::Data(x) => lemma_put_keys(m, x.name@, new_entry(Repr::Data, x.span, doc_view(x.doc), x.name@, x.typ@)),
            Decl::Codata(x) => lemma_put_keys(m, x.name@, new_entry(Repr::Codata, x.span, doc_view(x.doc), x.name@, x.typ@)),
            _ => {},
        }
        assert forall|k: Seq<char>|
            has_key(fold_types(ds), k) <==> exists|i: int| 0 <= i < ds.len() && declares_type(#[trigger] ds[i], k) by {
            match d {
                Decl::Data(x) => {
                    assert(has_key(pass_types(m, d), k) <==> (has_key(m, k) || x.name@ == k));
                },
                Decl::Codata(x) => {
                    assert(has_key(pass_types(m, d), k) <==> (has_key(m, k) || x.name@ == k));
                },
                _ => {},
            }
            assert(has_key(fold_types(ds), k) <==> (has_key(m, k) || declares_type(d, k)));
            if declares_type(d, k) {
                assert(declares_type(ds[ds.len() - 1], k));
            }
            if exists|i: int| 0 <= i < init.len() && declares_type(#[trigger] init[i], k) {
                let i = choose|i: int| 0 <= i < init.len() && declares_type(#[trigger] init[i], k);
                assert(ds[i] == init[i]);
            }
            if exists|i: int| 0 <= i < ds.len() && declares_type(#[trigger] ds[i], k) {
                let i = choose|i: int| 0 <= i < ds.len() && declares_type(#[trigger] ds[i], k);
                if i < ds.len() - 1 {
                    assert(init[i] == ds[i]);
                }
            }
        }
    }
}

/// The matrix has an entry for a name exactly when the declarations declare
/// a data or codata type of that name.
pub proof fn lemma_build_types(ds: Seq<Decl>)
    ensures
        forall|k: Seq<char>|
            has_key(build_spec(ds), k) <==> exists|i: int| 0 <= i < ds.len() && declares_type(#[trigger] ds[i], k),
{
    lemma_fold_types_keys(ds);
    let m = fold_types(ds);
    lemma_fold_xtors_keys(m, ds);
    assert forall|k: Seq<char>| has_key(build_spec(ds), k) <==> has_key(m, k) by {
        let r = build_spec(ds);
        if has_key(m, k) {
            let j = choose|j: int| 0 <= j < m.len() && (#[trigger] m[j]).0 == k;
            assert(r[j].0 == k);
        }
        if has_key(r, k) {
            let j = choose|j: int| 0 <= j < r.len() && (#[trigger] r[j]).0 == k;
            assert(m[j].0 == k);
        }
    }
    assert forall|k: Seq<char>|
        has_key(build_spec(ds), k) <==> exists|i: int| 0 <= i < ds.len() && declares_type(#[trigger] ds[i], k) by {
        assert(has_key(build_spec(ds), k) <==> has_key(m, k));
        assert(has_key(fold_types(ds), k) <==> exists|i: int| 0 <= i < ds.len() && declares_type(#[trigger] ds[i], k));
    }
}

} // verus!
