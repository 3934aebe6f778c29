//! Metadata on declarations: the toplevel items in the order in which they
//! are defined in the source, and for each constructor, destructor and
//! definition the type that it belongs to.
//!
//! The maps of the table are association lists keyed by name, in which no
//! name occurs twice; they are specified pointwise, as maps.

use vstd::prelude::*;
use crate::strings::str_eq;
use crate::decl::strings_view;

verus! {

broadcast use vstd::std_specs::vec::group_vec_axioms, vstd::seq::group_seq_axioms;

// ---------------------------------------------------------------------------
// Association lists
// ---------------------------------------------------------------------------

/// No key occurs twice.
pub open spec fn unique_keys<W>(m: Seq<(Seq<char>, W)>) -> bool {
    forall|i: int, j: int| 0 <= i < m.len() && 0 <= j < m.len() && i != j ==> m[i].0 != m[j].0
}

/// The value stored for `k`, if any.
pub open spec fn assoc<W>(m: Seq<(Seq<char>, W)>, k: Seq<char>) -> Option<W> {
    if exists|i: int| 0 <= i < m.len() && m[i].0 == k {
        Some(m[choose|i: int| 0 <= i < m.len() && m[i].0 == k].1)
    } else {
        None
    }
}

/// `m2` is `m1` with `k` mapped to `w`.
pub open spec fn updated<W>(m1: Seq<(Seq<char>, W)>, m2: Seq<(Seq<char>, W)>, k: Seq<char>, w: W) -> bool {
    &&& unique_keys(m2)
    &&& forall|k2: Seq<char>| #[trigger] assoc(m2, k2) == if k2 == k { Some(w) } else { assoc(m1, k2) }
}

/// `m2` holds what `m1` holds.
pub open spec fn same_map<W>(m1: Seq<(Seq<char>, W)>, m2: Seq<(Seq<char>, W)>) -> bool {
    &&& unique_keys(m2)
    &&& forall|k2: Seq<char>| #[trigger] assoc(m2, k2) == assoc(m1, k2)
}

pub(crate) proof fn lemma_assoc_at<W>(m: Seq<(Seq<char>, W)>, i: int)
    requires
        unique_keys(m),
        0 <= i < m.len(),
    ensures
        assoc(m, m[i].0) == Some(m[i].1),
{
    let j = choose|j: int| 0 <= j < m.len() && m[j].0 == m[i].0;
    assert(0 <= j < m.len() && m[j].0 == m[i].0);
    assert(j == i);
}

pub(crate) proof fn lemma_assoc_update<W>(m: Seq<(Seq<char>, W)>, i: int, w: W)
    requires
        unique_keys(m),
        0 <= i < m.len(),
    ensures
        updated(m, m.update(i, (m[i].0, w)), m[i].0, w),
{
    let k = m[i].0;
    let m2 = m.update(i, (k, w));
    assert forall|a: int, b: int| 0 <= a < m2.len() && 0 <= b < m2.len() && a != b implies m2[a].0 != m2[b].0 by {
        assert(m2[a].0 == m[a].0 && m2[b].0 == m[b].0);
    }
    assert forall|k2: Seq<char>| #[trigger] assoc(m2, k2) == if k2 == k { Some(w) } else { assoc(m, k2) } by {
        if k2 == k {
            lemma_assoc_at(m2, i);
        } else if exists|j: int| 0 <= j < m.len() && m[j].0 == k2 {
            let j = choose|j: int| 0 <= j < m.len() && m[j].0 == k2;
            lemma_assoc_at(m, j);
            lemma_assoc_at(m2, j);
        } else {
            assert(!exists|j: int| 0 <= j < m2.len() && m2[j].0 == k2);
        }
    }
}

pub(crate) proof fn lemma_assoc_push<W>(m: Seq<(Seq<char>, W)>, k: Seq<char>, w: W)
    requires
        unique_keys(m),
        forall|j: int| 0 <= j < m.len() ==> m[j].0 != k,
    ensures
        updated(m, m.push((k, w)), k, w),
{
    let m2 = m.push((k, w));
    assert forall|a: int, b: int| 0 <= a < m2.len() && 0 <= b < m2.len() && a != b implies m2[a].0 != m2[b].0 by {
        if a < m.len() && b < m.len() {
            assert(m2[a] == m[a] && m2[b] == m[b]);
        } else if a < m.len() {
            assert(m2[a] == m[a]);
        } else {
            assert(m2[b] == m[b]);
        }
    }
    assert forall|k2: Seq<char>| #[trigger] assoc(m2, k2) == if k2 == k { Some(w) } else { assoc(m, k2) } by {
        if k2 == k {
            lemma_assoc_at(m2, m.len() as int);
        } else if exists|j: int| 0 <= j < m.len() && m[j].0 == k2 {
            let j = choose|j: int| 0 <= j < m.len() && m[j].0 == k2;
            lemma_assoc_at(m, j);
            lemma_assoc_at(m2, j);
        } else {
            assert(!exists|j: int| 0 <= j < m2.len() && m2[j].0 == k2);
        }
    }
}

proof fn lemma_assoc_remove<W>(m: Seq<(Seq<char>, W)>, i: int)
    requires
        unique_keys(m),
        0 <= i < m.len(),
    ensures
        unique_keys(m.remove(i)),
        forall|k2: Seq<char>| #[trigger] assoc(m.remove(i), k2) == if k2 == m[i].0 { None } else { assoc(m, k2) },
{
    let k = m[i].0;
    let m2 = m.remove(i);
    assert forall|a: int, b: int| 0 <= a < m2.len() && 0 <= b < m2.len() && a != b implies m2[a].0 != m2[b].0 by {
        let a1 = if a < i { a } else { a + 1 };
        let b1 = if b < i { b } else { b + 1 };
        assert(m2[a] == m[a1] && m2[b] == m[b1]);
    }
    assert forall|k2: Seq<char>| #[trigger] assoc(m2, k2) == if k2 == k { None } else { assoc(m, k2) } by {
        if k2 == k {
            assert forall|j: int| 0 <= j < m2.len() implies m2[j].0 != k2 by {
                let j1 = if j < i { j } else { j + 1 };
                assert(m2[j] == m[j1]);
            }
        } else if exists|j: int| 0 <= j < m.len() && m[j].0 == k2 {
            let j = choose|j: int| 0 <= j < m.len() && m[j].0 == k2;
            lemma_assoc_at(m, j);
            let j2 = if j < i { j } else { j - 1 };
            assert(m2[j2] == m[j]);
            lemma_assoc_at(m2, j2);
        } else {
            assert forall|j: int| 0 <= j < m2.len() implies m2[j].0 != k2 by {
                let j1 = if j < i { j } else { j + 1 };
                assert(m2[j] == m[j1]);
            }
        }
    }
}

proof fn lemma_take_push_contains(s: Seq<Seq<char>>, j: int, k: Seq<char>)
    requires
        0 <= j < s.len(),
    ensures
        s.take(j + 1).contains(k) == (s.take(j).contains(k) || k == s[j]),
{
    let a = s.take(j + 1);
    let b = s.take(j);
    if a.contains(k) {
        let m = choose|m: int| 0 <= m < a.len() && #[trigger] a[m] == k;
        if m < j {
            assert(b[m] == k);
        }
    }
    if b.contains(k) {
        let m = choose|m: int| 0 <= m < b.len() && #[trigger] b[m] == k;
        assert(a[m] == k);
    }
    if k == s[j] {
        assert(s.take(j + 1)[j] == k);
    }
}

/// The index of the entry for `key`, if any.
pub(crate) fn find_key<V>(m: &Vec<(String, V)>, key: &str) -> (r: Option<usize>)
    ensures
        r matches Some(i) ==> i < m@.len() && m@[i as int].0@ == key@ && forall|j: int|
            0 <= j < i ==> m@[j].0@ != key@,
        r is None ==> forall|j: int| 0 <= j < m@.len() ==> m@[j].0@ != key@,
{
    let mut i: usize = 0;
    while i < m.len()
        invariant
            i <= m@.len(),
            forall|j: int| 0 <= j < i ==> m@[j].0@ != key@,
        decreases m@.len() - i,
    {
        if str_eq(m[i].0.as_str(), key) {
            return Some(i);
        }
        i += 1;
    }
    None
}

/// Map `k` to `v` in a list of positions.
fn put_idx(m: &mut Vec<(String, usize)>, k: String, v: usize)
    requires
        unique_keys(idx_view(old(m)@)),
    ensures
        updated(idx_view(old(m)@), idx_view(final(m)@), k@, v),
{
    let ghost km = k@;
    match find_key(m, k.as_str()) {
        Some(i) => {
            proof {
                lemma_assoc_update(idx_view(m@), i as int, v);
            }
            m.set(i, (k, v));
            assert(idx_view(m@) =~= idx_view(old(m)@).update(i as int, (km, v)));
        },
        None => {
            proof {
                lemma_assoc_push(idx_view(m@), km, v);
            }
            m.push((k, v));
            assert(idx_view(m@) =~= idx_view(old(m)@).push((km, v)));
        },
    }
}

/// Map `k` to `v` in a list of names.
fn put_name(m: &mut Vec<(String, String)>, k: String, v: String)
    requires
        unique_keys(names_view(old(m)@)),
    ensures
        updated(names_view(old(m)@), names_view(final(m)@), k@, v@),
{
    let ghost km = k@;
    let ghost vm = v@;
    match find_key(m, k.as_str()) {
        Some(i) => {
            proof {
                lemma_assoc_update(names_view(m@), i as int, vm);
            }
            m.set(i, (k, v));
            assert(names_view(m@) =~= names_view(old(m)@).update(i as int, (km, vm)));
        },
        None => {
            proof {
                lemma_assoc_push(names_view(m@), km, vm);
            }
            m.push((k, v));
            assert(names_view(m@) =~= names_view(old(m)@).push((km, vm)));
        },
    }
}

/// Map `k` to `v` in a list of name sets.
fn put_set(m: &mut Vec<(String, Vec<String>)>, k: String, v: Vec<String>)
    requires
        unique_keys(sets_view(old(m)@)),
    ensures
        updated(sets_view(old(m)@), sets_view(final(m)@), k@, strings_view(v@)),
{
    let ghost km = k@;
    let ghost vm = strings_view(v@);
    match find_key(m, k.as_str()) {
        Some(i) => {
            proof {
                lemma_assoc_update(sets_view(m@), i as int, vm);
            }
            m.set(i, (k, v));
            assert(sets_view(m@) =~= sets_view(old(m)@).update(i as int, (km, vm)));
        },
        None => {
            proof {
                lemma_assoc_push(sets_view(m@), km, vm);
            }
            m.push((k, v));
            assert(sets_view(m@) =~= sets_view(old(m)@).push((km, vm)));
        },
    }
}

/// Remove the entry for `k` from a list of names.
fn remove_name(m: &mut Vec<(String, String)>, k: &str)
    requires
        unique_keys(names_view(old(m)@)),
    ensures
        unique_keys(names_view(final(m)@)),
        forall|k2: Seq<char>| #[trigger] assoc(names_view(final(m)@), k2) == if k2 == k@ {
            None
        } else {
            assoc(names_view(old(m)@), k2)
        },
{
    match find_key(m, k) {
        Some(i) => {
            proof {
                lemma_assoc_remove(names_view(m@), i as int);
            }
            m.remove(i);
            assert(names_view(m@) =~= names_view(old(m)@).remove(i as int));
        },
        None => {
            assert forall|k2: Seq<char>| #[trigger] assoc(names_view(m@), k2) == if k2 == k@ {
                None
            } else {
                assoc(names_view(old(m)@), k2)
            } by {
                if k2 == k@ {
                    assert(!exists|j: int| 0 <= j < m@.len() && names_view(m@)[j].0 == k2);
                }
            }
        },
    }
}

/// The position stored for `k`.
/// After `k` is mapped to `w`, every entry is `(k, w)` or an entry that was there.
proof fn lemma_updated_entries(m1: Seq<(Seq<char>, usize)>, m2: Seq<(Seq<char>, usize)>, k: Seq<char>, w: usize)
    requires
        unique_keys(m1),
        updated(m1, m2, k, w),
    ensures
        forall|j: int|
            0 <= j < m2.len() ==> ((#[trigger] m2[j]).0 == k && m2[j].1 == w) || exists|i: int|
                0 <= i < m1.len() && m1[i] == m2[j],
{
    assert forall|j: int| 0 <= j < m2.len() implies ((#[trigger] m2[j]).0 == k && m2[j].1 == w) || exists|i: int|
        0 <= i < m1.len() && m1[i] == m2[j] by {
        lemma_assoc_at(m2, j);
        let key = m2[j].0;
        if key != k {
            assert(assoc(m1, key) == Some(m2[j].1));
            let i = choose|i: int| 0 <= i < m1.len() && m1[i].0 == key;
            lemma_assoc_at(m1, i);
            assert(m1[i] == m2[j]);
        }
    }
}

/// Move every position after `p` up by one.
fn shift_positions(m: &mut Vec<(String, usize)>, p: usize, n: usize)
    requires
        n < usize::MAX,
        forall|j: int| 0 <= j < old(m)@.len() ==> (#[trigger] old(m)@[j]).1 < n,
    ensures
        idx_view(final(m)@) == shifted_positions(idx_view(old(m)@), p as int),
{
    let ghost target = shifted_positions(idx_view(m@), p as int);
    let mut j: usize = 0;
    while j < m.len()
        invariant
            j <= m@.len(),
            m@.len() == old(m)@.len(),
            n < usize::MAX,
            target == shifted_positions(idx_view(old(m)@), p as int),
            forall|k: int| 0 <= k < j ==> (#[trigger] idx_view(m@)[k]) == target[k],
            forall|k: int| j <= k < m@.len() ==> (#[trigger] m@[k]) == old(m)@[k],
            forall|k: int| 0 <= k < old(m)@.len() ==> (#[trigger] old(m)@[k]).1 < n,
        decreases m@.len() - j,
    {
        let v = m[j].1;
        let ghost prev = m@;
        if v > p {
            let key = m[j].0.clone();
            assert(old(m)@[j as int].1 < n);
            m.set(j, (key, v + 1));
        }
        proof {
            assert forall|x: int| 0 <= x < j implies idx_view(m@)[x] == idx_view(prev)[x] by {
                assert(m@[x] == prev[x]);
            }
            assert(idx_view(m@)[j as int] == target[j as int]);
            assert forall|x: int| 0 <= x < j + 1 implies (#[trigger] idx_view(m@)[x]) == target[x] by {
                if x < j {
                    assert(idx_view(prev)[x] == target[x]);
                }
            }
        }
        j += 1;
    }
    assert(idx_view(m@) =~= target);
}

fn get_idx(m: &Vec<(String, usize)>, k: &str) -> (r: Option<usize>)
    requires
        unique_keys(idx_view(m@)),
    ensures
        r == assoc(idx_view(m@), k@),
{
    match find_key(m, k) {
        Some(i) => {
            proof {
                lemma_assoc_at(idx_view(m@), i as int);
            }
            Some(m[i].1)
        },
        None => {
            assert(!exists|j: int| 0 <= j < m@.len() && idx_view(m@)[j].0 == k@);
            None
        },
    }
}

/// The name stored for `k`.
fn get_name<'a>(m: &'a Vec<(String, String)>, k: &str) -> (r: Option<&'a String>)
    requires
        unique_keys(names_view(m@)),
    ensures
        r matches Some(s) ==> assoc(names_view(m@), k@) == Some(s@),
        r is None ==> assoc(names_view(m@), k@) is None,
{
    match find_key(m, k) {
        Some(i) => {
            proof {
                lemma_assoc_at(names_view(m@), i as int);
            }
            Some(&m[i].1)
        },
        None => {
            assert(!exists|j: int| 0 <= j < m@.len() && names_view(m@)[j].0 == k@);
            None
        },
    }
}

/// The set of names stored for `k`.
fn get_set<'a>(m: &'a Vec<(String, Vec<String>)>, k: &str) -> (r: Option<&'a Vec<String>>)
    requires
        unique_keys(sets_view(m@)),
    ensures
        r matches Some(s) ==> assoc(sets_view(m@), k@) == Some(strings_view(s@)),
        r is None ==> assoc(sets_view(m@), k@) is None,
{
    match find_key(m, k) {
        Some(i) => {
            proof {
                lemma_assoc_at(sets_view(m@), i as int);
            }
            Some(&m[i].1)
        },
        None => {
            assert(!exists|j: int| 0 <= j < m@.len() && sets_view(m@)[j].0 == k@);
            None
        },
    }
}

// ---------------------------------------------------------------------------
// The table
// ---------------------------------------------------------------------------

/// A type declaration in the source, with its constructors or destructors.
#[derive(Debug)]
pub struct Type {
    pub name: String,
    pub xtors: Vec<String>,
}

/// A definition in the source.
#[derive(Debug)]
pub struct Def {
    pub name: String,
}

/// A toplevel item in the source.
#[derive(Debug)]
pub enum Item {
    Type(Type),
    Def(Def),
}

/// Model of an [`Item`].
pub enum ItemM {
    Type(Seq<char>, Seq<Seq<char>>),
    Def(Seq<char>),
}

pub open spec fn item_view(i: Item) -> ItemM {
    match i {
        Item::Type(t) => ItemM::Type(t.name@, strings_view(t.xtors@)),
        Item::Def(d) => ItemM::Def(d.name@),
    }
}

pub open spec fn items_view(s: Seq<Item>) -> Seq<ItemM> {
    Seq::new(s.len(), |i: int| item_view(s[i]))
}

pub open spec fn idx_view(s: Seq<(String, usize)>) -> Seq<(Seq<char>, usize)> {
    Seq::new(s.len(), |i: int| (s[i].0@, s[i].1))
}

pub open spec fn names_view(s: Seq<(String, String)>) -> Seq<(Seq<char>, Seq<char>)> {
    Seq::new(s.len(), |i: int| (s[i].0@, s[i].1@))
}

pub open spec fn sets_view(s: Seq<(String, Vec<String>)>) -> Seq<(Seq<char>, Seq<Seq<char>>)> {
    Seq::new(s.len(), |i: int| (s[i].0@, strings_view(s[i].1@)))
}

/// Model of a [`LookupTable`].
pub struct TableM {
    pub items: Seq<ItemM>,
    pub item_idx: Seq<(Seq<char>, usize)>,
    pub type_for_xtor: Seq<(Seq<char>, Seq<char>)>,
    pub type_for_xdef: Seq<(Seq<char>, Seq<char>)>,
    pub xdefs_for_type: Seq<(Seq<char>, Seq<Seq<char>>)>,
}

/// Metadata on declarations.
#[derive(Debug)]
pub struct LookupTable {
    /// The items in the order in which they are defined in the source.
    items: Vec<Item>,
    /// The position in `items` of each type declaration, by name.
    item_idx: Vec<(String, usize)>,
    /// The type of each constructor or destructor.
    type_for_xtor: Vec<(String, String)>,
    /// The type of each definition or codefinition.
    type_for_xdef: Vec<(String, String)>,
    /// The definitions and codefinitions of each type.
    xdefs_for_type: Vec<(String, Vec<String>)>,
}

impl View for LookupTable {
    type V = TableM;

    closed spec fn view(&self) -> TableM {
        TableM {
            items: items_view(self.items@),
            item_idx: idx_view(self.item_idx@),
            type_for_xtor: names_view(self.type_for_xtor@),
            type_for_xdef: names_view(self.type_for_xdef@),
            xdefs_for_type: sets_view(self.xdefs_for_type@),
        }
    }
}

/// Every recorded position is a position of `items`, where the type
/// declaration of the recorded name stands.
pub open spec fn positions_in_items(t: TableM) -> bool {
    forall|j: int|
        0 <= j < t.item_idx.len() ==> (#[trigger] t.item_idx[j]).1 < t.items.len() && t.items[t.item_idx[j].1 as int] is Type
            && t.items[t.item_idx[j].1 as int]->Type_0 == t.item_idx[j].0
}

/// No map of the table holds a name twice, and every recorded position is
/// a position of `items`.
pub open spec fn table_wf(t: TableM) -> bool {
    &&& positions_in_items(t)
    &&& unique_keys(t.item_idx)
    &&& unique_keys(t.type_for_xtor)
    &&& unique_keys(t.type_for_xdef)
    &&& unique_keys(t.xdefs_for_type)
}

/// The type declaration recorded for `name`: its name and constructors or destructors.
pub open spec fn type_decl_spec(t: TableM, name: Seq<char>) -> Option<(Seq<char>, Seq<Seq<char>>)> {
    match assoc(t.item_idx, name) {
        Some(i) => if i < t.items.len() {
            match t.items[i as int] {
                ItemM::Type(n, x) => Some((n, x)),
                ItemM::Def(_) => None,
            }
        } else {
            None
        },
        None => None,
    }
}

/// The set `s` with `x` added.
pub open spec fn set_insert(s: Seq<Seq<char>>, x: Seq<char>) -> Seq<Seq<char>> {
    if s.contains(x) {
        s
    } else {
        s.push(x)
    }
}

/// The definitions recorded for the type `name`.
pub open spec fn xdefs_spec(t: TableM, name: Seq<char>) -> Seq<Seq<char>> {
    match assoc(t.xdefs_for_type, name) {
        Some(s) => s,
        None => Seq::empty(),
    }
}

/// The maps of `t2` record that `def_name` belongs to `ty`, and
/// otherwise hold what those of `t1` hold.
pub open spec fn def_recorded(t1: TableM, t2: TableM, ty: Seq<char>, def_name: Seq<char>) -> bool {
    &&& same_map(t1.item_idx, t2.item_idx)
    &&& same_map(t1.type_for_xtor, t2.type_for_xtor)
    &&& updated(t1.type_for_xdef, t2.type_for_xdef, def_name, ty)
    &&& updated(t1.xdefs_for_type, t2.xdefs_for_type, ty, set_insert(xdefs_spec(t1, ty), def_name))
}

/// The positions with every position after `p` moved up by one, as when an
/// item is inserted at `p + 1`.
pub open spec fn shifted_positions(m: Seq<(Seq<char>, usize)>, p: int) -> Seq<(Seq<char>, usize)> {
    Seq::new(m.len(), |j: int| (m[j].0, if m[j].1 > p { (m[j].1 + 1) as usize } else { m[j].1 }))
}

/// The maps of `t2` record that `def_name` belongs to `ty`; the positions of
/// `t1` after the position `p` are moved up by one; the rest is as in `t1`.
pub open spec fn def_inserted(t1: TableM, t2: TableM, ty: Seq<char>, def_name: Seq<char>, p: int) -> bool {
    &&& t2.item_idx == shifted_positions(t1.item_idx, p)
    &&& same_map(t1.type_for_xtor, t2.type_for_xtor)
    &&& updated(t1.type_for_xdef, t2.type_for_xdef, def_name, ty)
    &&& updated(t1.xdefs_for_type, t2.xdefs_for_type, ty, set_insert(xdefs_spec(t1, ty), def_name))
}

/// The name of the recorded type declaration `ty`.
pub open spec fn decl_name_of(t: TableM, ty: Seq<char>) -> Seq<char> {
    match type_decl_spec(t, ty) {
        Some((n, _)) => n,
        None => Seq::empty(),
    }
}

/// The constructors or destructors of the recorded type declaration `ty`.
pub open spec fn decl_xtors_of(t: TableM, ty: Seq<char>) -> Seq<Seq<char>> {
    match type_decl_spec(t, ty) {
        Some((_, xs)) => xs,
        None => Seq::empty(),
    }
}

/// `t2` is `t1` with a new type declaration `name` appended, without constructors or destructors.
pub open spec fn type_added(t1: TableM, t2: TableM, name: Seq<char>) -> bool {
    &&& t1.items.len() < usize::MAX
    &&& t2.items == t1.items.push(ItemM::Type(name, Seq::empty()))
    &&& updated(t1.item_idx, t2.item_idx, name, t1.items.len() as usize)
    &&& t2.type_for_xtor == t1.type_for_xtor
    &&& t2.type_for_xdef == t1.type_for_xdef
    &&& t2.xdefs_for_type == t1.xdefs_for_type
}

/// The position of the type declaration `ty`, which must be recorded.
pub open spec fn type_pos(t: TableM, ty: Seq<char>) -> int {
    assoc(t.item_idx, ty)->0 as int
}

/// `t2` is `t1` with the constructor or destructor `x` added to the type `ty`.
pub open spec fn xtor_added(t1: TableM, t2: TableM, ty: Seq<char>, x: Seq<char>) -> bool {
    &&& t2.items == t1.items.update(type_pos(t1, ty), ItemM::Type(decl_name_of(t1, ty), decl_xtors_of(t1, ty).push(x)))
    &&& t2.item_idx == t1.item_idx
    &&& updated(t1.type_for_xtor, t2.type_for_xtor, x, ty)
    &&& t2.type_for_xdef == t1.type_for_xdef
    &&& t2.xdefs_for_type == t1.xdefs_for_type
}

/// Whether the string `x` is one of `s`.
fn contains_string(s: &Vec<String>, x: &str) -> (r: bool)
    ensures
        r == strings_view(s@).contains(x@),
{
    let mut i: usize = 0;
    while i < s.len()
        invariant
            i <= s@.len(),
            forall|j: int| 0 <= j < i ==> s@[j]@ != x@,
        decreases s@.len() - i,
    {
        if str_eq(s[i].as_str(), x) {
            assert(strings_view(s@)[i as int] == x@);
            return true;
        }
        i += 1;
    }
    assert(!strings_view(s@).contains(x@)) by {
        if strings_view(s@).contains(x@) {
            let j = choose|j: int| 0 <= j < strings_view(s@).len() && strings_view(s@)[j] == x@;
            assert(s@[j]@ == x@);
        }
    }
    false
}

impl Default for LookupTable {
    /// The empty table.
    fn default() -> (r: LookupTable)
        ensures
            r@.items == Seq::<ItemM>::empty(),
            r@.item_idx == Seq::<(Seq<char>, usize)>::empty(),
            r@.type_for_xtor == Seq::<(Seq<char>, Seq<char>)>::empty(),
            r@.type_for_xdef == Seq::<(Seq<char>, Seq<char>)>::empty(),
            r@.xdefs_for_type == Seq::<(Seq<char>, Seq<Seq<char>>)>::empty(),
            table_wf(r@),
    {
        let r = LookupTable {
            items: Vec::new(),
            item_idx: Vec::new(),
            type_for_xtor: Vec::new(),
            type_for_xdef: Vec::new(),
            xdefs_for_type: Vec::new(),
        };
        assert(r@.items =~= Seq::<ItemM>::empty());
        assert(r@.item_idx =~= Seq::<(Seq<char>, usize)>::empty());
        assert(r@.type_for_xtor =~= Seq::<(Seq<char>, Seq<char>)>::empty());
        assert(r@.type_for_xdef =~= Seq::<(Seq<char>, Seq<char>)>::empty());
        assert(r@.xdefs_for_type =~= Seq::<(Seq<char>, Seq<Seq<char>>)>::empty());
        r
    }
}

impl LookupTable {
    /// Append the type declaration `name`, without constructors or destructors.
    pub fn add_type_decl(&mut self, name: String)
        requires
            table_wf(old(self)@),
        ensures
            table_wf(final(self)@),
            type_added(old(self)@, final(self)@, name@),
    {
        let n = self.items.len();
        let ghost before = self.items@;
        self.items.push(Item::Type(Type { name: name.clone(), xtors: Vec::new() }));
        assert(strings_view(Seq::<String>::empty()) =~= Seq::<Seq<char>>::empty());
        assert(items_view(self.items@) =~= items_view(before).push(ItemM::Type(name@, Seq::empty())));
        let _len = self.items.len();
        let ghost m1 = idx_view(self.item_idx@);
        put_idx(&mut self.item_idx, name, n);
        proof {
            let m2 = idx_view(self.item_idx@);
            lemma_updated_entries(m1, m2, name@, n);
            assert forall|j: int| 0 <= j < m2.len() implies (#[trigger] m2[j]).1 < self@.items.len() && self@.items[m2[j].1 as int] is Type
                && self@.items[m2[j].1 as int]->Type_0 == m2[j].0 by {
                if !(m2[j].0 == name@ && m2[j].1 == n) {
                    let i = choose|i: int| 0 <= i < m1.len() && m1[i] == m2[j];
                    assert(m1[i].1 < before.len());
                    assert(self@.items[m1[i].1 as int] == items_view(before)[m1[i].1 as int]);
                }
            }
        }
    }

    /// Append the type declaration `name` unless one is recorded already.
    pub fn get_or_add_type_decl(&mut self, name: String)
        requires
            table_wf(old(self)@),
        ensures
            table_wf(final(self)@),
            got_or_added(old(self)@, final(self)@, name@),
    {
        if get_idx(&self.item_idx, name.as_str()).is_none() {
            self.add_type_decl(name);
        }
    }

    /// Record that the definition `def_name` of the type `ty` is in the set of definitions of `ty`.
    fn record_xdef(&mut self, ty: String, def_name: String)
        requires
            table_wf(old(self)@),
        ensures
            table_wf(final(self)@),
            final(self)@.items == old(self)@.items,
            final(self)@.item_idx == old(self)@.item_idx,
            def_recorded(old(self)@, final(self)@, ty@, def_name@),
    {
        put_name(&mut self.type_for_xdef, def_name.clone(), ty.clone());
        let mut set: Vec<String> = match get_set(&self.xdefs_for_type, ty.as_str()) {
            Some(s) => crate::decl::copy_strings(s),
            None => Vec::new(),
        };
        assert(strings_view(set@) == xdefs_spec(old(self)@, ty@)) by {
            assert(strings_view(Seq::<String>::empty()) =~= Seq::<Seq<char>>::empty());
        }
        if !contains_string(&set, def_name.as_str()) {
            let ghost before = set@;
            set.push(def_name);
            assert(strings_view(set@) =~= strings_view(before).push(def_name@));
        }
        put_set(&mut self.xdefs_for_type, ty, set);
    }

    /// Append the definition `def_name` of the type `ty`.
    pub fn add_def(&mut self, ty: String, def_name: String)
        requires
            table_wf(old(self)@),
        ensures
            table_wf(final(self)@),
            final(self)@.items == old(self)@.items.push(ItemM::Def(def_name@)),
            def_recorded(old(self)@, final(self)@, ty@, def_name@),
    {
        let ghost before = self.items@;
        self.items.push(Item::Def(Def { name: def_name.clone() }));
        assert(items_view(self.items@) =~= items_view(before).push(ItemM::Def(def_name@)));
        self.record_xdef(ty, def_name);
    }

    /// Insert the definition `def_name` of the type `ty` right after the
    /// declaration of `ty`; the recorded positions of the items after it move
    /// up by one.
    pub fn insert_def(&mut self, ty: String, def_name: String)
        requires
            table_wf(old(self)@),
            old(self)@.items.len() < usize::MAX,
            assoc(old(self)@.item_idx, ty@) is Some,
        ensures
            table_wf(final(self)@),
            final(self)@.items == old(self)@.items.insert(type_pos(old(self)@, ty@) + 1, ItemM::Def(def_name@)),
            def_inserted(old(self)@, final(self)@, ty@, def_name@, type_pos(old(self)@, ty@)),
    {
        let ghost t1 = self@;
        let i = get_idx(&self.item_idx, ty.as_str()).unwrap();
        proof {
            let j = choose|j: int| 0 <= j < t1.item_idx.len() && t1.item_idx[j].0 == ty@;
            lemma_assoc_at(t1.item_idx, j);
            assert(t1.item_idx[j].1 < t1.items.len());
        }
        let ghost before = self.items@;
        let len0 = self.items.len();
        self.items.insert(i + 1, Item::Def(Def { name: def_name.clone() }));
        assert(items_view(self.items@) =~= items_view(before).insert(i + 1, ItemM::Def(def_name@)));
        assert forall|j: int| 0 <= j < self.item_idx@.len() implies (#[trigger] self.item_idx@[j]).1 < len0 by {
            assert(idx_view(self.item_idx@)[j].1 == self.item_idx@[j].1);
        }
        shift_positions(&mut self.item_idx, i, len0);
        proof {
            assert forall|j: int| 0 <= j < self@.item_idx.len() implies (#[trigger] self@.item_idx[j]).1
                < self@.items.len() by {
                assert(t1.item_idx[j].1 < t1.items.len());
            }
            assert forall|a: int, b: int|
                0 <= a < self@.item_idx.len() && 0 <= b < self@.item_idx.len() && a != b implies self@.item_idx[a].0
                != self@.item_idx[b].0 by {
                assert(self@.item_idx[a].0 == t1.item_idx[a].0);
                assert(self@.item_idx[b].0 == t1.item_idx[b].0);
            }
        }
        self.record_xdef(ty, def_name);
    }

    /// The items in the order in which they are defined.
    pub fn items(&self) -> (r: &Vec<Item>)
        ensures
            items_view(r@) == self@.items,
    {
        &self.items
    }

    /// The type declaration `name`, if one is recorded.
    pub fn type_decl(&self, name: &str) -> (r: Option<&Type>)
        requires
            table_wf(self@),
        ensures
            r matches Some(t) ==> type_decl_spec(self@, name@) == Some((t.name@, strings_view(t.xtors@))),
            r is None ==> type_decl_spec(self@, name@) is None,
    {
        match get_idx(&self.item_idx, name) {
            Some(i) => if i < self.items.len() {
                match &self.items[i] {
                    Item::Type(t) => Some(t),
                    Item::Def(_) => None,
                }
            } else {
                None
            },
            None => None,
        }
    }

    /// The type declaration that the constructor or destructor `name` belongs to.
    pub fn type_decl_for_xtor(&self, name: &str) -> (r: Option<&Type>)
        requires
            table_wf(self@),
        ensures
            r matches Some(t) ==> assoc(self@.type_for_xtor, name@) matches Some(ty) && type_decl_spec(self@, ty) == Some((t.name@, strings_view(t.xtors@))),
            r is None ==> (assoc(self@.type_for_xtor, name@) matches Some(ty) ==> type_decl_spec(self@, ty) is None),
    {
        match get_name(&self.type_for_xtor, name) {
            Some(ty) => self.type_decl(ty.as_str()),
            None => None,
        }
    }

    /// The type declaration that the definition `name` belongs to.
    pub fn type_decl_for_xdef(&self, name: &str) -> (r: Option<&Type>)
        requires
            table_wf(self@),
        ensures
            r matches Some(t) ==> assoc(self@.type_for_xdef, name@) matches Some(ty) && type_decl_spec(self@, ty) == Some((t.name@, strings_view(t.xtors@))),
            r is None ==> (assoc(self@.type_for_xdef, name@) matches Some(ty) ==> type_decl_spec(self@, ty) is None),
    {
        match get_name(&self.type_for_xdef, name) {
            Some(ty) => self.type_decl(ty.as_str()),
            None => None,
        }
    }

    /// The constructors or destructors of the type `name`; none if no such type is recorded.
    pub fn xtors_for_type(&self, name: &str) -> (r: Vec<String>)
        requires
            table_wf(self@),
        ensures
            strings_view(r@) == match type_decl_spec(self@, name@) {
                Some((_, xs)) => xs,
                None => Seq::empty(),
            },
    {
        match self.type_decl(name) {
            Some(t) => crate::decl::copy_strings(&t.xtors),
            None => {
                let r: Vec<String> = Vec::new();
                assert(strings_view(r@) =~= Seq::<Seq<char>>::empty());
                r
            },
        }
    }

    /// The definitions of the type `name`.
    pub fn xdefs_for_type(&self, name: &str) -> (r: Vec<String>)
        requires
            table_wf(self@),
        ensures
            strings_view(r@) == xdefs_spec(self@, name@),
    {
        match get_set(&self.xdefs_for_type, name) {
            Some(s) => crate::decl::copy_strings(s),
            None => {
                let r: Vec<String> = Vec::new();
                assert(strings_view(r@) =~= Seq::<Seq<char>>::empty());
                r
            },
        }
    }

    /// The constructors or destructors of the type `ty`, which must be recorded.
    pub fn xtors(&self, ty: &str) -> (r: &Vec<String>)
        requires
            table_wf(self@),
            type_decl_spec(self@, ty@) is Some,
        ensures
            strings_view(r@) == decl_xtors_of(self@, ty@),
    {
        let t = self.type_decl(ty).unwrap();
        &t.xtors
    }

    /// Add the constructor or destructor `xtor` to the type `ty`, which must be recorded.
    pub fn add_xtor(&mut self, ty: &str, xtor: String)
        requires
            table_wf(old(self)@),
            type_decl_spec(old(self)@, ty@) is Some,
        ensures
            table_wf(final(self)@),
            xtor_added(old(self)@, final(self)@, ty@, xtor@),
    {
        let i = get_idx(&self.item_idx, ty).unwrap();
        let (name, mut xtors) = match &self.items[i] {
            Item::Type(t) => (t.name.clone(), crate::decl::copy_strings(&t.xtors)),
            Item::Def(_) => {
                assert(false);
                (String::new(), Vec::new())
            },
        };
        let ghost xs = xtors@;
        xtors.push(xtor.clone());
        assert(strings_view(xtors@) =~= strings_view(xs).push(xtor@));
        let ghost before = self.items@;
        self.items.set(i, Item::Type(Type { name, xtors }));
        assert(items_view(self.items@) =~= items_view(before).update(i as int, item_view(self.items@[i as int])));
        put_name(&mut self.type_for_xtor, xtor, ty.to_string());
    }

    /// Remove all constructors or destructors of the type `ty`, which must be recorded.
    pub fn clear_xtors(&mut self, ty: &str)
        requires
            table_wf(old(self)@),
            type_decl_spec(old(self)@, ty@) is Some,
        ensures
            table_wf(final(self)@),
            final(self)@.items == old(self)@.items.update(
                type_pos(old(self)@, ty@),
                ItemM::Type(decl_name_of(old(self)@, ty@), Seq::empty()),
            ),
            final(self)@.item_idx == old(self)@.item_idx,
            forall|k: Seq<char>| #[trigger] assoc(final(self)@.type_for_xtor, k) == if decl_xtors_of(old(self)@, ty@).contains(k) {
                None
            } else {
                assoc(old(self)@.type_for_xtor, k)
            },
            final(self)@.type_for_xdef == old(self)@.type_for_xdef,
            final(self)@.xdefs_for_type == old(self)@.xdefs_for_type,
    {
        let i = get_idx(&self.item_idx, ty).unwrap();
        let (name, xtors) = match &self.items[i] {
            Item::Type(t) => (t.name.clone(), crate::decl::copy_strings(&t.xtors)),
            Item::Def(_) => {
                assert(false);
                (String::new(), Vec::new())
            },
        };
        let ghost xs = strings_view(xtors@);
        let ghost before = self.items@;
        self.items.set(i, Item::Type(Type { name, xtors: Vec::new() }));
        assert(strings_view(Seq::<String>::empty()) =~= Seq::<Seq<char>>::empty());
        assert(items_view(self.items@) =~= items_view(before).update(i as int, item_view(self.items@[i as int])));
        let ghost items_now = self.items@;
        let mut j: usize = 0;
        while j < xtors.len()
            invariant
                j <= xtors@.len(),
                xs == strings_view(xtors@),
                self.items@ == items_now,
                self.item_idx@ == old(self).item_idx@,
                self.type_for_xdef@ == old(self).type_for_xdef@,
                self.xdefs_for_type@ == old(self).xdefs_for_type@,
                unique_keys(names_view(self.type_for_xtor@)),
                forall|k: Seq<char>| #[trigger] assoc(names_view(self.type_for_xtor@), k) == if xs.take(j as int).contains(k) {
                    None
                } else {
                    assoc(old(self)@.type_for_xtor, k)
                },
            decreases xtors@.len() - j,
        {
            remove_name(&mut self.type_for_xtor, xtors[j].as_str());
            assert forall|k: Seq<char>| #[trigger] assoc(names_view(self.type_for_xtor@), k) == if xs.take(j + 1).contains(k) {
                None
            } else {
                assoc(old(self)@.type_for_xtor, k)
            } by {
                lemma_take_push_contains(xs, j as int, k);
            }
            j += 1;
        }
        assert(xs.take(xtors@.len() as int) =~= xs);
    }

    /// Replace the constructors or destructors of the type `ty`, which must be recorded, by `xtors`.
    pub fn set_xtors(&mut self, ty: &str, xtors: Vec<String>)
        requires
            table_wf(old(self)@),
            type_decl_spec(old(self)@, ty@) is Some,
        ensures
            table_wf(final(self)@),
            final(self)@.items == old(self)@.items.update(
                type_pos(old(self)@, ty@),
                ItemM::Type(decl_name_of(old(self)@, ty@), strings_view(xtors@)),
            ),
            final(self)@.item_idx == old(self)@.item_idx,
            forall|k: Seq<char>| #[trigger] assoc(final(self)@.type_for_xtor, k) == if strings_view(xtors@).contains(k) {
                Some(ty@)
            } else if decl_xtors_of(old(self)@, ty@).contains(k) {
                None
            } else {
                assoc(old(self)@.type_for_xtor, k)
            },
            final(self)@.type_for_xdef == old(self)@.type_for_xdef,
            final(self)@.xdefs_for_type == old(self)@.xdefs_for_type,
    {
        self.clear_xtors(ty);
        let ghost mid = self@;
        let ghost xs = strings_view(xtors@);
        let ghost n = decl_name_of(old(self)@, ty@);
        let ghost pos = type_pos(old(self)@, ty@);
        assert(xs.take(0) =~= Seq::<Seq<char>>::empty());
        assert(assoc(old(self)@.item_idx, ty@) is Some);
        let mut j: usize = 0;
        while j < xtors.len()
            invariant
                j <= xtors@.len(),
                xs == strings_view(xtors@),
                table_wf(self@),
                self@.item_idx == old(self)@.item_idx,
                self@.type_for_xdef == old(self)@.type_for_xdef,
                self@.xdefs_for_type == old(self)@.xdefs_for_type,
                pos == type_pos(self@, ty@),
                assoc(self@.item_idx, ty@) == Some(pos as usize),
                0 <= pos < self@.items.len(),
                self@.items.len() == old(self)@.items.len(),
                self@.items == old(self)@.items.update(pos, ItemM::Type(n, xs.take(j as int))),
                forall|k: Seq<char>| #[trigger] assoc(self@.type_for_xtor, k) == if xs.take(j as int).contains(k) {
                    Some(ty@)
                } else {
                    assoc(mid.type_for_xtor, k)
                },
            decreases xtors@.len() - j,
        {
            assert(assoc(self@.item_idx, ty@) == Some(pos as usize));
            assert(self@.items[pos] == ItemM::Type(n, xs.take(j as int)));
            assert(type_decl_spec(self@, ty@) == Some((n, xs.take(j as int))));
            let ghost before = self@;
            self.add_xtor(ty, xtors[j].clone());
            assert(xs.take(j + 1) =~= xs.take(j as int).push(xs[j as int]));
            assert forall|k: Seq<char>| #[trigger] assoc(self@.type_for_xtor, k) == if xs.take(j + 1).contains(k) {
                Some(ty@)
            } else {
                assoc(mid.type_for_xtor, k)
            } by {
                lemma_take_push_contains(xs, j as int, k);
                assert(assoc(self@.type_for_xtor, k) == if k == xs[j as int] { Some(ty@) } else { assoc(before.type_for_xtor, k) });
            }
            assert(self@.items =~= old(self)@.items.update(pos, ItemM::Type(n, xs.take(j + 1))));
            j += 1;
        }
        assert(xs.take(xtors@.len() as int) =~= xs);
    }
}

impl LookupTable {
    /// A copy of the table.
    pub fn copy(&self) -> (r: LookupTable)
        ensures
            r@ == self@,
    {
        let mut items: Vec<Item> = Vec::new();
        let mut i: usize = 0;
        while i < self.items.len()
            invariant
                i <= self.items@.len(),
                items@.len() == i,
                forall|j: int| 0 <= j < i ==> item_view(#[trigger] items@[j]) == item_view(self.items@[j]),
            decreases self.items@.len() - i,
        {
            let it = match &self.items[i] {
                Item::Type(t) => Item::Type(Type { name: t.name.clone(), xtors: crate::decl::copy_strings(&t.xtors) }),
                Item::Def(d) => Item::Def(Def { name: d.name.clone() }),
            };
            items.push(it);
            i += 1;
        }
        let mut item_idx: Vec<(String, usize)> = Vec::new();
        let mut i: usize = 0;
        while i < self.item_idx.len()
            invariant
                i <= self.item_idx@.len(),
                item_idx@.len() == i,
                forall|j: int| 0 <= j < i ==> (#[trigger] item_idx@[j]).0@ == self.item_idx@[j].0@ && item_idx@[j].1 == self.item_idx@[j].1,
            decreases self.item_idx@.len() - i,
        {
            item_idx.push((self.item_idx[i].0.clone(), self.item_idx[i].1));
            i += 1;
        }
        let type_for_xtor = copy_names(&self.type_for_xtor);
        let type_for_xdef = copy_names(&self.type_for_xdef);
        let mut xdefs_for_type: Vec<(String, Vec<String>)> = Vec::new();
        let mut i: usize = 0;
        while i < self.xdefs_for_type.len()
            invariant
                i <= self.xdefs_for_type@.len(),
                xdefs_for_type@.len() == i,
                forall|j: int| 0 <= j < i ==> (#[trigger] xdefs_for_type@[j]).0@ == self.xdefs_for_type@[j].0@
                    && strings_view(xdefs_for_type@[j].1@) == strings_view(self.xdefs_for_type@[j].1@),
            decreases self.xdefs_for_type@.len() - i,
        {
            xdefs_for_type.push((self.xdefs_for_type[i].0.clone(), crate::decl::copy_strings(&self.xdefs_for_type[i].1)));
            i += 1;
        }
        let r = LookupTable { items, item_idx, type_for_xtor, type_for_xdef, xdefs_for_type };
        assert(r@.items =~= self@.items);
        assert(r@.item_idx =~= self@.item_idx);
        assert(r@.xdefs_for_type =~= self@.xdefs_for_type);
        r
    }
}

/// A copy of a list of pairs of names.
fn copy_names(m: &Vec<(String, String)>) -> (r: Vec<(String, String)>)
    ensures
        names_view(r@) == names_view(m@),
{
    let mut out: Vec<(String, String)> = Vec::new();
    let mut i: usize = 0;
    while i < m.len()
        invariant
            i <= m@.len(),
            out@.len() == i,
            forall|j: int| 0 <= j < i ==> (#[trigger] out@[j]).0@ == m@[j].0@ && out@[j].1@ == m@[j].1@,
        decreases m@.len() - i,
    {
        out.push((m[i].0.clone(), m[i].1.clone()));
        i += 1;
    }
    assert(names_view(out@) =~= names_view(m@));
    out
}

// ---------------------------------------------------------------------------
// Laws
// ---------------------------------------------------------------------------

/// A type declaration that was added is found, without constructors or destructors.
pub proof fn lemma_added_type_is_found(t1: TableM, t2: TableM, name: Seq<char>)
    requires
        type_added(t1, t2, name),
    ensures
        type_decl_spec(t2, name) == Some((name, Seq::<Seq<char>>::empty())),
{
    assert(assoc(t2.item_idx, name) == Some(t1.items.len() as usize));
}

/// A constructor or destructor that was added to a type leads back to that
/// type, which now lists it last.
pub proof fn lemma_added_xtor_is_found(t1: TableM, t2: TableM, ty: Seq<char>, x: Seq<char>)
    requires
        table_wf(t1),
        type_decl_spec(t1, ty) is Some,
        xtor_added(t1, t2, ty, x),
    ensures
        assoc(t2.type_for_xtor, x) == Some(ty),
        type_decl_spec(t2, ty) matches Some((n, xs)) && n == decl_name_of(t1, ty) && xs == decl_xtors_of(t1, ty).push(x),
{
    assert(assoc(t2.type_for_xtor, x) == Some(ty));
}

/// A definition that was added is recorded with its type, and among the definitions of that type.
pub proof fn lemma_added_def_is_found(t1: TableM, t2: TableM, ty: Seq<char>, d: Seq<char>)
    requires
        def_recorded(t1, t2, ty, d),
    ensures
        assoc(t2.type_for_xdef, d) == Some(ty),
        xdefs_spec(t2, ty).contains(d),
        forall|x: Seq<char>| xdefs_spec(t1, ty).contains(x) ==> xdefs_spec(t2, ty).contains(x),
{
    assert(assoc(t2.type_for_xdef, d) == Some(ty));
    assert(assoc(t2.xdefs_for_type, ty) == Some(set_insert(xdefs_spec(t1, ty), d)));
    let s = xdefs_spec(t1, ty);
    if !s.contains(d) {
        assert(s.push(d)[s.len() as int] == d);
        assert forall|x: Seq<char>| s.contains(x) implies s.push(d).contains(x) by {
            let j = choose|j: int| 0 <= j < s.len() && s[j] == x;
            assert(s.push(d)[j] == x);
        }
    }
}

/// Inserting a definition after a type declaration keeps every recorded
/// type declaration where it is found: the positions record the position of
/// each type declaration in the items also after the insertion. The new
/// definition is recorded with its type.
pub proof fn lemma_inserted_def_keeps_types(t1: TableM, t2: TableM, ty: Seq<char>, d: Seq<char>)
    requires
        table_wf(t1),
        t1.items.len() < usize::MAX,
        assoc(t1.item_idx, ty) is Some,
        t2.items == t1.items.insert(type_pos(t1, ty) + 1, ItemM::Def(d)),
        def_inserted(t1, t2, ty, d, type_pos(t1, ty)),
    ensures
        forall|k: Seq<char>| #[trigger] type_decl_spec(t2, k) == type_decl_spec(t1, k),
        assoc(t2.type_for_xdef, d) == Some(ty),
{
    let p = type_pos(t1, ty);
    let m1 = t1.item_idx;
    let m2 = t2.item_idx;
    let jt = choose|j: int| 0 <= j < m1.len() && m1[j].0 == ty;
    lemma_assoc_at(m1, jt);
    assert(p < t1.items.len());
    assert(unique_keys(m2)) by {
        assert forall|a: int, b: int| 0 <= a < m2.len() && 0 <= b < m2.len() && a != b implies m2[a].0 != m2[b].0 by {
            assert(m2[a].0 == m1[a].0 && m2[b].0 == m1[b].0);
        }
    }
    assert forall|k: Seq<char>| #[trigger] type_decl_spec(t2, k) == type_decl_spec(t1, k) by {
        if exists|j: int| 0 <= j < m1.len() && m1[j].0 == k {
            let j = choose|j: int| 0 <= j < m1.len() && m1[j].0 == k;
            lemma_assoc_at(m1, j);
            assert(m2[j].0 == k);
            lemma_assoc_at(m2, j);
            let v = m1[j].1;
            assert(v < t1.items.len());
            assert(assoc(m1, k) == Some(v));
            assert(t2.items.len() == t1.items.len() + 1);
            if v > p {
                assert(m2[j].1 == (v + 1) as usize);
                assert(assoc(m2, k) == Some((v + 1) as usize));
                assert(t2.items[v + 1] == t1.items[v as int]);
            } else {
                assert(m2[j].1 == v);
                assert(assoc(m2, k) == Some(v));
                assert(t2.items[v as int] == t1.items[v as int]);
            }
        } else {
            assert(!exists|j: int| 0 <= j < m2.len() && m2[j].0 == k) by {
                if exists|j: int| 0 <= j < m2.len() && m2[j].0 == k {
                    let j = choose|j: int| 0 <= j < m2.len() && m2[j].0 == k;
                    assert(m1[j].0 == k);
                }
            }
        }
    }
}

/// What `get_or_add_type_decl` makes of a table.
pub open spec fn got_or_added(t1: TableM, t2: TableM, name: Seq<char>) -> bool {
    &&& assoc(t1.item_idx, name) is Some ==> t2 == t1
    &&& assoc(t1.item_idx, name) is None ==> type_added(t1, t2, name)
}

/// Getting or adding the same type declaration twice is the same as doing it
/// once.
pub proof fn lemma_get_or_add_idempotent(t1: TableM, t2: TableM, t3: TableM, name: Seq<char>)
    requires
        table_wf(t1),
        got_or_added(t1, t2, name),
        got_or_added(t2, t3, name),
    ensures
        t3 == t2,
        t3.items.len() == t1.items.len() + (if type_decl_spec(t1, name) is Some { 0int } else { 1int }),
        type_decl_spec(t3, name) matches Some((n, xs)) && n == name,
        type_decl_spec(t1, name) matches Some((_, xs)) ==> type_decl_spec(t3, name) matches Some((_, ys)) && ys == xs,
{
    if assoc(t1.item_idx, name) is None {
        assert(assoc(t2.item_idx, name) == Some(t1.items.len() as usize));
        assert(type_decl_spec(t1, name) is None);
    } else {
        let j = choose|j: int| 0 <= j < t1.item_idx.len() && t1.item_idx[j].0 == name;
        lemma_assoc_at(t1.item_idx, j);
        assert(t1.item_idx[j].1 < t1.items.len());
    }
}

} // verus!
