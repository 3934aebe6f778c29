//! Two-dimensional de Bruijn indices and levels.
//!
//! Variables are bound in telescopes. The first component of an index (`fst`)
//! counts telescopes from the innermost one outwards, the second component
//! (`snd`) counts variables within that telescope from the right. Levels count
//! in the opposite direction, from the outermost telescope and from the left.

use vstd::prelude::*;

verus! {

/// A de Bruijn index: `fst` selects the telescope (0 = innermost),
/// `snd` selects the variable inside it (0 = rightmost).
#[derive(Clone, Copy, Debug, PartialEq, Eq, Structural, Hash)]
pub struct Idx {
    pub fst: usize,
    pub snd: usize,
}

/// A de Bruijn level: `fst` selects the telescope (0 = outermost),
/// `snd` selects the variable inside it (0 = leftmost).
#[derive(Clone, Copy, Debug, PartialEq, Eq, Structural, Hash)]
pub struct Lvl {
    pub fst: usize,
    pub snd: usize,
}

/// A variable: either bound (by a de Bruijn index) or free (by name).
#[derive(Clone, Debug)]
pub enum Var {
    Bound(Idx),
    Free(String),
}

/// The shape of a context of bound variables: the number of variables in
/// each telescope, from the outermost telescope to the innermost one.
#[derive(Clone, Debug)]
pub struct LevelCtx {
    pub bound: Vec<usize>,
}

/// An index is meaningful in a context when it selects an existing variable.
pub open spec fn idx_in_ctx(bound: Seq<usize>, idx: Idx) -> bool {
    &&& bound.len() <= usize::MAX
    &&& idx.fst < bound.len()
    &&& idx.snd < bound[bound.len() - 1 - idx.fst]
}

/// A level is meaningful in a context when it selects an existing variable.
pub open spec fn lvl_in_ctx(bound: Seq<usize>, lvl: Lvl) -> bool {
    &&& bound.len() <= usize::MAX
    &&& lvl.fst < bound.len()
    &&& lvl.snd < bound[lvl.fst as int]
}

/// The level that an index denotes in a context.
pub open spec fn idx_to_lvl_spec(bound: Seq<usize>, idx: Idx) -> Lvl {
    let fst = (bound.len() - 1 - idx.fst) as usize;
    Lvl { fst, snd: (bound[fst as int] - 1 - idx.snd) as usize }
}

/// The index that denotes a level in a context.
pub open spec fn lvl_to_idx_spec(bound: Seq<usize>, lvl: Lvl) -> Idx {
    Idx { fst: (bound.len() - 1 - lvl.fst) as usize, snd: (bound[lvl.fst as int] - 1 - lvl.snd) as usize }
}

/// The context `bound` with the telescopes `fst1` and `fst2` exchanged.
pub open spec fn swap_spec(bound: Seq<usize>, fst1: int, fst2: int) -> Seq<usize> {
    bound.update(fst1, bound[fst2]).update(fst2, bound[fst1])
}

impl View for LevelCtx {
    type V = Seq<usize>;

    open spec fn view(&self) -> Seq<usize> {
        self.bound@
    }
}

impl LevelCtx {
    /// The context without any bound variable.
    pub fn empty() -> (ctx: LevelCtx)
        ensures
            ctx@ == Seq::<usize>::empty(),
    {
        LevelCtx { bound: Vec::new() }
    }

    /// A context made of the given telescope sizes, outermost first.
    pub fn from_sizes(sizes: Vec<usize>) -> (ctx: LevelCtx)
        ensures
            ctx@ == sizes@,
    {
        LevelCtx { bound: sizes }
    }

    /// The number of telescopes in the context.
    pub fn len(&self) -> (n: usize)
        ensures
            n == self@.len(),
    {
        self.bound.len()
    }

    /// Whether the context binds no telescope.
    pub fn is_empty(&self) -> (b: bool)
        ensures
            b == (self@.len() == 0),
    {
        self.bound.len() == 0
    }

    /// Enter a telescope of `n` variables.
    pub fn bind(&mut self, n: usize)
        ensures
            final(self)@ == old(self)@.push(n),
    {
        self.bound.push(n);
    }

    /// Leave the innermost telescope.
    pub fn unbind(&mut self)
        requires
            old(self)@.len() > 0,
        ensures
            final(self)@ == old(self)@.drop_last(),
    {
        self.bound.pop();
    }

    /// The level denoted by `idx`.
    pub fn idx_to_lvl(&self, idx: Idx) -> (lvl: Lvl)
        requires
            idx_in_ctx(self@, idx),
        ensures
            lvl == idx_to_lvl_spec(self@, idx),
            lvl_in_ctx(self@, lvl),
    {
        let fst = self.bound.len() - 1 - idx.fst;
        let snd = self.bound[fst] - 1 - idx.snd;
        Lvl { fst, snd }
    }

    /// The index that denotes `lvl`.
    pub fn lvl_to_idx(&self, lvl: Lvl) -> (idx: Idx)
        requires
            lvl_in_ctx(self@, lvl),
        ensures
            idx == lvl_to_idx_spec(self@, lvl),
            idx_in_ctx(self@, idx),
    {
        let fst = self.bound.len() - 1 - lvl.fst;
        let snd = self.bound[lvl.fst] - 1 - lvl.snd;
        Idx { fst, snd }
    }

    /// The context without its `skip` outermost telescopes.
    pub fn tail(&self, skip: usize) -> (ctx: LevelCtx)
        ensures
            skip <= self@.len() ==> ctx@ == self@.skip(skip as int),
            skip > self@.len() ==> ctx@ == Seq::<usize>::empty(),
    {
        let mut bound: Vec<usize> = Vec::new();
        let mut i = skip;
        while i < self.bound.len()
            invariant
                skip <= i <= self@.len() || (i == skip && skip > self@.len()),
                i <= skip || i <= self@.len(),
                skip <= self@.len() ==> bound@ == self@.subrange(skip as int, i as int),
                skip > self@.len() ==> bound@ == Seq::<usize>::empty(),
            decreases self@.len() - i,
        {
            bound.push(self.bound[i]);
            i = i + 1;
        }
        LevelCtx { bound }
    }

    /// The context `self` followed by the telescopes of `other`.
    pub fn append(&self, other: &LevelCtx) -> (ctx: LevelCtx)
        ensures
            ctx@ == self@ + other@,
    {
        let mut bound = self.bound.clone();
        let mut i: usize = 0;
        while i < other.bound.len()
            invariant
                i <= other@.len(),
                bound@ == self@ + other@.subrange(0, i as int),
            decreases other@.len() - i,
        {
            bound.push(other.bound[i]);
            i = i + 1;
        }
        LevelCtx { bound }
    }

    /// The context with the telescopes at levels `fst1` and `fst2` exchanged.
    pub fn swap(&self, fst1: usize, fst2: usize) -> (ctx: LevelCtx)
        requires
            fst1 < self@.len(),
            fst2 < self@.len(),
        ensures
            ctx@ == swap_spec(self@, fst1 as int, fst2 as int),
    {
        let mut bound = self.bound.clone();
        let a = bound[fst1];
        let b = bound[fst2];
        bound.set(fst1, b);
        bound.set(fst2, a);
        LevelCtx { bound }
    }
}

/// Converting an index to a level and back gives the index again.
pub proof fn lemma_idx_lvl_roundtrip(bound: Seq<usize>, idx: Idx)
    requires
        idx_in_ctx(bound, idx),
    ensures
        lvl_in_ctx(bound, idx_to_lvl_spec(bound, idx)),
        lvl_to_idx_spec(bound, idx_to_lvl_spec(bound, idx)) == idx,
{
}

/// Converting a level to an index and back gives the level again.
pub proof fn lemma_lvl_idx_roundtrip(bound: Seq<usize>, lvl: Lvl)
    requires
        lvl_in_ctx(bound, lvl),
    ensures
        idx_in_ctx(bound, lvl_to_idx_spec(bound, lvl)),
        idx_to_lvl_spec(bound, lvl_to_idx_spec(bound, lvl)) == lvl,
{
}

/// Two distinct indices that are meaningful in a context denote distinct levels.
pub proof fn lemma_idx_to_lvl_injective(bound: Seq<usize>, i: Idx, j: Idx)
    requires
        idx_in_ctx(bound, i),
        idx_in_ctx(bound, j),
        idx_to_lvl_spec(bound, i) == idx_to_lvl_spec(bound, j),
    ensures
        i == j,
{
}

} // verus!
