use vstd::prelude::*;

use crate::entity::Entity;

verus! {

/// The children after adding `child`: appended unless already listed.
pub open spec fn with_child(children: Seq<Entity>, child: Entity) -> Seq<Entity> {
    if children.contains(child) {
        children
    } else {
        children.push(child)
    }
}

/// Holds of every entity but `child`.
pub open spec fn other_than(child: Entity) -> spec_fn(Entity) -> bool {
    |e: Entity| e != child
}

/// The children after removing `child`: every other child, in order.
pub open spec fn without_child(children: Seq<Entity>, child: Entity) -> Seq<Entity> {
    children.filter(other_than(child))
}

/// Adding a child lists it; adding it again changes nothing.
pub proof fn law_add_is_idempotent(children: Seq<Entity>, child: Entity)
    ensures
        with_child(children, child).contains(child),
        with_child(with_child(children, child), child) == with_child(children, child),
{
    if !children.contains(child) {
        assert(children.push(child)[children.len() as int] == child);
    }
}

/// Removing a child drops exactly that child: every other child stays.
pub proof fn law_remove_drops_only_that_child(children: Seq<Entity>, child: Entity, other: Entity)
    ensures
        without_child(children, child).contains(other) == (children.contains(other) && other != child),
{
    let keep = other_than(child);
    if children.contains(other) && other != child {
        let i = choose|i: int| 0 <= i < children.len() && children[i] == other;
        children.lemma_filter_contains(keep, i);
    }
    if without_child(children, child).contains(other) {
        children.lemma_filter_contains_rev(keep, other);
        let i = choose|i: int| 0 <= i < without_child(children, child).len() && without_child(children, child)[i] == other;
        children.lemma_filter_pred(keep, i);
    }
}

/// Marks an entity as having a parent.
#[derive(Debug, Clone, Copy)]
pub struct Parent(pub Entity);

/// Marks an entity as having children: the child entities, in the order
/// they were added, each once.
#[derive(Debug, Clone)]
pub struct Children(pub Vec<Entity>);

impl Children {
    /// No child is listed twice.
    pub open spec fn wf(&self) -> bool {
        forall|i: int, j: int| 0 <= i < self.0@.len() && 0 <= j < self.0@.len() && i != j ==> self.0@[i] != self.0@[j]
    }

    /// Creates an empty list of children.
    pub fn new() -> (r: Self)
        ensures
            r.wf(),
            r.0@ == Seq::<Entity>::empty(),
    {
        Children(Vec::new())
    }

    /// Appends `child` unless it is already listed.
    pub fn add(&mut self, child: Entity)
        ensures
            old(self).wf() ==> final(self).wf(),
            final(self).0@ == with_child(old(self).0@, child),
    {
        if !self.contains(child) {
            self.0.push(child);
        }
    }

    /// Removes every occurrence of `child`, keeping the others in order.
    pub fn remove(&mut self, child: Entity)
        ensures
            old(self).wf() ==> final(self).wf(),
            final(self).0@ == without_child(old(self).0@, child),
    {
        let ghost keep = other_than(child);
        let mut kept: Vec<Entity> = Vec::new();
        let mut k: usize = 0;
        while k < self.0.len()
            invariant
                *self == *old(self),
                keep == other_than(child),
                k <= self.0@.len(),
                kept@ == self.0@.subrange(0, k as int).filter(keep),
            decreases self.0@.len() - k,
        {
            let e = self.0[k];
            proof {
                let s = self.0@;
                assert(s.subrange(0, k + 1) =~= s.subrange(0, k as int).push(e));
                s.subrange(0, k as int).lemma_filter_push(e, keep);
            }
            if e != child {
                kept.push(e);
            }
            proof {
                assert(kept@ == self.0@.subrange(0, k + 1).filter(keep));
            }
            k = k + 1;
        }
        proof {
            assert(self.0@.subrange(0, self.0@.len() as int) =~= self.0@);
            if old(self).wf() {
                let f = self.0@.filter(keep);
                assert forall|i: int, j: int| 0 <= i < f.len() && 0 <= j < f.len() && i != j implies f[i] != f[j] by {
                    lemma_filter_distinct(self.0@, keep, i, j);
                }
            }
        }
        self.0 = kept;
    }

    /// `child` is listed.
    pub fn contains(&self, child: Entity) -> (r: bool)
        ensures
            r == self.0@.contains(child),
    {
        let mut k: usize = 0;
        while k < self.0.len()
            invariant
                k <= self.0@.len(),
                forall|j: int| 0 <= j < k ==> self.0@[j] != child,
            decreases self.0@.len() - k,
        {
            if self.0[k] == child {
                return true;
            }
            k = k + 1;
        }
        false
    }

    /// Number of children.
    pub fn len(&self) -> (r: usize)
        ensures
            r == self.0@.len(),
    {
        self.0.len()
    }

    /// There is no child.
    pub fn is_empty(&self) -> (r: bool)
        ensures
            r == (self.0@.len() == 0),
    {
        self.0.len() == 0
    }

    /// The children, in order.
    pub fn iter(&self) -> (r: std::slice::Iter<'_, Entity>)
        ensures
            vstd::std_specs::iter::IteratorSpec::remaining(&r) == self.0@.as_ref(),
    {
        broadcast use vstd::std_specs::slice::axiom_spec_slice_iter;
        self.0.iter()
    }
}

/// Filtering a sequence without duplicates leaves a sequence without
/// duplicates.
proof fn lemma_filter_distinct(s: Seq<Entity>, keep: spec_fn(Entity) -> bool, i: int, j: int)
    requires
        forall|a: int, b: int| 0 <= a < s.len() && 0 <= b < s.len() && a != b ==> s[a] != s[b],
        0 <= i < s.filter(keep).len(),
        0 <= j < s.filter(keep).len(),
        i != j,
    ensures
        s.filter(keep)[i] != s.filter(keep)[j],
    decreases s.len(),
{
    let f = s.filter(keep);
    if s.len() > 0 {
        let init = s.drop_last();
        init.lemma_filter_push(s.last(), keep);
        assert(s =~= init.push(s.last()));
        let fi = init.filter(keep);
        if keep(s.last()) {
            assert(f == fi.push(s.last()));
            if i < fi.len() && j < fi.len() {
                lemma_filter_distinct(init, keep, i, j);
            } else {
                let k = if i < fi.len() { i } else { j };
                assert(fi.contains(fi[k]));
                init.lemma_filter_contains_rev(keep, fi[k]);
                assert(!init.contains(s.last())) by {
                    if init.contains(s.last()) {
                        let a = choose|a: int| 0 <= a < init.len() && init[a] == s.last();
                        assert(s[a] == s[s.len() - 1]);
                    }
                }
            }
        } else {
            assert(f == fi);
            lemma_filter_distinct(init, keep, i, j);
        }
    }
}

impl Default for Children {
    fn default() -> (r: Self)
        ensures
            r.wf(),
            r.0@ == Seq::<Entity>::empty(),
    {
        Self::new()
    }
}

} // verus!
