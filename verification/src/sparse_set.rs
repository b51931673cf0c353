use vstd::prelude::*;

verus! {

/// A generic sparse set providing O(1) insert, remove, look-up and
/// membership testing while keeping values packed in a dense array.
///
/// * `sparse` maps a sparse index to its position in the dense array.
/// * `dense` holds the values, tightly packed.
/// * `indices` maps a dense position back to its sparse index.
pub struct SparseSet<T> {
    sparse: Vec<Option<usize>>,
    dense: Vec<T>,
    indices: Vec<usize>,
}

impl<T> SparseSet<T> {
    /// The three arrays agree: every dense slot is pointed to by exactly the
    /// sparse slot it names, and every occupied sparse slot names a dense
    /// slot that points back.
    pub closed spec fn wf(&self) -> bool {
        &&& self.dense@.len() == self.indices@.len()
        &&& self.dense@.len() <= usize::MAX
        &&& forall|k: int|
            0 <= k < self.indices@.len() ==> {
                &&& (#[trigger] self.indices@[k]) < self.sparse@.len()
                &&& self.sparse@[self.indices@[k] as int] == Some(k as usize)
            }
        &&& forall|i: int|
            0 <= i < self.sparse@.len() && (#[trigger] self.sparse@[i]) is Some ==> {
                &&& self.sparse@[i]->0 < self.dense@.len()
                &&& self.indices@[self.sparse@[i]->0 as int] == i
            }
    }

    /// The stored `(sparse index, value)` pairs in dense order.
    pub closed spec fn entries(&self) -> Seq<(usize, T)> {
        Seq::new(self.dense@.len(), |k: int| (self.indices@[k], self.dense@[k]))
    }

    /// The set as a map from sparse index to value.
    pub closed spec fn contents(&self) -> Map<usize, T> {
        Map::new(
            |i: usize| i < self.sparse@.len() && self.sparse@[i as int] is Some,
            |i: usize| self.dense@[self.sparse@[i as int]->0 as int],
        )
    }

    /// Dense position of the value stored at sparse `index`.
    pub closed spec fn position(&self, index: usize) -> int {
        self.sparse@[index as int]->0 as int
    }

    /// Number of stored values.
    pub closed spec fn size(&self) -> nat {
        self.dense@.len()
    }

    /// Entries and contents describe the same pairs, and no sparse index
    /// occurs twice among the entries.
    pub proof fn lemma_entries_match(&self)
        requires
            self.wf(),
        ensures
            self.entries().len() == self.size(),
            forall|k: int|
                0 <= k < self.entries().len() ==> {
                    &&& self.contents().contains_key(#[trigger] self.entries()[k].0)
                    &&& self.contents()[self.entries()[k].0] == self.entries()[k].1
                },
            forall|i: usize|
                #[trigger] self.contents().contains_key(i) ==> exists|k: int|
                    0 <= k < self.entries().len() && (#[trigger] self.entries()[k]).0 == i,
            forall|k1: int, k2: int|
                0 <= k1 < self.entries().len() && 0 <= k2 < self.entries().len() && k1 != k2
                    ==> (#[trigger] self.entries()[k1]).0 != (#[trigger] self.entries()[k2]).0,
    {
        assert forall|k: int| 0 <= k < self.entries().len() implies {
            &&& self.contents().contains_key(#[trigger] self.entries()[k].0)
            &&& self.contents()[self.entries()[k].0] == self.entries()[k].1
        } by {
            assert(self.entries()[k] == (self.indices@[k], self.dense@[k]));
            assert(self.indices@[k] < self.sparse@.len());
            let i = self.indices@[k];
            assert(self.sparse@[i as int] == Some(k as usize));
            assert(self.contents().dom().contains(i));
            assert(self.contents()[i] == self.dense@[k]);
        }
        assert forall|i: usize| #[trigger] self.contents().contains_key(i) implies exists|k: int|
            0 <= k < self.entries().len() && (#[trigger] self.entries()[k]).0 == i by {
            let k = self.sparse@[i as int]->0 as int;
            assert(self.entries()[k].0 == i);
        }
        assert forall|k1: int, k2: int|
            0 <= k1 < self.entries().len() && 0 <= k2 < self.entries().len() && k1 != k2
                implies (#[trigger] self.entries()[k1]).0 != (#[trigger] self.entries()[k2]).0 by {
            assert(self.entries()[k1] == (self.indices@[k1], self.dense@[k1]));
            assert(self.entries()[k2] == (self.indices@[k2], self.dense@[k2]));
            assert(self.indices@[k1] < self.sparse@.len());
            assert(self.indices@[k2] < self.sparse@.len());
        }
    }

    /// The number of stored values is the number of keys.
    pub proof fn law_len_counts_keys(&self)
        requires
            self.wf(),
        ensures
            self.contents().dom().finite(),
            self.size() == self.contents().dom().len(),
    {
        self.lemma_entries_match();
        let keys = self.indices@;
        assert(keys.no_duplicates()) by {
            assert forall|i: int, j: int| 0 <= i < keys.len() && 0 <= j < keys.len() && i != j implies keys[i] != keys[j] by {
                assert(self.entries()[i].0 == keys[i]);
                assert(self.entries()[j].0 == keys[j]);
            }
        }
        assert forall|i: usize| #[trigger] self.contents().dom().contains(i) == keys.to_set().contains(i) by {
            if self.contents().dom().contains(i) {
                let k = choose|k: int| 0 <= k < self.entries().len() && (#[trigger] self.entries()[k]).0 == i;
                assert(keys[k] == i);
            }
            if keys.to_set().contains(i) {
                let k = choose|k: int| 0 <= k < keys.len() && keys[k] == i;
                assert(self.contents().contains_key(self.entries()[k].0));
            }
        }
        assert(self.contents().dom() =~= keys.to_set());
        keys.unique_seq_to_set();
    }

    /// Creates a new, empty sparse set.
    pub fn new() -> (r: Self)
        ensures
            r.wf(),
            r.contents() == Map::<usize, T>::empty(),
            r.entries() == Seq::<(usize, T)>::empty(),
    {
        let r = SparseSet { sparse: Vec::new(), dense: Vec::new(), indices: Vec::new() };
        assert(r.contents() =~= Map::<usize, T>::empty());
        assert(r.entries() =~= Seq::<(usize, T)>::empty());
        r
    }

    /// Inserts `value` at the sparse `index`. An existing value is
    /// overwritten in place and returned; otherwise the value is appended
    /// to the dense storage and `None` is returned.
    pub fn insert(&mut self, index: usize, value: T) -> (r: Option<T>)
        requires
            old(self).wf(),
            index < usize::MAX,
        ensures
            final(self).wf(),
            final(self).contents() == old(self).contents().insert(index, value),
            r == (if old(self).contents().contains_key(index) {
                Some(old(self).contents()[index])
            } else {
                None
            }),
            old(self).contents().contains_key(index) ==> final(self).entries()
                == old(self).entries().update(old(self).position(index), (index, value)),
            !old(self).contents().contains_key(index) ==> final(self).entries()
                == old(self).entries().push((index, value)),
    {
        if index >= self.sparse.len() {
            let ghost before = self.sparse@;
            while self.sparse.len() <= index
                invariant
                    old(self).wf(),
                    before == old(self).sparse@,
                    self.dense@ == old(self).dense@,
                    self.indices@ == old(self).indices@,
                    index < usize::MAX,
                    self.sparse@.len() >= before.len(),
                    self.sparse@.subrange(0, before.len() as int) == before,
                    forall|i: int| before.len() <= i < self.sparse@.len() ==> self.sparse@[i] is None,
                decreases index + 1 - self.sparse@.len(),
            {
                self.sparse.push(None);
            }
            assert forall|k: int| 0 <= k < self.indices@.len() implies {
                &&& (#[trigger] self.indices@[k]) < self.sparse@.len()
                &&& self.sparse@[self.indices@[k] as int] == Some(k as usize)
            } by {
                assert(self.sparse@[self.indices@[k] as int] == before[self.indices@[k] as int]);
            }
            assert forall|i: int|
                0 <= i < self.sparse@.len() && (#[trigger] self.sparse@[i]) is Some implies {
                &&& self.sparse@[i]->0 < self.dense@.len()
                &&& self.indices@[self.sparse@[i]->0 as int] == i
            } by {
                assert(i < before.len());
                assert(self.sparse@[i] == before[i]);
            }
            assert(self.contents() =~= old(self).contents());
        }
        match self.sparse[index] {
            Some(dense_idx) => {
                let ghost prev = self.dense@;
                self.dense.push(value);
                let old_value = self.dense.swap_remove(dense_idx);
                assert(self.dense@ =~= prev.update(dense_idx as int, value));
                assert(self.dense@.len() == self.dense.len());
                assert(self.contents() =~= old(self).contents().insert(index, value));
                assert(self.entries() =~= old(self).entries().update(dense_idx as int, (index, value)));
                Some(old_value)
            },
            None => {
                let dense_idx = self.dense.len();
                self.dense.push(value);
                self.indices.push(index);
                self.sparse.set(index, Some(dense_idx));
                assert(self.dense@.len() == self.dense.len());
                assert(self.contents() =~= old(self).contents().insert(index, value));
                assert(self.entries() =~= old(self).entries().push((index, value)));
                None
            },
        }
    }

    /// Removes the value at the sparse `index` by swap-removing it from
    /// the dense storage, returning it if it was present.
    pub fn remove(&mut self, index: usize) -> (r: Option<T>)
        requires
            old(self).wf(),
        ensures
            final(self).wf(),
            final(self).contents() == old(self).contents().remove(index),
            r == (if old(self).contents().contains_key(index) {
                Some(old(self).contents()[index])
            } else {
                None
            }),
            old(self).contents().contains_key(index) ==> final(self).size() + 1 == old(self).size(),
            !old(self).contents().contains_key(index) ==> final(self).entries() == old(self).entries(),
    {
        if index >= self.sparse.len() {
            return None;
        }
        let dense_idx = match self.sparse[index] {
            Some(d) => d,
            None => {
                return None;
            },
        };
        self.sparse.set(index, None);
        let last_dense = self.dense.len() - 1;
        let ghost old_dense = self.dense@;
        let ghost old_indices = self.indices@;
        let value = self.dense.swap_remove(dense_idx);
        self.indices.swap_remove(dense_idx);
        if dense_idx != last_dense {
            let moved_sparse_idx = self.indices[dense_idx];
            assert(moved_sparse_idx == old_indices[last_dense as int]);
            self.sparse.set(moved_sparse_idx, Some(dense_idx));
        }
        assert forall|k: int| 0 <= k < self.indices@.len() implies {
            &&& (#[trigger] self.indices@[k]) < self.sparse@.len()
            &&& self.sparse@[self.indices@[k] as int] == Some(k as usize)
        } by {
            if k == dense_idx {
                assert(self.indices@[k] == old_indices[last_dense as int]);
            } else {
                assert(self.indices@[k] == old_indices[k]);
                assert(old_indices[k] != index);
            }
        }
        assert forall|i: int|
            0 <= i < self.sparse@.len() && (#[trigger] self.sparse@[i]) is Some implies {
            &&& self.sparse@[i]->0 < self.dense@.len()
            &&& self.indices@[self.sparse@[i]->0 as int] == i
        } by {
            if i != index && (dense_idx == last_dense || i != old_indices[last_dense as int]) {
                assert(self.sparse@[i] == old(self).sparse@[i]);
                let d = old(self).sparse@[i]->0;
                assert(old_indices[d as int] == i);
                assert(d != dense_idx);
                assert(d != last_dense);
            }
        }
        assert(self.contents() =~= old(self).contents().remove(index)) by {
            assert forall|i: usize| #[trigger] self.contents().contains_key(i) implies
                old(self).contents().contains_key(i) && i != index
                && self.contents()[i] == old(self).contents()[i] by {
                if dense_idx != last_dense && i == old_indices[last_dense as int] {
                    assert(self.dense@[dense_idx as int] == old_dense[last_dense as int]);
                } else {
                    assert(self.sparse@[i as int] == old(self).sparse@[i as int]);
                }
            }
            assert forall|i: usize|
                old(self).contents().contains_key(i) && i != index implies #[trigger] self.contents().contains_key(i) by {
                if dense_idx != last_dense && i == old_indices[last_dense as int] {
                } else {
                    assert(self.sparse@[i as int] == old(self).sparse@[i as int]);
                }
            }
        }
        Some(value)
    }

    /// Returns a reference to the value at `index`, or `None`.
    pub fn get(&self, index: usize) -> (r: Option<&T>)
        requires
            self.wf(),
        ensures
            r == (if self.contents().contains_key(index) {
                Some(&self.contents()[index])
            } else {
                None
            }),
    {
        if index >= self.sparse.len() {
            return None;
        }
        match self.sparse[index] {
            Some(dense_idx) => Some(&self.dense[dense_idx]),
            None => None,
        }
    }

    /// Returns a mutable reference to the value at `index`, or `None`.
    pub fn get_mut(&mut self, index: usize) -> (r: Option<&mut T>)
        requires
            old(self).wf(),
        ensures
            r is Some == old(self).contents().contains_key(index),
            r is None ==> *final(self) == *old(self),
            match r {
                Some(v) => {
                    &&& *v == old(self).contents()[index]
                    &&& final(self).wf()
                    &&& final(self).contents() == old(self).contents().insert(index, *final(v))
                    &&& final(self).size() == old(self).size()
                },
                None => true,
            },
    {
        if index >= self.sparse.len() {
            return None;
        }
        match self.sparse[index] {
            Some(dense_idx) => Some(&mut self.dense[dense_idx]),
            None => None,
        }
    }

    /// Returns `true` if the set holds a value at `index`.
    pub fn contains(&self, index: usize) -> (r: bool)
        requires
            self.wf(),
        ensures
            r == self.contents().contains_key(index),
    {
        index < self.sparse.len() && self.sparse[index].is_some()
    }

    /// Returns the number of values currently stored.
    pub fn len(&self) -> (r: usize)
        ensures
            r == self.size(),
    {
        self.dense.len()
    }

    /// Returns `true` if the set holds no values.
    pub fn is_empty(&self) -> (r: bool)
        ensures
            r == (self.size() == 0),
    {
        self.dense.len() == 0
    }

    /// Returns an iterator over the `(sparse_index, &value)` pairs in dense
    /// order (which is not insertion order after removals).
    pub fn iter(&self) -> (r: std::vec::IntoIter<(usize, &T)>)
        requires
            self.wf(),
        ensures
            ({
                let items = vstd::std_specs::iter::IteratorSpec::remaining(&r);
                &&& items.len() == self.entries().len()
                &&& forall|k: int|
                    0 <= k < items.len() ==> (#[trigger] items[k]).0 == self.entries()[k].0 && *items[k].1
                        == self.entries()[k].1
            }),
    {
        let v = self.entry_refs();
        proof {
            broadcast use vstd::std_specs::vec::axiom_spec_into_iter;
        }
        v.into_iter()
    }

    /// The `(sparse_index, &value)` pairs, in dense order.
    fn entry_refs(&self) -> (r: Vec<(usize, &T)>)
        requires
            self.wf(),
        ensures
            r@.len() == self.entries().len(),
            forall|k: int|
                0 <= k < r@.len() ==> (#[trigger] r@[k]).0 == self.entries()[k].0 && *r@[k].1
                    == self.entries()[k].1,
    {
        let mut r: Vec<(usize, &T)> = Vec::new();
        let n = self.dense.len();
        let mut k: usize = 0;
        while k < n
            invariant
                self.wf(),
                n == self.dense@.len(),
                k <= n,
                r@.len() == k,
                forall|j: int|
                    0 <= j < k ==> (#[trigger] r@[j]).0 == self.entries()[j].0 && *r@[j].1
                        == self.entries()[j].1,
            decreases n - k,
        {
            r.push((self.indices[k], &self.dense[k]));
            k = k + 1;
        }
        r
    }
}

impl<T> Default for SparseSet<T> {
    fn default() -> (r: Self)
        ensures
            r.wf(),
            r.contents() == Map::<usize, T>::empty(),
            r.entries() == Seq::<(usize, T)>::empty(),
    {
        Self::new()
    }
}

} // verus!
