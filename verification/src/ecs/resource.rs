use vstd::prelude::*;

use crate::ecs::archetype::distinct;
use crate::type_id::ComponentTypeId;

verus! {

/// Marker for resource types (global singleton data): any
/// `'static + Send + Sync` type.
pub trait Resource: 'static + Send + Sync {}

impl<T: 'static + Send + Sync> Resource for T {}

/// Type-keyed storage for global resources: at most one value per
/// resource type.
pub struct Resources<V> {
    keys: Vec<ComponentTypeId>,
    values: Vec<V>,
}

impl<V> Resources<V> {
    /// One key per value, and no key twice.
    pub closed spec fn wf(&self) -> bool {
        &&& self.keys@.len() == self.values@.len()
        &&& distinct(self.keys@)
    }

    /// The stored resources by type.
    pub closed spec fn contents(&self) -> Map<ComponentTypeId, V> {
        Map::new(|t: ComponentTypeId| self.keys@.contains(t), |t: ComponentTypeId| self.values@[self.keys@.index_of(t)])
    }

    /// Position of `type_id` among the keys, if present.
    fn position(&self, type_id: &ComponentTypeId) -> (r: Option<usize>)
        requires
            self.wf(),
        ensures
            match r {
                Some(k) => k < self.keys@.len() && self.keys@[k as int] == *type_id && self.keys@.index_of(*type_id) == k,
                None => !self.keys@.contains(*type_id),
            },
    {
        let mut k: usize = 0;
        while k < self.keys.len()
            invariant
                self.wf(),
                k <= self.keys@.len(),
                forall|j: int| 0 <= j < k ==> self.keys@[j] != *type_id,
            decreases self.keys@.len() - k,
        {
            if self.keys[k].same(type_id) {
                proof {
                    assert(self.keys@.contains(*type_id));
                    let i = self.keys@.index_of(*type_id);
                    assert(self.keys@[i] == *type_id);
                    if i != k as int {
                        assert(self.keys@[i] != self.keys@[k as int]);
                    }
                }
                return Some(k);
            }
            k = k + 1;
        }
        None
    }

    /// Creates a new, empty resource storage.
    pub fn new() -> (r: Self)
        ensures
            r.wf(),
            r.contents() == Map::<ComponentTypeId, V>::empty(),
    {
        let r = Resources { keys: Vec::new(), values: Vec::new() };
        assert(r.contents() =~= Map::<ComponentTypeId, V>::empty());
        r
    }

    /// Inserts a resource, replacing any previous value of the same type.
    pub fn insert(&mut self, type_id: ComponentTypeId, resource: V)
        requires
            old(self).wf(),
        ensures
            final(self).wf(),
            final(self).contents() == old(self).contents().insert(type_id, resource),
    {
        match self.position(&type_id) {
            Some(k) => {
                let ghost prev = self.values@;
                self.values.push(resource);
                self.values.swap_remove(k);
                assert(self.values@ =~= prev.update(k as int, resource));
                assert forall|t: ComponentTypeId| #[trigger] self.keys@.contains(t) && t != type_id implies
                    self.keys@.index_of(t) != k as int by {
                    let i = self.keys@.index_of(t);
                    assert(self.keys@[i] == t);
                }
                assert(self.contents() =~= old(self).contents().insert(type_id, resource));
            },
            None => {
                let ghost pk = self.keys@;
                self.keys.push(type_id);
                self.values.push(resource);
                assert(distinct(self.keys@)) by {
                    assert forall|i: int, j: int|
                        0 <= i < self.keys@.len() && 0 <= j < self.keys@.len() && i != j implies self.keys@[i] != self.keys@[j] by {
                        if i == pk.len() as int {
                            assert(pk.contains(self.keys@[j]) ==> self.keys@[j] != type_id);
                            assert(pk[j] == self.keys@[j]);
                        } else if j == pk.len() as int {
                            assert(pk[i] == self.keys@[i]);
                        }
                    }
                }
                assert forall|t: ComponentTypeId| #[trigger] self.keys@.contains(t) implies
                    (t == type_id ==> self.keys@.index_of(t) == pk.len()) && (t != type_id ==> pk.contains(t)
                        && self.keys@.index_of(t) == pk.index_of(t)
                        && self.values@[self.keys@.index_of(t)] == old(self).values@[pk.index_of(t)]) by {
                    let i = self.keys@.index_of(t);
                    assert(self.keys@[i] == t);
                    if t == type_id {
                        assert(self.keys@[pk.len() as int] == type_id);
                    } else {
                        assert(i < pk.len());
                        assert(pk[i] == t);
                        let i2 = pk.index_of(t);
                        assert(pk[i2] == t);
                        assert(self.keys@[i2] == t);
                        if i != i2 {
                            assert(self.keys@[i] != self.keys@[i2]);
                        }
                    }
                }
                assert forall|t: ComponentTypeId| pk.contains(t) implies #[trigger] self.keys@.contains(t) by {
                    let i = pk.index_of(t);
                    assert(self.keys@[i] == pk[i]);
                }
                assert(self.keys@[pk.len() as int] == type_id);
                assert(self.keys@.contains(type_id));
                assert(self.values@[pk.len() as int] == resource);
                assert(self.contents() =~= old(self).contents().insert(type_id, resource));
            },
        }
    }

    /// Returns the resource of the given type, if present.
    pub fn get(&self, type_id: ComponentTypeId) -> (r: Option<&V>)
        requires
            self.wf(),
        ensures
            r == (if self.contents().contains_key(type_id) {
                Some(&self.contents()[type_id])
            } else {
                None
            }),
    {
        match self.position(&type_id) {
            Some(k) => Some(&self.values[k]),
            None => None,
        }
    }

    /// Returns the resource of the given type mutably, if present.
    pub fn get_mut(&mut self, type_id: ComponentTypeId) -> (r: Option<&mut V>)
        requires
            old(self).wf(),
        ensures
            final(self).wf(),
            r is Some == old(self).contents().contains_key(type_id),
            match r {
                Some(v) => {
                    &&& *v == old(self).contents()[type_id]
                    &&& final(self).contents() == old(self).contents().insert(type_id, *final(v))
                },
                None => final(self).contents() == old(self).contents(),
            },
    {
        match self.position(&type_id) {
            Some(k) => {
                proof {
                    assert forall|t: ComponentTypeId| #[trigger] self.keys@.contains(t) && t != type_id implies
                        self.keys@.index_of(t) != k as int by {
                        let i = self.keys@.index_of(t);
                        assert(self.keys@[i] == t);
                    }
                }
                let r = &mut self.values[k];
                Some(r)
            },
            None => None,
        }
    }

    /// Returns `true` if a resource of the given type is present.
    pub fn contains(&self, type_id: ComponentTypeId) -> (r: bool)
        requires
            self.wf(),
        ensures
            r == self.contents().contains_key(type_id),
    {
        self.position(&type_id).is_some()
    }

    /// Removes the resource of the given type, returning it if present.
    pub fn remove(&mut self, type_id: ComponentTypeId) -> (r: Option<V>)
        requires
            old(self).wf(),
        ensures
            final(self).wf(),
            final(self).contents() == old(self).contents().remove(type_id),
            r == (if old(self).contents().contains_key(type_id) {
                Some(old(self).contents()[type_id])
            } else {
                None
            }),
    {
        match self.position(&type_id) {
            Some(k) => {
                let ghost pk = self.keys@;
                let ghost pv = self.values@;
                self.keys.swap_remove(k);
                let v = self.values.swap_remove(k);
                let ghost last: int = pk.len() - 1;
                assert forall|i: int| 0 <= i < self.keys@.len() implies #[trigger] self.keys@[i] == pk[if i == k as int { last } else { i }]
                    && self.values@[i] == pv[if i == k as int { last } else { i }] by {
                }
                assert(distinct(self.keys@)) by {
                    assert forall|i: int, j: int|
                        0 <= i < self.keys@.len() && 0 <= j < self.keys@.len() && i != j implies self.keys@[i] != self.keys@[j] by {
                        let oi = if i == k as int { last } else { i };
                        let oj = if j == k as int { last } else { j };
                        assert(self.keys@[i] == pk[oi] && self.keys@[j] == pk[oj]);
                    }
                }
                assert forall|t: ComponentTypeId| #[trigger] self.keys@.contains(t) implies t != type_id && pk.contains(t)
                    && self.values@[self.keys@.index_of(t)] == pv[pk.index_of(t)] by {
                    let i = self.keys@.index_of(t);
                    assert(self.keys@[i] == t);
                    let oi = if i == k as int { last } else { i };
                    assert(pk[oi] == t);
                    let i2 = pk.index_of(t);
                    assert(pk[i2] == t);
                    assert(i2 == oi);
                }
                assert forall|t: ComponentTypeId| pk.contains(t) && t != type_id implies #[trigger] self.keys@.contains(t) by {
                    let i2 = pk.index_of(t);
                    assert(pk[i2] == t);
                    let ni = if i2 == last { k as int } else { i2 };
                    assert(self.keys@[ni] == t);
                }
                assert(self.contents() =~= old(self).contents().remove(type_id));
                Some(v)
            },
            None => {
                assert(self.contents() =~= old(self).contents().remove(type_id));
                None
            },
        }
    }
}

impl<V> Default for Resources<V> {
    fn default() -> (r: Self)
        ensures
            r.wf(),
            r.contents() == Map::<ComponentTypeId, V>::empty(),
    {
        Self::new()
    }
}

} // verus!
