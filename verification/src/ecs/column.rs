use vstd::prelude::*;

use crate::type_id::ComponentTypeId;

verus! {

/// Marker for component types: any `'static + Send + Sync` type.
pub trait Component: 'static + Send + Sync {}

impl<T: 'static + Send + Sync> Component for T {}

/// Column storage for one component type within an archetype: the
/// values of that component, row by row.
pub struct ComponentColumn<V> {
    values: Vec<V>,
    type_id: ComponentTypeId,
}

impl<V> ComponentColumn<V> {
    /// The stored values, row by row.
    pub closed spec fn values(&self) -> Seq<V> {
        self.values@
    }

    /// The component type this column stores.
    pub closed spec fn column_type(&self) -> ComponentTypeId {
        self.type_id
    }

    /// Creates a new, empty column for the component type `type_id`.
    pub fn new(type_id: ComponentTypeId) -> (r: Self)
        ensures
            r.values() == Seq::<V>::empty(),
            r.column_type() == type_id,
    {
        ComponentColumn { values: Vec::new(), type_id }
    }

    /// Appends a component value to the end of this column.
    pub fn push(&mut self, value: V)
        ensures
            final(self).values() == old(self).values().push(value),
            final(self).column_type() == old(self).column_type(),
    {
        self.values.push(value);
    }

    /// Returns a reference to the component at `index`, or `None` if out
    /// of bounds.
    pub fn get(&self, index: usize) -> (r: Option<&V>)
        ensures
            r == (if index < self.values().len() {
                Some(&self.values()[index as int])
            } else {
                None
            }),
    {
        if index < self.values.len() {
            Some(&self.values[index])
        } else {
            None
        }
    }

    /// Returns a mutable reference to the component at `index`, or `None`
    /// if out of bounds.
    pub fn get_mut(&mut self, index: usize) -> (r: Option<&mut V>)
        ensures
            r is Some == (index < old(self).values().len()),
            final(self).column_type() == old(self).column_type(),
            match r {
                Some(v) => {
                    &&& *v == old(self).values()[index as int]
                    &&& final(self).values() == old(self).values().update(index as int, *final(v))
                },
                None => final(self).values() == old(self).values(),
            },
    {
        if index < self.values.len() {
            Some(&mut self.values[index])
        } else {
            None
        }
    }

    /// Overwrites the component at `index` (which must be in bounds),
    /// returning the previous value.
    pub fn replace(&mut self, index: usize, value: V) -> (r: V)
        requires
            index < old(self).values().len(),
        ensures
            r == old(self).values()[index as int],
            final(self).values() == old(self).values().update(index as int, value),
            final(self).column_type() == old(self).column_type(),
    {
        let ghost prev = self.values@;
        self.values.push(value);
        let r = self.values.swap_remove(index);
        assert(self.values@ =~= prev.update(index as int, value));
        r
    }

    /// Removes the element at `index` by moving the last element into its
    /// place, and returns it. The index must be in bounds.
    pub fn swap_remove(&mut self, index: usize) -> (r: V)
        requires
            index < old(self).values().len(),
        ensures
            r == old(self).values()[index as int],
            final(self).values() == swap_removed(old(self).values(), index as int),
            final(self).column_type() == old(self).column_type(),
    {
        let r = self.values.swap_remove(index);
        assert(self.values@ =~= swap_removed(old(self).values(), index as int));
        r
    }

    /// Returns the number of components stored in this column.
    pub fn len(&self) -> (r: usize)
        ensures
            r == self.values().len(),
    {
        self.values.len()
    }

    /// Returns `true` if the column contains no components.
    pub fn is_empty(&self) -> (r: bool)
        ensures
            r == (self.values().len() == 0),
    {
        self.values.len() == 0
    }

    /// Returns the component type this column stores.
    pub fn type_id(&self) -> (r: ComponentTypeId)
        ensures
            r == self.column_type(),
    {
        self.type_id
    }
}

/// The sequence `s` after removing position `i` by moving the last element
/// into its place.
pub open spec fn swap_removed<A>(s: Seq<A>, i: int) -> Seq<A> {
    if i == s.len() - 1 {
        s.drop_last()
    } else {
        s.update(i, s.last()).drop_last()
    }
}

/// Indexing into a swap-removed sequence: the removed slot now holds the
/// former last element, every other slot is unchanged.
pub proof fn lemma_swap_removed_index<A>(s: Seq<A>, i: int, j: int)
    requires
        0 <= i < s.len(),
        0 <= j < s.len() - 1,
    ensures
        swap_removed(s, i).len() == s.len() - 1,
        swap_removed(s, i)[j] == if j == i { s[s.len() - 1] } else { s[j] },
{
}

} // verus!
