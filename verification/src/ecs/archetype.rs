use vstd::prelude::*;

use crate::ecs::column::{swap_removed, ComponentColumn};
use crate::entity::Entity;
use crate::type_id::ComponentTypeId;

verus! {

/// Unique identifier for an archetype within the world.
pub type ArchetypeId = usize;

/// No value occurs twice in `s`.
pub open spec fn distinct<A>(s: Seq<A>) -> bool {
    forall|i: int, j: int| 0 <= i < s.len() && 0 <= j < s.len() && i != j ==> s[i] != s[j]
}

/// The component types of a sequence of columns, in column order.
pub open spec fn column_types<V>(cols: Seq<ComponentColumn<V>>) -> Seq<ComponentTypeId> {
    Seq::new(cols.len(), |k: int| cols[k].column_type())
}

/// An archetype table storing entities that share the exact same set of
/// component types: one column per component type, and row `i` of every
/// column describes entity `i` of the entity list.
pub struct Archetype<V> {
    id: ArchetypeId,
    columns: Vec<ComponentColumn<V>>,
    entities: Vec<Entity>,
}

impl<V> Archetype<V> {
    /// The archetype's identifier.
    pub closed spec fn arch_id(&self) -> ArchetypeId {
        self.id
    }

    /// The columns, in their fixed order.
    pub closed spec fn cols(&self) -> Seq<ComponentColumn<V>> {
        self.columns@
    }

    /// The component types, one per column.
    pub open spec fn types(&self) -> Seq<ComponentTypeId> {
        column_types(self.cols())
    }

    /// The entities, row by row.
    pub closed spec fn rows(&self) -> Seq<Entity> {
        self.entities@
    }

    /// The column types are distinct and no entity occupies two rows.
    pub open spec fn wf(&self) -> bool {
        &&& distinct(self.types())
        &&& distinct(self.rows())
    }

    /// Creates a new, empty archetype with the given columns, whose
    /// component types must be distinct (they form the archetype's key).
    pub fn new(id: ArchetypeId, columns: Vec<ComponentColumn<V>>) -> (r: Self)
        requires
            distinct(column_types(columns@)),
        ensures
            r.wf(),
            r.arch_id() == id,
            r.cols() == columns@,
            r.rows() == Seq::<Entity>::empty(),
    {
        Archetype { id, columns, entities: Vec::new() }
    }

    /// Returns this archetype's unique identifier.
    pub fn id(&self) -> (r: ArchetypeId)
        ensures
            r == self.arch_id(),
    {
        self.id
    }

    /// Registers an entity as the new last row and returns that row.
    /// The caller pushes matching component data into every column.
    pub fn add_entity(&mut self, entity: Entity) -> (r: usize)
        ensures
            r == old(self).rows().len(),
            final(self).rows() == old(self).rows().push(entity),
            final(self).cols() == old(self).cols(),
            final(self).arch_id() == old(self).arch_id(),
            old(self).wf() && !old(self).rows().contains(entity) ==> final(self).wf(),
    {
        let row = self.entities.len();
        self.entities.push(entity);
        proof {
            if old(self).wf() && !old(self).rows().contains(entity) {
                assert forall|i: int, j: int|
                    0 <= i < self.rows().len() && 0 <= j < self.rows().len() && i != j implies
                    self.rows()[i] != self.rows()[j] by {
                    if i == row as int {
                        assert(old(self).rows()[j] == self.rows()[j]);
                    } else if j == row as int {
                        assert(old(self).rows()[i] == self.rows()[i]);
                    }
                }
            }
        }
        row
    }

    /// Removes an entity by moving the last row into its place.
    ///
    /// Returns the row that `entity` occupied (its last row, should it have
    /// been added more than once), or `None` if it is not in this
    /// archetype. The caller swap-removes the same row from every
    /// column.
    pub fn remove_entity(&mut self, entity: Entity) -> (r: Option<usize>)
        ensures
            old(self).wf() ==> final(self).wf(),
            final(self).cols() == old(self).cols(),
            final(self).arch_id() == old(self).arch_id(),
            match r {
                Some(row) => {
                    &&& row < old(self).rows().len()
                    &&& old(self).rows()[row as int] == entity
                    &&& forall|j: int| row < j < old(self).rows().len() ==> old(self).rows()[j] != entity
                    &&& final(self).rows() == swap_removed(old(self).rows(), row as int)
                },
                None => {
                    &&& !old(self).rows().contains(entity)
                    &&& final(self).rows() == old(self).rows()
                },
            },
    {
        match self.entity_row(&entity) {
            None => None,
            Some(row) => {
                let ghost prev = self.entities@;
                self.entities.swap_remove(row);
                assert(self.entities@ =~= swap_removed(prev, row as int));
                assert forall|i: int, j: int| old(self).wf() &&
                    0 <= i < self.rows().len() && 0 <= j < self.rows().len() && i != j implies
                    self.rows()[i] != self.rows()[j] by {
                    let last = prev.len() - 1;
                    let oi = if i == row as int { last } else { i };
                    let oj = if j == row as int { last } else { j };
                    assert(self.rows()[i] == prev[oi]);
                    assert(self.rows()[j] == prev[oj]);
                }
                Some(row)
            },
        }
    }

    /// Returns the number of columns.
    pub fn column_count(&self) -> (r: usize)
        ensures
            r == self.cols().len(),
    {
        self.columns.len()
    }

    /// Returns the entities currently in this archetype, row by row.
    pub fn entities(&self) -> (r: &[Entity])
        ensures
            r@ == self.rows(),
    {
        self.entities.as_slice()
    }

    /// Returns the number of entities in this archetype.
    pub fn len(&self) -> (r: usize)
        ensures
            r == self.rows().len(),
    {
        self.entities.len()
    }

    /// Returns `true` if this archetype has no entities.
    pub fn is_empty(&self) -> (r: bool)
        ensures
            r == (self.rows().len() == 0),
    {
        self.entities.len() == 0
    }

    /// Returns the position of the column for `type_id`, if present.
    pub fn column_index(&self, type_id: &ComponentTypeId) -> (r: Option<usize>)
        ensures
            match r {
                Some(k) => k < self.types().len() && self.types()[k as int] == *type_id,
                None => !self.types().contains(*type_id),
            },
    {
        let n = self.columns.len();
        let mut k: usize = 0;
        while k < n
            invariant
                n == self.cols().len(),
                k <= n,
                forall|j: int| 0 <= j < k ==> self.types()[j] != *type_id,
            decreases n - k,
        {
            let t = self.columns[k].type_id();
            if t.same(type_id) {
                return Some(k);
            }
            k = k + 1;
        }
        proof {
            if self.types().contains(*type_id) {
                let j = choose|j: int| 0 <= j < self.types().len() && self.types()[j] == *type_id;
                assert(self.types()[j] != *type_id);
            }
        }
        None
    }

    /// Returns `true` if this archetype has a column for the given type.
    pub fn has_component(&self, type_id: ComponentTypeId) -> (r: bool)
        ensures
            r == self.types().contains(type_id),
    {
        self.column_index(&type_id).is_some()
    }

    /// Returns the column for component type `T`, if present. The type's
    /// identifier comes from `TypeId::of`, of which nothing is stated: the
    /// contract says that the result is the column of some one type `t`,
    /// present exactly when the archetype stores `t`.
    pub fn column<T: 'static>(&self) -> (r: Option<&ComponentColumn<V>>)
        ensures
            exists|t: ComponentTypeId|
                {
                    &&& (r is Some) == self.types().contains(t)
                    &&& r matches Some(c) ==> c.column_type() == t && self.cols().contains(*c)
                },
    {
        self.column_by_id(&ComponentTypeId::of::<T>())
    }

    /// Returns the column for component type `T` mutably, if present (see
    /// [`Archetype::column`] for what is stated of the type): the column of
    /// some one type `t`, present exactly when the archetype stores `t`.
    pub fn column_mut<T: 'static>(&mut self) -> (r: Option<&mut ComponentColumn<V>>)
        ensures
            final(self).arch_id() == old(self).arch_id(),
            final(self).rows() == old(self).rows(),
            final(self).cols().len() == old(self).cols().len(),
            exists|t: ComponentTypeId|
                {
                    &&& (r is Some) == old(self).types().contains(t)
                    &&& match r {
                        Some(c) => exists|k: int|
                            0 <= k < old(self).cols().len() && old(self).types()[k] == t
                                && *c == old(self).cols()[k] && final(self).cols() == old(self).cols().update(
                                k,
                                *final(c),
                            ),
                        None => final(self).cols() == old(self).cols(),
                    }
                },
    {
        let t = ComponentTypeId::of::<T>();
        self.column_by_id_mut(&t)
    }

    /// Returns the column for the given type, if present.
    pub fn column_by_id(&self, type_id: &ComponentTypeId) -> (r: Option<&ComponentColumn<V>>)
        ensures
            r is Some == self.types().contains(*type_id),
            r matches Some(c) ==> c.column_type() == *type_id && self.cols().contains(*c),
    {
        match self.column_index(type_id) {
            Some(k) => {
                assert(self.cols()[k as int] == self.columns@[k as int]);
                Some(&self.columns[k])
            },
            None => None,
        }
    }

    /// Returns the column for the given type mutably, if present.
    pub fn column_by_id_mut(&mut self, type_id: &ComponentTypeId) -> (r: Option<
        &mut ComponentColumn<V>,
    >)
        ensures
            r is Some == old(self).types().contains(*type_id),
            final(self).arch_id() == old(self).arch_id(),
            final(self).rows() == old(self).rows(),
            final(self).cols().len() == old(self).cols().len(),
            match r {
                Some(c) => exists|k: int|
                    0 <= k < old(self).cols().len() && old(self).types()[k] == *type_id
                        && *c == old(self).cols()[k] && final(self).cols() == old(self).cols().update(
                        k,
                        *final(c),
                    ),
                None => final(self).cols() == old(self).cols(),
            },
    {
        match self.column_index(type_id) {
            Some(k) => Some(&mut self.columns[k]),
            None => None,
        }
    }

    /// Returns the component types of this archetype, in column order.
    pub fn component_types(&self) -> (r: Vec<ComponentTypeId>)
        ensures
            r@ == self.types(),
    {
        let n = self.columns.len();
        let mut r: Vec<ComponentTypeId> = Vec::new();
        let mut k: usize = 0;
        while k < n
            invariant
                n == self.cols().len(),
                k <= n,
                r@ == self.types().subrange(0, k as int),
            decreases n - k,
        {
            r.push(self.columns[k].type_id());
            k = k + 1;
            assert(r@ =~= self.types().subrange(0, k as int));
        }
        assert(r@ =~= self.types());
        r
    }

    /// Returns the row of `entity`, if present (its last row, should it
    /// have been registered more than once).
    pub fn entity_row(&self, entity: &Entity) -> (r: Option<usize>)
        ensures
            match r {
                Some(row) => {
                    &&& row < self.rows().len()
                    &&& self.rows()[row as int] == *entity
                    &&& forall|j: int| row < j < self.rows().len() ==> self.rows()[j] != *entity
                },
                None => !self.rows().contains(*entity),
            },
    {
        let mut k: usize = self.entities.len();
        while k > 0
            invariant
                k <= self.rows().len(),
                forall|j: int| k <= j < self.rows().len() ==> self.rows()[j] != *entity,
            decreases k,
        {
            k = k - 1;
            if self.entities[k] == *entity {
                return Some(k);
            }
        }
        proof {
            if self.rows().contains(*entity) {
                let j = choose|j: int| 0 <= j < self.rows().len() && self.rows()[j] == *entity;
                assert(self.rows()[j] != *entity);
            }
        }
        None
    }

    /// The column at position `k`, mutably.
    pub fn column_at_mut(&mut self, k: usize) -> (r: &mut ComponentColumn<V>)
        requires
            k < old(self).cols().len(),
        ensures
            *r == old(self).cols()[k as int],
            final(self).cols() == old(self).cols().update(k as int, *final(r)),
            final(self).arch_id() == old(self).arch_id(),
            final(self).rows() == old(self).rows(),
    {
        &mut self.columns[k]
    }

    /// The column at position `k`.
    pub fn column_at(&self, k: usize) -> (r: &ComponentColumn<V>)
        requires
            k < self.cols().len(),
        ensures
            *r == self.cols()[k as int],
    {
        &self.columns[k]
    }
}

} // verus!
