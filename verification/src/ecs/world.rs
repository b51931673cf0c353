use vstd::prelude::*;

use crate::application::time::FrameClock;
use crate::ecs::archetype::{column_types, distinct, Archetype, ArchetypeId};
use crate::ecs::column::{lemma_swap_removed_index, swap_removed, ComponentColumn};
use crate::ecs::resource::Resources;
use crate::entity::{Entities, EntitiesModel, Entity};
use crate::type_id::ComponentTypeId;

verus! {

/// The components held in row `r` of an archetype, by type.
pub open spec fn row_components<V>(arch: Archetype<V>, r: int) -> Map<ComponentTypeId, V> {
    Map::new(
        |t: ComponentTypeId| arch.types().contains(t),
        |t: ComponentTypeId| arch.cols()[arch.types().index_of(t)].values()[r],
    )
}

/// In a sequence without duplicates, the position of an element is the
/// one it occupies.
pub proof fn lemma_index_of_distinct<A>(s: Seq<A>, k: int)
    requires
        distinct(s),
        0 <= k < s.len(),
    ensures
        s.index_of(s[k]) == k,
        s.contains(s[k]),
{
    assert(s.contains(s[k]));
    let i = s.index_of(s[k]);
    assert(s[i] == s[k]);
}

/// Slot `i` is consistent: a living slot points at a row that holds its
/// current entity and is not on the free list; a free slot is.
pub open spec fn slot_ok<V>(
    locs: Seq<Option<(ArchetypeId, usize)>>,
    archs: Seq<Archetype<V>>,
    ents: EntitiesModel,
    occupied: Set<int>,
    i: int,
) -> bool {
    match locs[i] {
        Some((a, r)) => {
            &&& a < archs.len()
            &&& r < archs[a as int].rows().len()
            &&& archs[a as int].rows()[r as int].index == i
            &&& archs[a as int].rows()[r as int].generation == ents.generations[i]
            &&& !ents.free_list.contains(i as u32)
            &&& occupied.contains(i)
        },
        None => {
            &&& ents.free_list.contains(i as u32)
            &&& !occupied.contains(i)
        },
    }
}

/// Row `r` of archetype `a` is recorded as the location of its entity.
pub open spec fn row_ok<V>(locs: Seq<Option<(ArchetypeId, usize)>>, archs: Seq<Archetype<V>>, a: int, r: int) -> bool {
    let e = archs[a].rows()[r];
    &&& e.index < locs.len()
    &&& locs[e.index as int] == Some((a as usize, r as usize))
}

/// Storage position `p` comes before `q`: an earlier archetype, or an
/// earlier row of the same archetype.
pub open spec fn position_before(p: (ArchetypeId, usize), q: (ArchetypeId, usize)) -> bool {
    p.0 < q.0 || (p.0 == q.0 && p.1 < q.1)
}

/// Archetype `a` is well formed, knows its id, and every column has one
/// value per row.
pub open spec fn table_ok<V>(archs: Seq<Archetype<V>>, a: int) -> bool {
    let arch = archs[a];
    &&& arch.wf()
    &&& arch.arch_id() == a
    &&& forall|k: int| 0 <= k < arch.cols().len() ==> (#[trigger] arch.cols()[k]).values().len() == arch.rows().len()
}

/// Appending `x` adds exactly `x` to what a sequence contains.
pub proof fn lemma_push_contains<A>(s: Seq<A>, x: A, y: A)
    ensures
        s.push(x).contains(y) == (s.contains(y) || x == y),
{
    if s.contains(y) {
        let k = choose|k: int| 0 <= k < s.len() && s[k] == y;
        assert(s.push(x)[k] == y);
    }
    if x == y {
        assert(s.push(x)[s.len() as int] == y);
    }
    if s.push(x).contains(y) {
        let k = choose|k: int| 0 <= k < s.push(x).len() && s.push(x)[k] == y;
        if k < s.len() {
            assert(s[k] == y);
        }
    }
}

/// The two lists hold the same component types.
pub open spec fn same_types(a: Seq<ComponentTypeId>, b: Seq<ComponentTypeId>) -> bool {
    forall|t: ComponentTypeId| a.contains(t) <==> b.contains(t)
}

/// `list` holds `t`.
fn contains_type(list: &Vec<ComponentTypeId>, t: &ComponentTypeId) -> (r: bool)
    ensures
        r == list@.contains(*t),
{
    let mut k: usize = 0;
    while k < list.len()
        invariant
            k <= list@.len(),
            forall|j: int| 0 <= j < k ==> list@[j] != *t,
        decreases list@.len() - k,
    {
        if list[k].same(t) {
            assert(list@[k as int] == *t);
            return true;
        }
        k = k + 1;
    }
    false
}

/// Both lists hold the same component types.
fn same_type_set(a: &Vec<ComponentTypeId>, b: &Vec<ComponentTypeId>) -> (r: bool)
    ensures
        r == same_types(a@, b@),
{
    let mut k: usize = 0;
    while k < a.len()
        invariant
            k <= a@.len(),
            forall|j: int| 0 <= j < k ==> b@.contains(#[trigger] a@[j]),
        decreases a@.len() - k,
    {
        if !contains_type(b, &a[k]) {
            return false;
        }
        k = k + 1;
    }
    let mut k: usize = 0;
    while k < b.len()
        invariant
            k <= b@.len(),
            forall|j: int| 0 <= j < a@.len() ==> b@.contains(#[trigger] a@[j]),
            forall|j: int| 0 <= j < k ==> a@.contains(#[trigger] b@[j]),
        decreases b@.len() - k,
    {
        if !contains_type(a, &b[k]) {
            return false;
        }
        k = k + 1;
    }
    proof {
        assert forall|t: ComponentTypeId| a@.contains(t) <==> b@.contains(t) by {
            if a@.contains(t) {
                let j = choose|j: int| 0 <= j < a@.len() && a@[j] == t;
                assert(b@.contains(a@[j]));
            }
            if b@.contains(t) {
                let j = choose|j: int| 0 <= j < b@.len() && b@[j] == t;
                assert(a@.contains(b@[j]));
            }
        }
    }
    true
}

/// A component map after removing `skip` (if any) and then adding
/// `extra` (if any).
pub open spec fn migrated<V>(
    m: Map<ComponentTypeId, V>,
    skip: Option<ComponentTypeId>,
    extra: Option<(ComponentTypeId, V)>,
) -> Map<ComponentTypeId, V> {
    let m1 = match skip {
        Some(t) => m.remove(t),
        None => m,
    };
    match extra {
        Some(p) => m1.insert(p.0, p.1),
        None => m1,
    }
}

/// `t` belongs to the type set `src` after removing `skip` and adding the
/// type of `extra`.
pub open spec fn in_target<V>(
    src: Seq<ComponentTypeId>,
    skip: Option<ComponentTypeId>,
    extra: Option<(ComponentTypeId, V)>,
    t: ComponentTypeId,
) -> bool {
    (src.contains(t) && skip != Some(t)) || (extra is Some && (extra->0).0 == t)
}

/// Removing a component type that was just inserted on a living entity
/// that lacked it gives back the inserted value and restores every
/// entity's components as they were: `remove_component` undoes
/// `insert_component`.
pub proof fn law_remove_undoes_insert<V>(
    components: Map<Entity, Map<ComponentTypeId, V>>,
    e: Entity,
    t: ComponentTypeId,
    v: V,
)
    requires
        components.contains_key(e),
        !components[e].contains_key(t),
    ensures
        ({
            let inserted = components.insert(e, components[e].insert(t, v));
            &&& inserted[e].contains_key(t)
            &&& inserted[e][t] == v
            &&& inserted.insert(e, inserted[e].remove(t)) == components
        }),
{
    let inserted = components.insert(e, components[e].insert(t, v));
    assert(inserted[e].remove(t) =~= components[e]);
    assert(inserted.insert(e, inserted[e].remove(t)) =~= components);
}

/// The central data store for entities, components and resources.
///
/// Entities with the same set of component types share an archetype
/// table; adding or removing a component moves the entity to the table
/// for its new set of types. `V` is the type of component and resource
/// values.
pub struct World<V> {
    entities: Entities,
    archetypes: Vec<Archetype<V>>,
    /// `(archetype, row)` of the living entity in each entity slot.
    locations: Vec<Option<(ArchetypeId, usize)>>,
    /// The slots that hold a living entity.
    occupied: Ghost<Set<int>>,
    resources: Resources<V>,
    /// The frame clock, advanced once per frame before systems run.
    clock: FrameClock,
}

impl<V> World<V> {
    /// Generation of each entity slot.
    pub closed spec fn generations(&self) -> Seq<u32> {
        self.entities@.generations
    }

    /// The archetype tables.
    pub closed spec fn tables(&self) -> Seq<Archetype<V>> {
        self.archetypes@
    }

    /// The location table.
    pub closed spec fn locs(&self) -> Seq<Option<(ArchetypeId, usize)>> {
        self.locations@
    }

    pub closed spec fn wf(&self) -> bool {
        &&& self.entities.wf()
        &&& self.resources.wf()
        &&& self.locations@.len() == self.entities@.generations.len()
        &&& self.entities@.generations.len() <= u32::MAX + 1
        &&& distinct(self.entities@.free_list)
        &&& self.archetypes@.len() > 0
        &&& self.archetypes@[0].types().len() == 0
        &&& forall|a: int| 0 <= a < self.archetypes@.len() ==> #[trigger] table_ok(self.archetypes@, a)
        &&& forall|i: int|
            0 <= i < self.locations@.len() ==> #[trigger] slot_ok(
                self.locations@,
                self.archetypes@,
                self.entities@,
                self.occupied@,
                i,
            )
        &&& forall|a: int, r: int|
            0 <= a < self.archetypes@.len() && 0 <= r < self.archetypes@[a].rows().len() ==> #[trigger] row_ok(
                self.locations@,
                self.archetypes@,
                a,
                r,
            )
        &&& self.occupied@.finite()
        &&& forall|i: int| #[trigger] self.occupied@.contains(i) ==> 0 <= i < self.locations@.len()
        &&& self.entities@.alive_count == self.occupied@.len()
    }

    /// `e` is a living entity of this world.
    pub closed spec fn located(&self, e: Entity) -> bool {
        &&& e.index < self.locations@.len()
        &&& self.locations@[e.index as int] is Some
        &&& self.entities@.generations[e.index as int] == e.generation
    }

    /// Every living entity with its components, by type.
    pub closed spec fn components(&self) -> Map<Entity, Map<ComponentTypeId, V>> {
        Map::new(
            |e: Entity| self.located(e),
            |e: Entity|
                {
                    let (a, r) = self.locations@[e.index as int]->0;
                    row_components(self.archetypes@[a as int], r as int)
                },
        )
    }

    /// Number of living entities.
    pub closed spec fn count(&self) -> nat {
        self.entities@.alive_count
    }

    /// The global resources, by type.
    pub closed spec fn resource_map(&self) -> Map<ComponentTypeId, V> {
        self.resources.contents()
    }

    /// The frame clock.
    pub closed spec fn frame_clock(&self) -> FrameClock {
        self.clock
    }

    /// The allocator calls a handle alive exactly when it names a living
    /// entity of this world.
    proof fn lemma_alive_is_located(&self, e: Entity)
        requires
            self.wf(),
        ensures
            self.entities@.is_alive(e) == self.located(e),
            self.entities@.wf(),
    {
        self.entities.lemma_model_wf();
        if e.index < self.locations@.len() {
            assert(slot_ok(self.locations@, self.archetypes@, self.entities@, self.occupied@, e.index as int));
        }
    }

    /// Another entity can be spawned: the count fits in `usize` and either
    /// a freed slot can be reused or a fresh slot index fits in `u32`.
    pub closed spec fn can_spawn(&self) -> bool {
        &&& self.entities@.alive_count < usize::MAX
        &&& (self.entities@.free_list.len() > 0 || self.entities@.generations.len() <= u32::MAX)
    }

    /// The number of entities the world reports is the number of living
    /// entities, and there are finitely many.
    pub proof fn law_count_is_number_of_living_entities(&self)
        requires
            self.wf(),
        ensures
            self.components().dom().finite(),
            self.count() == self.components().dom().len(),
    {
        let occ = self.occupied@;
        let gens = self.entities@.generations;
        let handle = |i: int| Entity { index: i as u32, generation: gens[i] };
        let dom = self.components().dom();
        assert forall|a: int, b: int| occ.contains(a) && occ.contains(b) && #[trigger] handle(a) == #[trigger] handle(b) implies a == b by {
            assert(0 <= a < self.locations@.len());
            assert(0 <= b < self.locations@.len());
        }
        assert forall|e: Entity| #[trigger] dom.contains(e) == occ.map(handle).contains(e) by {
            if dom.contains(e) {
                let i = e.index as int;
                assert(slot_ok(self.locations@, self.archetypes@, self.entities@, occ, i));
                assert(occ.contains(i));
                assert(handle(i) == e);
            }
            if occ.map(handle).contains(e) {
                let i = choose|i: int| occ.contains(i) && handle(i) == e;
                assert(0 <= i < self.locations@.len());
                assert(slot_ok(self.locations@, self.archetypes@, self.entities@, occ, i));
            }
        }
        assert(occ.map(handle) =~= dom);
        vstd::set_lib::lemma_map_size(occ, dom, handle);
    }

    /// Creates an empty world holding only the empty archetype (number 0),
    /// where freshly spawned entities live.
    pub fn new() -> (r: Self)
        ensures
            r.wf(),
            r.components() == Map::<Entity, Map<ComponentTypeId, V>>::empty(),
            r.count() == 0,
            r.resource_map() == Map::<ComponentTypeId, V>::empty(),
            r.can_spawn(),
            r.frame_clock().frames() == 0,
            r.frame_clock().elapsed_nanos() == 0,
            r.frame_clock().delta_nanos() == 0,
    {
        let cols: Vec<ComponentColumn<V>> = Vec::new();
        assert(column_types(cols@) =~= Seq::<ComponentTypeId>::empty());
        let empty_archetype = Archetype::new(0, cols);
        let mut archetypes: Vec<Archetype<V>> = Vec::new();
        archetypes.push(empty_archetype);
        let w = World {
            entities: Entities::new(),
            archetypes,
            locations: Vec::new(),
            occupied: Ghost(Set::empty()),
            resources: Resources::new(),
            clock: FrameClock::new(),
        };
        assert(table_ok(w.archetypes@, 0));
        assert(w.components() =~= Map::<Entity, Map<ComponentTypeId, V>>::empty());
        w
    }

    /// Returns the number of living entities.
    pub fn entity_count(&self) -> (r: usize)
        ensures
            r == self.count(),
    {
        self.entities.len()
    }

    /// `e` is a living entity of this world.
    pub fn contains(&self, e: Entity) -> (r: bool)
        requires
            self.wf(),
        ensures
            r == self.components().contains_key(e),
    {
        proof {
            self.lemma_alive_is_located(e);
        }
        self.entities.is_alive(e) && self.locations[e.index as usize].is_some()
    }

    /// The frame clock.
    pub fn clock(&self) -> (r: &FrameClock)
        ensures
            *r == self.frame_clock(),
    {
        &self.clock
    }

    /// `w1` is `w0` with one more frame recorded on its clock: the
    /// entities, components and resources are those of `w0`, the frame
    /// count is one more, and the delta is the time from `w0`'s last frame
    /// to `w1`'s (zero should the clock reading lie before it).
    pub open spec fn frame_started(w0: Self, w1: Self) -> bool {
        &&& w1.wf()
        &&& w1.components() == w0.components()
        &&& w1.count() == w0.count()
        &&& w1.resource_map() == w0.resource_map()
        &&& w1.can_spawn() == w0.can_spawn()
        &&& w1.frame_clock().frames() == w0.frame_clock().frames() + 1
        &&& w1.frame_clock().delta_nanos() == if w1.frame_clock().elapsed_nanos() >= w0.frame_clock().elapsed_nanos() {
            w1.frame_clock().elapsed_nanos() - w0.frame_clock().elapsed_nanos()
        } else {
            0
        }
    }

    /// Records a frame on the frame clock, reading the wall clock, and
    /// returns the reading; the entities, components and resources stay as
    /// they are.
    pub fn tick_clock(&mut self) -> (reading: u128)
        requires
            old(self).wf(),
            old(self).frame_clock().frames() < u64::MAX,
        ensures
            Self::frame_started(*old(self), *final(self)),
            FrameClock::records(old(self).frame_clock(), final(self).frame_clock(), reading),
    {
        let reading = self.clock.tick();
        assert(self.components() =~= old(self).components());
        assert(self.resource_map() =~= old(self).resource_map());
        reading
    }

    /// Another entity can be spawned without exhausting the entity count
    /// or the index space.
    pub fn has_room(&self) -> (r: bool)
        requires
            self.wf(),
        ensures
            r == self.can_spawn(),
    {
        self.entities.len() < usize::MAX && self.entities.has_free_slot_or_fresh_index()
    }

    /// Inserts a global resource, replacing any previous one of its type.
    pub fn insert_resource(&mut self, type_id: ComponentTypeId, resource: V)
        requires
            old(self).wf(),
        ensures
            final(self).wf(),
            final(self).resource_map() == old(self).resource_map().insert(type_id, resource),
            final(self).components() == old(self).components(),
            final(self).frame_clock() == old(self).frame_clock(),
            final(self).count() == old(self).count(),
            final(self).can_spawn() == old(self).can_spawn(),
    {
        self.resources.insert(type_id, resource);
        assert(self.components() =~= old(self).components());
    }

    /// Returns the global resource of the given type, if present.
    pub fn get_resource(&self, type_id: ComponentTypeId) -> (r: Option<&V>)
        requires
            self.wf(),
        ensures
            r == (if self.resource_map().contains_key(type_id) {
                Some(&self.resource_map()[type_id])
            } else {
                None
            }),
    {
        self.resources.get(type_id)
    }

    /// Returns the global resource of the given type mutably, if present.
    pub fn get_resource_mut(&mut self, type_id: ComponentTypeId) -> (r: Option<&mut V>)
        requires
            old(self).wf(),
        ensures
            final(self).wf(),
            final(self).frame_clock() == old(self).frame_clock(),
            final(self).components() == old(self).components(),
            final(self).count() == old(self).count(),
            final(self).can_spawn() == old(self).can_spawn(),
            r is Some == old(self).resource_map().contains_key(type_id),
            match r {
                Some(v) => {
                    &&& *v == old(self).resource_map()[type_id]
                    &&& final(self).resource_map() == old(self).resource_map().insert(type_id, *final(v))
                },
                None => final(self).resource_map() == old(self).resource_map(),
            },
    {
        self.resources.get_mut(type_id)
    }

    /// Spawns a new entity with no components (in the empty archetype).
    pub fn spawn(&mut self) -> (e: Entity)
        requires
            old(self).wf(),
            old(self).can_spawn(),
        ensures
            final(self).wf(),
            final(self).frame_clock() == old(self).frame_clock(),
            !old(self).components().contains_key(e),
            final(self).components() == old(self).components().insert(e, Map::<ComponentTypeId, V>::empty()),
            final(self).count() == old(self).count() + 1,
            final(self).resource_map() == old(self).resource_map(),
    {
        let ghost old_ents = self.entities@;
        let e = self.entities.allocate();
        let idx = e.index as usize;
        if idx == self.locations.len() {
            self.locations.push(None);
        }
        proof {
            // The slot is free: reused from the free list, or brand new.
            if old_ents.free_list.len() > 0 {
                let k = old_ents.free_list.len() - 1;
                assert(old_ents.free_list[k] == e.index);
                assert(old_ents.free_list.contains(e.index));
                assert(slot_ok(old(self).locations@, old(self).archetypes@, old_ents, old(self).occupied@, idx as int));
            }
            assert(self.locations@[idx as int] is None);
            assert(!old(self).occupied@.contains(idx as int));
            // So no row holds an entity with this index.
            assert forall|a: int, r: int| 0 <= a < self.archetypes@.len() && 0 <= r < self.archetypes@[a].rows().len()
                implies (#[trigger] self.archetypes@[a].rows()[r]).index != e.index by {
                assert(row_ok(old(self).locations@, old(self).archetypes@, a, r));
            }
            assert(table_ok(self.archetypes@, 0));
        }
        let ghost old_archs = self.archetypes@;
        let row = self.archetypes[0].add_entity(e);
        self.locations.set(idx, Some((0, row)));
        proof {
            self.occupied@ = self.occupied@.insert(idx as int);
            let locs = self.locations@;
            let archs = self.archetypes@;
            let ents = self.entities@;
            assert(archs[0].rows() == old_archs[0].rows().push(e));
            assert(!old_archs[0].rows().contains(e)) by {
                if old_archs[0].rows().contains(e) {
                    let r = choose|r: int| 0 <= r < old_archs[0].rows().len() && old_archs[0].rows()[r] == e;
                    assert(old_archs[0].rows()[r].index != e.index);
                }
            }
            assert forall|a: int| 0 <= a < archs.len() implies #[trigger] table_ok(archs, a) by {
                assert(table_ok(old_archs, a));
                if a == 0 {
                    assert(archs[0].cols().len() == 0);
                }
            }
            assert(distinct(ents.free_list)) by {
                if old_ents.free_list.len() > 0 {
                    assert(ents.free_list =~= old_ents.free_list.drop_last());
                }
            }
            assert forall|i: int| 0 <= i < locs.len() implies #[trigger] slot_ok(locs, archs, ents, self.occupied@, i) by {
                if i == idx as int {
                    assert(archs[0].rows()[row as int] == e);
                    if old_ents.free_list.len() > 0 {
                        assert(ents.free_list =~= old_ents.free_list.drop_last());
                        if ents.free_list.contains(i as u32) {
                            let k = choose|k: int| 0 <= k < ents.free_list.len() && ents.free_list[k] == i as u32;
                            assert(old_ents.free_list[k] == old_ents.free_list[old_ents.free_list.len() - 1]);
                        }
                    }
                } else {
                    assert(slot_ok(old(self).locations@, old_archs, old_ents, old(self).occupied@, i));
                    if old_ents.free_list.len() > 0 {
                        assert(ents.free_list =~= old_ents.free_list.drop_last());
                        if old(self).locations@[i] is None {
                            let k = choose|k: int| 0 <= k < old_ents.free_list.len() && old_ents.free_list[k] == i as u32;
                            assert(k != old_ents.free_list.len() - 1);
                            assert(ents.free_list[k] == i as u32);
                        }
                    }
                    assert(locs[i] == old(self).locations@[i]);
                }
            }
            assert forall|a: int, r: int| 0 <= a < archs.len() && 0 <= r < archs[a].rows().len()
                implies #[trigger] row_ok(locs, archs, a, r) by {
                if a == 0 && r == row as int {
                } else {
                    assert(row_ok(old(self).locations@, old_archs, a, r));
                    assert(archs[a].rows()[r] == old_archs[a].rows()[r]);
                    assert(old_archs[a].rows()[r].index != e.index);
                }
            }
            assert forall|i: int| #[trigger] self.occupied@.contains(i) implies 0 <= i < locs.len() by {
                if i != idx as int {
                    assert(old(self).occupied@.contains(i));
                }
            }
            assert forall|x: Entity| #[trigger] self.components().contains_key(x) && x != e implies
                old(self).components().contains_key(x) && self.components()[x] == old(self).components()[x] by {
                assert(x.index != e.index) by {
                    if x.index == e.index {
                        assert(ents.generations[idx as int] == e.generation);
                    }
                }
                let (a, r) = locs[x.index as int]->0;
                assert(old(self).locations@[x.index as int] == locs[x.index as int]);
                assert(slot_ok(old(self).locations@, old_archs, old_ents, old(self).occupied@, x.index as int));
                assert(archs[a as int].types() == old_archs[a as int].types());
                assert(row_components(archs[a as int], r as int) =~= row_components(old_archs[a as int], r as int)) by {
                    assert(archs[a as int].cols() == old_archs[a as int].cols());
                }
            }
            assert forall|x: Entity| #[trigger] old(self).components().contains_key(x) implies
                self.components().contains_key(x) by {
                assert(x.index != e.index) by {
                    if x.index == e.index {
                        assert(old(self).locations@[idx as int] is Some);
                    }
                }
                assert(old(self).locations@[x.index as int] == locs[x.index as int]);
            }
            assert(self.components().contains_key(e));
            assert(row_components(archs[0], row as int) =~= Map::<ComponentTypeId, V>::empty());
            assert(self.components() =~= old(self).components().insert(e, Map::<ComponentTypeId, V>::empty()));
        }
        e
    }

    /// Despawns an entity, removing it and its components.
    ///
    /// Returns `true` if the entity was alive. Its row is swap-removed from
    /// its archetype (the last row moves into its place) and its slot is
    /// freed with a bumped generation.
    pub fn despawn(&mut self, entity: Entity) -> (r: bool)
        requires
            old(self).wf(),
        ensures
            final(self).wf(),
            final(self).frame_clock() == old(self).frame_clock(),
            r == old(self).components().contains_key(entity),
            final(self).components() == old(self).components().remove(entity),
            final(self).count() == if r { old(self).count() - 1 } else { old(self).count() as int },
            final(self).resource_map() == old(self).resource_map(),
            r ==> final(self).can_spawn(),
            !r ==> final(self).can_spawn() == old(self).can_spawn(),
    {
        proof {
            self.lemma_alive_is_located(entity);
        }
        if !self.entities.is_alive(entity) {
            return false;
        }
        let idx = entity.index as usize;
        let (a, row) = match self.locations[idx] {
            Some(loc) => loc,
            None => {
                return false;
            },
        };
        let ghost old_archs = self.archetypes@;
        let ghost old_arch = self.archetypes@[a as int];
        proof {
            assert(slot_ok(self.locations@, self.archetypes@, self.entities@, self.occupied@, idx as int));
            assert(table_ok(self.archetypes@, a as int));
            assert(old_arch.rows()[row as int] == entity);
        }
        let n_cols = self.archetypes[a].column_count();
        let mut k: usize = 0;
        while k < n_cols
            invariant
                a < self.archetypes@.len(),
                self.archetypes@.len() == old_archs.len(),
                old_arch == old_archs[a as int],
                table_ok(old_archs, a as int),
                row < old_arch.rows().len(),
                n_cols == old_arch.cols().len(),
                k <= n_cols,
                forall|b: int| 0 <= b < old_archs.len() && b != a ==> #[trigger] self.archetypes@[b] == old_archs[b],
                self.archetypes@[a as int].rows() == old_arch.rows(),
                self.archetypes@[a as int].arch_id() == old_arch.arch_id(),
                self.archetypes@[a as int].cols().len() == n_cols,
                forall|j: int| 0 <= j < n_cols ==> (#[trigger] self.archetypes@[a as int].cols()[j]).column_type() == old_arch.cols()[j].column_type(),
                forall|j: int| 0 <= j < k ==> (#[trigger] self.archetypes@[a as int].cols()[j]).values() == swap_removed(old_arch.cols()[j].values(), row as int),
                forall|j: int| k <= j < n_cols ==> (#[trigger] self.archetypes@[a as int].cols()[j]).values() == old_arch.cols()[j].values(),
                self.locations@ == old(self).locations@,
                self.entities == old(self).entities,
                self.occupied@ == old(self).occupied@,
                self.resources == old(self).resources,
                self.clock == old(self).clock,
            decreases n_cols - k,
        {
            assert(old_arch.cols()[k as int].values().len() == old_arch.rows().len());
            let arch = &mut self.archetypes[a];
            let col = arch.column_at_mut(k);
            let _removed = col.swap_remove(row);
            k = k + 1;
        }
        proof {
            assert(self.archetypes@[a as int].types() =~= old_arch.types());
            assert(old_arch.wf());
            assert(self.archetypes@[a as int].wf());
        }
        let arch = &mut self.archetypes[a];
        let removed_row = arch.remove_entity(entity);
        let new_len = arch.len();
        proof {
            assert(old_arch.wf());
            if removed_row is Some {
                let rr = removed_row->0;
                assert(old_arch.rows()[rr as int] == entity);
                assert(rr == row) by {
                    if rr != row {
                        assert(old_arch.rows()[rr as int] != old_arch.rows()[row as int]);
                    }
                }
            } else {
                assert(old_arch.rows().contains(entity)) by {
                    assert(old_arch.rows()[row as int] == entity);
                }
            }
        }
        if row < new_len {
            let swapped = self.archetypes[a].entities()[row];
            proof {
                lemma_swap_removed_index(old_arch.rows(), row as int, row as int);
                assert(swapped == old_arch.rows()[old_arch.rows().len() - 1]);
                assert(row_ok(old(self).locations@, old_archs, a as int, old_arch.rows().len() - 1));
            }
            self.locations.set(swapped.index as usize, Some((a, row)));
        }
        self.locations.set(idx, None);
        proof {
            assert(self.entities@.alive_count == self.occupied@.len());
            assert(self.occupied@.contains(idx as int));
            assert(self.occupied@.finite());
            assert(self.occupied@.len() > 0) by {
                vstd::set::axiom_set_remove_len(self.occupied@, idx as int);
            }
            assert(self.entities.wf());
            assert(self.entities@.alive_count > 0);
        }
        let freed = self.entities.free(entity);
        proof {
            let old_occ = self.occupied@;
            self.occupied@ = self.occupied@.remove(idx as int);
            vstd::set::axiom_set_remove_len(old_occ, idx as int);
            let locs = self.locations@;
            let archs = self.archetypes@;
            let ents = self.entities@;
            let old_locs = old(self).locations@;
            let old_ents = old(self).entities@;
            let last = old_arch.rows().len() - 1;
            let new_arch = archs[a as int];
            assert(new_arch.rows() == swap_removed(old_arch.rows(), row as int));
            assert(new_arch.rows().len() == last);
            assert(ents == old_ents.after_free(entity));
            // Columns follow the rows.
            assert forall|j: int| 0 <= j < new_arch.cols().len() implies
                (#[trigger] new_arch.cols()[j]).values() == swap_removed(old_arch.cols()[j].values(), row as int)
                && new_arch.cols()[j].values().len() == last by {
                assert(old_arch.cols()[j].values().len() == old_arch.rows().len());
            }
            assert(new_arch.types() =~= old_arch.types());
            assert forall|b: int| 0 <= b < archs.len() implies #[trigger] table_ok(archs, b) by {
                assert(table_ok(old_archs, b));
            }
            // The entity that moved, if any.
            let moved = old_arch.rows()[last];
            assert(row_ok(old_locs, old_archs, a as int, last));
            assert(row < last ==> locs[moved.index as int] == Some((a, row)));
            assert(row < last ==> moved.index != entity.index) by {
                if row < last && moved.index == entity.index {
                    assert(old_locs[moved.index as int] == Some((a, last as usize)));
                }
            }
            assert(locs[idx as int] is None);
            assert(distinct(ents.free_list)) by {
                assert(!old_ents.free_list.contains(idx as u32));
                assert forall|i: int, j: int| 0 <= i < ents.free_list.len() && 0 <= j < ents.free_list.len() && i != j
                    implies ents.free_list[i] != ents.free_list[j] by {
                    if i == old_ents.free_list.len() as int {
                        assert(old_ents.free_list[j] == ents.free_list[j]);
                    } else if j == old_ents.free_list.len() as int {
                        assert(old_ents.free_list[i] == ents.free_list[i]);
                    }
                }
            }
            assert forall|i: int| 0 <= i < locs.len() implies #[trigger] slot_ok(locs, archs, ents, self.occupied@, i) by {
                assert(slot_ok(old_locs, old_archs, old_ents, old_occ, i));
                assert(ents.free_list.contains(i as u32) == (old_ents.free_list.contains(i as u32) || i == idx as int)) by {
                    assert(ents.free_list == old_ents.free_list.push(entity.index));
                    assert(0 <= i <= u32::MAX);
                    assert((i as u32 == entity.index) == (i == idx as int));
                    lemma_push_contains(old_ents.free_list, entity.index, i as u32);
                }
                if i == idx as int {
                } else if row < last && i == moved.index as int {
                    lemma_swap_removed_index(old_arch.rows(), row as int, row as int);
                } else {
                    assert(locs[i] == old_locs[i]);
                    if old_locs[i] is Some {
                        let (b, rb) = old_locs[i]->0;
                        if b == a {
                            assert(old_arch.rows()[rb as int].index == i);
                            assert(rb != row);
                            assert(rb as int != last);
                            lemma_swap_removed_index(old_arch.rows(), row as int, rb as int);
                        }
                    }
                }
            }
            assert forall|b: int, rb: int| 0 <= b < archs.len() && 0 <= rb < archs[b].rows().len()
                implies #[trigger] row_ok(locs, archs, b, rb) by {
                if b == a as int {
                    lemma_swap_removed_index(old_arch.rows(), row as int, rb);
                    if rb == row as int {
                        assert(archs[b].rows()[rb] == moved);
                    } else {
                        assert(archs[b].rows()[rb] == old_arch.rows()[rb]);
                        assert(row_ok(old_locs, old_archs, b, rb));
                        assert(old_arch.rows()[rb] != old_arch.rows()[row as int]);
                        assert(old_arch.rows()[rb].index != entity.index);
                        assert(old_arch.rows()[rb] != moved);
                        assert(old_arch.rows()[rb].index != moved.index) by {
                            if old_arch.rows()[rb].index == moved.index {
                                assert(old_locs[moved.index as int] == Some((a, last as usize)));
                            }
                        }
                    }
                } else {
                    assert(row_ok(old_locs, old_archs, b, rb));
                    let x = old_archs[b].rows()[rb];
                    assert(old_locs[idx as int] == Some((a, row)));
                    assert(old_locs[x.index as int] == Some((b as usize, rb as usize)));
                    assert(archs.len() == self.archetypes.len());
                    assert(b as usize != a);
                    assert(x.index != entity.index);
                    assert(row < last ==> x.index != moved.index) by {
                        if row < last && x.index == moved.index {
                            assert(old_locs[x.index as int] == Some((a, last as usize)));
                        }
                    }
                }
            }
            assert forall|i: int| #[trigger] self.occupied@.contains(i) implies 0 <= i < locs.len() by {
                assert(old_occ.contains(i));
            }
            // Components of the other entities are unchanged.
            assert forall|x: Entity| #[trigger] self.components().contains_key(x) implies
                x != entity && old(self).components().contains_key(x) && self.components()[x] == old(self).components()[x] by {
                assert(x.index != entity.index);
                assert(slot_ok(locs, archs, ents, self.occupied@, x.index as int));
                assert(old_locs[x.index as int] is Some) by {
                    if !(row < last && x.index == moved.index) {
                        assert(locs[x.index as int] == old_locs[x.index as int]);
                    }
                }
                assert(ents.generations[x.index as int] == old_ents.generations[x.index as int]);
                let (b, rb) = locs[x.index as int]->0;
                let (ob, orb) = old_locs[x.index as int]->0;
                if b == a {
                    assert(ob == a);
                    let nr = row_components(archs[a as int], rb as int);
                    let orc = row_components(old_arch, orb as int);
                    assert forall|t: ComponentTypeId| #[trigger] nr.contains_key(t) implies orc.contains_key(t) && nr[t] == orc[t] by {
                        let j = new_arch.types().index_of(t);
                        assert(new_arch.types()[j] == t);
                        assert(old_arch.cols()[j].values().len() == old_arch.rows().len());
                        lemma_swap_removed_index(old_arch.cols()[j].values(), row as int, rb as int);
                        if rb == row {
                            assert(orb as int == last) by {
                                assert(old_locs[moved.index as int] == Some((a, last as usize)));
                            }
                        } else {
                            assert(locs[x.index as int] == old_locs[x.index as int]);
                        }
                    }
                    assert(nr =~= orc);
                } else {
                    assert(locs[x.index as int] == old_locs[x.index as int]);
                }
            }
            assert forall|x: Entity| #[trigger] old(self).components().contains_key(x) && x != entity implies
                self.components().contains_key(x) by {
                assert(x.index != entity.index) by {
                    if x.index == entity.index {
                        assert(old_ents.generations[idx as int] == entity.generation);
                        assert(x.generation == entity.generation);
                        assert(x == entity);
                    }
                }
                assert(ents.generations[x.index as int] == old_ents.generations[x.index as int]);
                if !(row < last && x.index == moved.index) {
                    assert(locs[x.index as int] == old_locs[x.index as int]);
                }
            }
            assert(self.components() =~= old(self).components().remove(entity));
            assert(ents.free_list.len() > 0);
        }
        true
    }

    /// Returns the archetype whose component types are exactly those of
    /// `target`, creating it (with empty columns, as the last archetype)
    /// if there is none.
    fn find_or_create_archetype(&mut self, target: &Vec<ComponentTypeId>) -> (r: ArchetypeId)
        requires
            old(self).wf(),
            distinct(target@),
        ensures
            final(self).wf(),
            final(self).frame_clock() == old(self).frame_clock(),
            r < final(self).tables().len(),
            same_types(final(self).tables()[r as int].types(), target@),
            final(self).components() == old(self).components(),
            final(self).tables().len() >= old(self).tables().len(),
            forall|b: int| 0 <= b < old(self).tables().len() ==> #[trigger] final(self).tables()[b] == old(self).tables()[b],
            r >= old(self).tables().len() ==> final(self).tables()[r as int].rows().len() == 0,
            final(self).locs() == old(self).locs(),
            final(self).entities == old(self).entities,
            final(self).resources == old(self).resources,
            final(self).occupied == old(self).occupied,
            final(self).count() == old(self).count(),
            final(self).can_spawn() == old(self).can_spawn(),
    {
        let n = self.archetypes.len();
        let mut a: usize = 0;
        while a < n
            invariant
                *self == *old(self),
                self.wf(),
                n == self.archetypes@.len(),
                a <= n,
            decreases n - a,
        {
            let types = self.archetypes[a].component_types();
            if same_type_set(&types, target) {
                return a;
            }
            a = a + 1;
        }
        let mut columns: Vec<ComponentColumn<V>> = Vec::new();
        let mut k: usize = 0;
        while k < target.len()
            invariant
                k <= target@.len(),
                columns@.len() == k,
                forall|j: int| 0 <= j < k ==> (#[trigger] columns@[j]).column_type() == target@[j] && columns@[j].values().len() == 0,
            decreases target@.len() - k,
        {
            columns.push(ComponentColumn::new(target[k]));
            k = k + 1;
        }
        assert(column_types(columns@) =~= target@);
        let arch = Archetype::new(n, columns);
        let ghost old_archs = self.archetypes@;
        self.archetypes.push(arch);
        proof {
            let archs = self.archetypes@;
            assert(archs[n as int].types() =~= target@);
            assert forall|b: int| 0 <= b < archs.len() implies #[trigger] table_ok(archs, b) by {
                if b < n {
                    assert(table_ok(old_archs, b));
                }
            }
            assert forall|i: int| 0 <= i < self.locations@.len() implies #[trigger] slot_ok(
                self.locations@,
                archs,
                self.entities@,
                self.occupied@,
                i,
            ) by {
                assert(slot_ok(self.locations@, old_archs, self.entities@, self.occupied@, i));
            }
            assert forall|b: int, rb: int| 0 <= b < archs.len() && 0 <= rb < archs[b].rows().len()
                implies #[trigger] row_ok(self.locations@, archs, b, rb) by {
                assert(row_ok(self.locations@, old_archs, b, rb));
            }
            assert forall|x: Entity| #[trigger] self.components().contains_key(x) implies
                self.components()[x] == old(self).components()[x] by {
                assert(slot_ok(self.locations@, old_archs, self.entities@, self.occupied@, x.index as int));
            }
            assert(self.components() =~= old(self).components());
        }
        n
    }

    /// Moves `entity` from row `row` of archetype `src` to a new last row
    /// of archetype `dst`, carrying every component except `skip` (whose
    /// value is returned) and adding `extra`. The last row of `src` moves
    /// into the vacated row.
    #[verifier::spinoff_prover]
    #[verifier::rlimit(100)]
    fn migrate_entity(
        &mut self,
        entity: Entity,
        src: ArchetypeId,
        row: usize,
        dst: ArchetypeId,
        skip: Option<ComponentTypeId>,
        extra: Option<(ComponentTypeId, V)>,
    ) -> (removed: Option<V>)
        requires
            old(self).wf(),
            old(self).located(entity),
            old(self).locs()[entity.index as int] == Some((src, row)),
            dst < old(self).tables().len(),
            dst != src,
            skip matches Some(t) ==> old(self).tables()[src as int].types().contains(t),
            extra matches Some(p) ==> !old(self).tables()[src as int].types().contains(p.0),
            forall|t: ComponentTypeId|
                #[trigger] old(self).tables()[dst as int].types().contains(t) == in_target(
                    old(self).tables()[src as int].types(),
                    skip,
                    extra,
                    t,
                ),
        ensures
            final(self).wf(),
            final(self).frame_clock() == old(self).frame_clock(),
            final(self).components() == old(self).components().insert(
                entity,
                migrated(old(self).components()[entity], skip, extra),
            ),
            removed == (match skip {
                Some(t) => Some(old(self).components()[entity][t]),
                None => None,
            }),
            final(self).count() == old(self).count(),
            final(self).can_spawn() == old(self).can_spawn(),
            final(self).resources == old(self).resources,
    {
        let idx = entity.index as usize;
        let ghost old_archs = self.archetypes@;
        let ghost osrc = old_archs[src as int];
        let ghost odst = old_archs[dst as int];
        proof {
            assert(slot_ok(self.locations@, old_archs, self.entities@, self.occupied@, idx as int));
            assert(table_ok(old_archs, src as int));
            assert(table_ok(old_archs, dst as int));
        }
        let n_cols = self.archetypes[src].column_count();
        let src_types = self.archetypes[src].component_types();
        let mut removed: Option<V> = None;
        let mut k: usize = 0;
        while k < n_cols
            invariant
                src < old_archs.len(),
                dst < old_archs.len(),
                src != dst,
                osrc == old_archs[src as int],
                odst == old_archs[dst as int],
                table_ok(old_archs, src as int),
                table_ok(old_archs, dst as int),
                row < osrc.rows().len(),
                n_cols == osrc.cols().len(),
                src_types@ == osrc.types(),
                k <= n_cols,
                self.archetypes@.len() == old_archs.len(),
                forall|b: int| 0 <= b < old_archs.len() && b != src && b != dst ==> #[trigger] self.archetypes@[b] == old_archs[b],
                self.archetypes@[src as int].rows() == osrc.rows(),
                self.archetypes@[src as int].arch_id() == osrc.arch_id(),
                self.archetypes@[src as int].cols().len() == n_cols,
                self.archetypes@[src as int].types() == osrc.types(),
                forall|j: int| 0 <= j < k ==> (#[trigger] self.archetypes@[src as int].cols()[j]).values() == swap_removed(osrc.cols()[j].values(), row as int),
                forall|j: int| k <= j < n_cols ==> (#[trigger] self.archetypes@[src as int].cols()[j]).values() == osrc.cols()[j].values(),
                self.archetypes@[dst as int].rows() == odst.rows(),
                self.archetypes@[dst as int].arch_id() == odst.arch_id(),
                self.archetypes@[dst as int].cols().len() == odst.cols().len(),
                self.archetypes@[dst as int].types() == odst.types(),
                forall|j: int| 0 <= j < odst.cols().len() ==> {
                    let t = #[trigger] odst.types()[j];
                    let ks = osrc.types().index_of(t);
                    if osrc.types().contains(t) && skip != Some(t) && ks < k {
                        self.archetypes@[dst as int].cols()[j].values() == odst.cols()[j].values().push(osrc.cols()[ks].values()[row as int])
                    } else {
                        self.archetypes@[dst as int].cols()[j].values() == odst.cols()[j].values()
                    }
                },
                match skip {
                    Some(t) => if osrc.types().index_of(t) < k {
                        removed == Some(osrc.cols()[osrc.types().index_of(t)].values()[row as int])
                    } else {
                        removed is None
                    },
                    None => removed is None,
                },
                forall|t: ComponentTypeId|
                    #[trigger] odst.types().contains(t) == in_target(osrc.types(), skip, extra, t),
                skip matches Some(t) ==> osrc.types().contains(t),
                self.locations@ == old(self).locations@,
                self.entities == old(self).entities,
                self.occupied@ == old(self).occupied@,
                self.resources == old(self).resources,
                self.clock == old(self).clock,
            decreases n_cols - k,
        {
            proof {
                assert(osrc.cols()[k as int].values().len() == osrc.rows().len());
                lemma_index_of_distinct(osrc.types(), k as int);
            }
            let arch = &mut self.archetypes[src];
            let col = arch.column_at_mut(k);
            let v = col.swap_remove(row);
            let t = src_types[k];
            let is_skip = match &skip {
                Some(st) => st.same(&t),
                None => false,
            };
            if is_skip {
                removed = Some(v);
            } else {
                let dk = self.archetypes[dst].column_index(&t);
                match dk {
                    Some(dk) => {
                        proof {
                            assert(osrc.types().contains(t));
                            lemma_index_of_distinct(odst.types(), dk as int);
                        }
                        let darch = &mut self.archetypes[dst];
                        let dcol = darch.column_at_mut(dk);
                        dcol.push(v);
                    },
                    None => {
                        proof {
                            assert(osrc.types().contains(t));
                            assert(in_target(osrc.types(), skip, extra, t));
                            assert(odst.types().contains(t));
                        }
                    },
                }
            }
            proof {
                assert forall|j: int| 0 <= j < odst.cols().len() implies {
                    let t2 = #[trigger] odst.types()[j];
                    let ks = osrc.types().index_of(t2);
                    if osrc.types().contains(t2) && skip != Some(t2) && ks < k + 1 {
                        self.archetypes@[dst as int].cols()[j].values() == odst.cols()[j].values().push(osrc.cols()[ks].values()[row as int])
                    } else {
                        self.archetypes@[dst as int].cols()[j].values() == odst.cols()[j].values()
                    }
                } by {
                    let t2 = odst.types()[j];
                    if osrc.types().contains(t2) {
                        let ks = osrc.types().index_of(t2);
                        assert(osrc.types()[ks] == t2);
                        if ks == k as int && skip != Some(t2) {
                            lemma_index_of_distinct(odst.types(), j);
                        }
                    }
                }
            }
            k = k + 1;
        }
        proof {
            assert(self.archetypes@[src as int].types() =~= osrc.types());
            assert(osrc.wf());
        }
        let arch = &mut self.archetypes[src];
        let _ = arch.remove_entity(entity);
        let new_len = arch.len();
        if row < new_len {
            let swapped = self.archetypes[src].entities()[row];
            proof {
                lemma_swap_removed_index(osrc.rows(), row as int, row as int);
                assert(row_ok(old(self).locations@, old_archs, src as int, osrc.rows().len() - 1));
            }
            self.locations.set(swapped.index as usize, Some((src, row)));
        }
        proof {
            assert(odst.wf());
            assert(!odst.rows().contains(entity)) by {
                if odst.rows().contains(entity) {
                    let r2 = choose|r2: int| 0 <= r2 < odst.rows().len() && odst.rows()[r2] == entity;
                    assert(row_ok(old(self).locations@, old_archs, dst as int, r2));
                }
            }
            assert(self.archetypes@[dst as int].types() =~= odst.types());
        }
        let darch = &mut self.archetypes[dst];
        let dst_row = darch.add_entity(entity);
        let ghost pre_extra = self.archetypes@[dst as int];
        match extra {
            Some((et, ev)) => {
                let dk = self.archetypes[dst].column_index(&et);
                match dk {
                    Some(dk) => {
                        let darch = &mut self.archetypes[dst];
                        let dcol = darch.column_at_mut(dk);
                        dcol.push(ev);
                        proof {
                            lemma_index_of_distinct(odst.types(), dk as int);
                            assert(!osrc.types().contains(et));
                        }
                    },
                    None => {
                        proof {
                            assert(in_target(osrc.types(), skip, extra, et));
                        }
                    },
                }
            },
            None => {},
        }
        self.locations.set(idx, Some((dst, dst_row)));
        proof {
            let locs = self.locations@;
            let archs = self.archetypes@;
            let ents = self.entities@;
            let old_locs = old(self).locations@;
            let occ = self.occupied@;
            let last = osrc.rows().len() - 1;
            let big: int = odst.rows().len() as int;
            let moved = osrc.rows()[last];
            let nsrc = archs[src as int];
            let ndst = archs[dst as int];
            assert(nsrc.rows() == swap_removed(osrc.rows(), row as int));
            assert(nsrc.rows().len() == last);
            assert(ndst.rows() == odst.rows().push(entity));
            assert(dst_row as int == big);
            assert(nsrc.types() =~= osrc.types());
            assert(ndst.types() =~= odst.types());
            // Every column of the destination, after the move.
            assert forall|j: int| 0 <= j < ndst.cols().len() implies {
                let t = #[trigger] odst.types()[j];
                let ks = osrc.types().index_of(t);
                &&& ndst.cols()[j].values().len() == big + 1
                &&& forall|q: int| 0 <= q < big ==> ndst.cols()[j].values()[q] == odst.cols()[j].values()[q]
                &&& (osrc.types().contains(t) && skip != Some(t) ==> ndst.cols()[j].values()[big] == osrc.cols()[ks].values()[row as int])
                &&& (extra is Some && (extra->0).0 == t ==> ndst.cols()[j].values()[big] == (extra->0).1)
            } by {
                let t = odst.types()[j];
                assert(odst.cols()[j].values().len() == big);
                assert(odst.types().contains(t));
                if osrc.types().contains(t) && skip != Some(t) {
                    let ks = osrc.types().index_of(t);
                    assert(osrc.types()[ks] == t);
                    assert(ks < n_cols);
                    if let Some(p) = extra {
                        assert(p.0 != t);
                    }
                } else {
                    assert(extra is Some && (extra->0).0 == t);
                }
            }
            assert forall|j: int| 0 <= j < nsrc.cols().len() implies
                (#[trigger] nsrc.cols()[j]).values() == swap_removed(osrc.cols()[j].values(), row as int)
                && nsrc.cols()[j].values().len() == last by {
                assert(osrc.cols()[j].values().len() == osrc.rows().len());
            }
            assert forall|b: int| 0 <= b < archs.len() implies #[trigger] table_ok(archs, b) by {
                assert(table_ok(old_archs, b));
                if b == dst as int {
                    assert forall|j: int| 0 <= j < ndst.cols().len() implies (#[trigger] ndst.cols()[j]).values().len() == ndst.rows().len() by {
                        let t = odst.types()[j];
                    }
                }
            }
            // Where the entity that moved inside the source now is.
            assert(row_ok(old_locs, old_archs, src as int, last));
            assert(row < last ==> moved.index != entity.index) by {
                if row < last && moved.index == entity.index {
                    assert(old_locs[moved.index as int] == Some((src, last as usize)));
                }
            }
            assert(locs[idx as int] == Some((dst, dst_row)));
            assert(row < last ==> locs[moved.index as int] == Some((src, row)));
            assert(archs.len() == self.archetypes.len());
            assert forall|i: int| 0 <= i < locs.len() && i != idx as int && !(row < last && i == moved.index as int)
                implies #[trigger] locs[i] == old_locs[i] by {
            }
            assert forall|i: int| 0 <= i < locs.len() implies #[trigger] slot_ok(locs, archs, ents, occ, i) by {
                assert(slot_ok(old_locs, old_archs, ents, occ, i));
                if i == idx as int {
                    assert(ndst.rows()[big] == entity);
                } else if row < last && i == moved.index as int {
                    lemma_swap_removed_index(osrc.rows(), row as int, row as int);
                } else {
                    assert(locs[i] == old_locs[i]);
                    if old_locs[i] is Some {
                        let (b, rb) = old_locs[i]->0;
                        if b == src {
                            assert(osrc.rows()[rb as int].index == i);
                            assert(rb != row);
                            assert(rb as int != last);
                            lemma_swap_removed_index(osrc.rows(), row as int, rb as int);
                        } else if b == dst {
                            assert(ndst.rows()[rb as int] == odst.rows()[rb as int]);
                        }
                    }
                }
            }
            assert forall|b: int, rb: int| 0 <= b < archs.len() && 0 <= rb < archs[b].rows().len()
                implies #[trigger] row_ok(locs, archs, b, rb) by {
                if b == src as int {
                    lemma_swap_removed_index(osrc.rows(), row as int, rb);
                    if rb == row as int {
                        assert(archs[b].rows()[rb] == moved);
                    } else {
                        assert(archs[b].rows()[rb] == osrc.rows()[rb]);
                        assert(row_ok(old_locs, old_archs, b, rb));
                        assert(osrc.rows()[rb] != osrc.rows()[row as int]);
                        assert(osrc.rows()[rb].index != entity.index) by {
                            if osrc.rows()[rb].index == entity.index {
                                assert(old_locs[idx as int] == Some((src, row)));
                            }
                        }
                        assert(osrc.rows()[rb].index != moved.index) by {
                            if osrc.rows()[rb].index == moved.index {
                                assert(old_locs[moved.index as int] == Some((src, last as usize)));
                            }
                        }
                    }
                } else if b == dst as int && rb == big as int {
                    assert(archs[b].rows()[rb] == entity);
                } else {
                    assert(archs[b].rows()[rb] == old_archs[b].rows()[rb]);
                    assert(row_ok(old_locs, old_archs, b, rb));
                    let x = old_archs[b].rows()[rb];
                    assert(old_locs[idx as int] == Some((src, row)));
                    assert(old_locs[x.index as int] == Some((b as usize, rb as usize)));
                    assert(b as usize != src);
                    assert(x.index != entity.index);
                    assert(row < last ==> x.index != moved.index) by {
                        if row < last && x.index == moved.index {
                            assert(old_locs[x.index as int] == Some((src, last as usize)));
                        }
                    }
                }
            }
            // Components.
            let oc = old(self).components();
            let newmap = migrated(oc[entity], skip, extra);
            assert(oc.contains_key(entity));
            assert(oc[entity] == row_components(osrc, row as int));
            assert(self.components().contains_key(entity));
            assert(self.components()[entity] =~= newmap) by {
                let rc = row_components(ndst, big as int);
                assert(self.components()[entity] == rc);
                assert forall|t: ComponentTypeId| #[trigger] rc.contains_key(t) == newmap.contains_key(t) by {
                    assert(ndst.types().contains(t) == odst.types().contains(t));
                    assert(odst.types().contains(t) == in_target(osrc.types(), skip, extra, t));
                }
                assert forall|t: ComponentTypeId| #[trigger] rc.contains_key(t) implies rc[t] == newmap[t] by {
                    let j = ndst.types().index_of(t);
                    assert(ndst.types()[j] == t);
                    assert(odst.types()[j] == t);
                    if extra is Some && (extra->0).0 == t {
                    } else {
                        let ks = osrc.types().index_of(t);
                        assert(osrc.types()[ks] == t);
                    }
                }
            }
            assert forall|x: Entity| #[trigger] self.components().contains_key(x) && x != entity implies
                oc.contains_key(x) && self.components()[x] == oc[x] by {
                assert(x.index != entity.index);
                assert(slot_ok(locs, archs, ents, occ, x.index as int));
                assert(old_locs[x.index as int] is Some) by {
                    if !(row < last && x.index == moved.index) {
                        assert(locs[x.index as int] == old_locs[x.index as int]);
                    }
                }
                let (b, rb) = locs[x.index as int]->0;
                let (ob, orb) = old_locs[x.index as int]->0;
                if row < last && x.index == moved.index {
                    assert(ob == src && orb as int == last);
                    let nr = row_components(nsrc, row as int);
                    let orc = row_components(osrc, last);
                    assert forall|t: ComponentTypeId| #[trigger] nr.contains_key(t) implies orc.contains_key(t) && nr[t] == orc[t] by {
                        let j = nsrc.types().index_of(t);
                        assert(nsrc.types()[j] == t);
                        assert(osrc.cols()[j].values().len() == osrc.rows().len());
                        lemma_swap_removed_index(osrc.cols()[j].values(), row as int, row as int);
                    }
                    assert(nr =~= orc);
                } else {
                    assert(locs[x.index as int] == old_locs[x.index as int]);
                    if b == src {
                        assert(osrc.rows()[rb as int].index == x.index);
                        assert(rb != row);
                        assert(rb as int != last);
                        let nr = row_components(nsrc, rb as int);
                        let orc = row_components(osrc, rb as int);
                        assert forall|t: ComponentTypeId| #[trigger] nr.contains_key(t) implies orc.contains_key(t) && nr[t] == orc[t] by {
                            let j = nsrc.types().index_of(t);
                            assert(nsrc.types()[j] == t);
                            assert(osrc.cols()[j].values().len() == osrc.rows().len());
                            lemma_swap_removed_index(osrc.cols()[j].values(), row as int, rb as int);
                        }
                        assert(nr =~= orc);
                    } else if b == dst {
                        assert(rb < big);
                        let nr = row_components(ndst, rb as int);
                        let orc = row_components(odst, rb as int);
                        assert forall|t: ComponentTypeId| #[trigger] nr.contains_key(t) implies orc.contains_key(t) && nr[t] == orc[t] by {
                            let j = ndst.types().index_of(t);
                            assert(ndst.types()[j] == t);
                            assert(odst.types()[j] == t);
                        }
                        assert(nr =~= orc);
                    }
                }
            }
            assert forall|x: Entity| #[trigger] oc.contains_key(x) && x != entity implies
                self.components().contains_key(x) by {
                assert(x.index != entity.index) by {
                    if x.index == entity.index {
                        assert(x.generation == entity.generation);
                        assert(x == entity);
                    }
                }
                if !(row < last && x.index == moved.index) {
                    assert(locs[x.index as int] == old_locs[x.index as int]);
                }
            }
            assert(self.components() =~= oc.insert(entity, newmap));
            if let Some(t) = skip {
                let ks = osrc.types().index_of(t);
                assert(osrc.types()[ks] == t);
                assert(ks < n_cols);
            }
        }
        removed
    }

    /// `w1` is `w0` with at most the value in row `row` of column `k` of
    /// archetype `a` changed.
    pub closed spec fn slot_written(w0: World<V>, w1: World<V>, a: int, row: int, k: int) -> bool {
        let o = w0.archetypes@[a];
        let n = w1.archetypes@[a];
        &&& w1.entities == w0.entities
        &&& w1.locations@ == w0.locations@
        &&& w1.occupied == w0.occupied
        &&& w1.resources == w0.resources
        &&& w1.clock == w0.clock
        &&& w1.archetypes@.len() == w0.archetypes@.len()
        &&& forall|b: int| 0 <= b < w0.archetypes@.len() && b != a ==> #[trigger] w1.archetypes@[b] == w0.archetypes@[b]
        &&& n.rows() == o.rows()
        &&& n.arch_id() == o.arch_id()
        &&& n.cols().len() == o.cols().len()
        &&& forall|j: int| 0 <= j < o.cols().len() && j != k ==> #[trigger] n.cols()[j] == o.cols()[j]
        &&& n.cols()[k].column_type() == o.cols()[k].column_type()
        &&& n.cols()[k].values() == o.cols()[k].values().update(row, n.cols()[k].values()[row])
    }

    /// Writing the value of one component of a living entity keeps the
    /// world well formed and changes only that component.
    proof fn lemma_slot_written(w0: World<V>, entity: Entity, a: ArchetypeId, row: usize, k: usize)
        requires
            w0.wf(),
            w0.located(entity),
            w0.locs()[entity.index as int] == Some((a, row)),
            k < w0.tables()[a as int].types().len(),
        ensures
            forall|w1: World<V>|
                #![trigger Self::slot_written(w0, w1, a as int, row as int, k as int)]
                #![trigger w1.wf()]
                #![trigger w1.components()]
                Self::slot_written(w0, w1, a as int, row as int, k as int) ==> {
                &&& w1.wf()
                &&& w1.components() == w0.components().insert(
                    entity,
                    w0.components()[entity].insert(
                        w0.tables()[a as int].types()[k as int],
                        w1.tables()[a as int].cols()[k as int].values()[row as int],
                    ),
                )
                &&& w1.count() == w0.count()
                &&& w1.can_spawn() == w0.can_spawn()
                &&& w1.resource_map() == w0.resource_map()
            },
    {
        let old_archs = w0.archetypes@;
        let oa = old_archs[a as int];
        assert(slot_ok(w0.locations@, old_archs, w0.entities@, w0.occupied@, entity.index as int));
        assert(table_ok(old_archs, a as int));
        assert(oa.cols()[k as int].values().len() == oa.rows().len());
        lemma_index_of_distinct(oa.types(), k as int);
        assert forall|w1: World<V>| #[trigger] Self::slot_written(w0, w1, a as int, row as int, k as int) implies {
            &&& w1.wf()
            &&& w1.components() == w0.components().insert(
                entity,
                w0.components()[entity].insert(
                    w0.tables()[a as int].types()[k as int],
                    w1.tables()[a as int].cols()[k as int].values()[row as int],
                ),
            )
            &&& w1.count() == w0.count()
            &&& w1.can_spawn() == w0.can_spawn()
            &&& w1.resource_map() == w0.resource_map()
        } by {
            let archs = w1.archetypes@;
            let na = archs[a as int];
            let t = oa.types()[k as int];
            let value = na.cols()[k as int].values()[row as int];
            assert(na.types() =~= oa.types()) by {
                assert forall|j: int| 0 <= j < oa.cols().len() implies na.types()[j] == oa.types()[j] by {
                    if j != k as int {
                        assert(na.cols()[j] == oa.cols()[j]);
                    }
                }
            }
            assert forall|b: int| 0 <= b < archs.len() implies #[trigger] table_ok(archs, b) by {
                assert(table_ok(old_archs, b));
                if b == a as int {
                    assert forall|j: int| 0 <= j < na.cols().len() implies (#[trigger] na.cols()[j]).values().len() == na.rows().len() by {
                        assert(oa.cols()[j].values().len() == oa.rows().len());
                        if j != k as int {
                            assert(na.cols()[j] == oa.cols()[j]);
                        }
                    }
                } else {
                    assert(archs[b] == old_archs[b]);
                }
            }
            assert forall|i: int| 0 <= i < w1.locations@.len() implies #[trigger] slot_ok(
                w1.locations@, archs, w1.entities@, w1.occupied@, i) by {
                assert(slot_ok(w0.locations@, old_archs, w0.entities@, w0.occupied@, i));
                if w0.locations@[i] is Some {
                    let (b, rb) = w0.locations@[i]->0;
                    if b != a {
                        assert(archs[b as int] == old_archs[b as int]);
                    }
                }
            }
            assert forall|b: int, rb: int| 0 <= b < archs.len() && 0 <= rb < archs[b].rows().len()
                implies #[trigger] row_ok(w1.locations@, archs, b, rb) by {
                if b != a as int {
                    assert(archs[b] == old_archs[b]);
                }
                assert(row_ok(w0.locations@, old_archs, b, rb));
            }
            let oc = w0.components();
            assert forall|x: Entity| #[trigger] w1.components().contains_key(x) && x != entity implies
                oc.contains_key(x) && w1.components()[x] == oc[x] by {
                assert(slot_ok(w0.locations@, old_archs, w0.entities@, w0.occupied@, x.index as int));
                let (b, rb) = w1.locations@[x.index as int]->0;
                if b == a {
                    assert(rb != row);
                    let nr = row_components(na, rb as int);
                    let orc = row_components(oa, rb as int);
                    assert forall|t2: ComponentTypeId| #[trigger] nr.contains_key(t2) implies orc.contains_key(t2) && nr[t2] == orc[t2] by {
                        let j = na.types().index_of(t2);
                        assert(na.types()[j] == t2);
                        if j != k as int {
                            assert(na.cols()[j] == oa.cols()[j]);
                        }
                    }
                    assert(nr =~= orc);
                } else {
                    assert(archs[b as int] == old_archs[b as int]);
                }
            }
            assert forall|x: Entity| #[trigger] oc.contains_key(x) implies w1.components().contains_key(x) by {
            }
            assert(w1.components().contains_key(entity));
            assert(w1.components()[entity] =~= oc[entity].insert(t, value)) by {
                let nr = row_components(na, row as int);
                let orc = row_components(oa, row as int);
                assert forall|t2: ComponentTypeId| #[trigger] nr.contains_key(t2) implies nr[t2] == orc.insert(t, value)[t2] by {
                    let j = na.types().index_of(t2);
                    assert(na.types()[j] == t2);
                    if t2 == t {
                        assert(j == k as int);
                    } else {
                        assert(na.cols()[j] == oa.cols()[j]);
                    }
                }
            }
            assert(w1.components() =~= oc.insert(entity, oc[entity].insert(t, value)));
        }
    }

    /// Overwrites, in place, the value in column `k` of row `row` of
    /// archetype `a`, where `entity` lives.
    fn overwrite_component(&mut self, entity: Entity, a: ArchetypeId, row: usize, k: usize, value: V)
        requires
            old(self).wf(),
            old(self).located(entity),
            old(self).locs()[entity.index as int] == Some((a, row)),
            k < old(self).tables()[a as int].types().len(),
        ensures
            final(self).wf(),
            final(self).frame_clock() == old(self).frame_clock(),
            final(self).components() == old(self).components().insert(
                entity,
                old(self).components()[entity].insert(old(self).tables()[a as int].types()[k as int], value),
            ),
            final(self).count() == old(self).count(),
            final(self).can_spawn() == old(self).can_spawn(),
            final(self).resource_map() == old(self).resource_map(),
    {
        proof {
            Self::lemma_slot_written(*self, entity, a, row, k);
            assert(slot_ok(self.locations@, self.archetypes@, self.entities@, self.occupied@, entity.index as int));
            assert(table_ok(self.archetypes@, a as int));
            assert(self.archetypes@[a as int].cols()[k as int].values().len() == self.archetypes@[a as int].rows().len());
        }
        let ghost w0 = *self;
        let arch = &mut self.archetypes[a];
        let col = arch.column_at_mut(k);
        let _prev = col.replace(row, value);
        proof {
            assert(Self::slot_written(w0, *self, a as int, row as int, k as int));
        }
    }

    /// Inserts a component on a living entity, replacing the value of its
    /// type if the entity has one; otherwise the entity moves to the
    /// archetype of its type set with this type added. A stale handle is
    /// ignored.
    pub fn insert_component(&mut self, entity: Entity, type_id: ComponentTypeId, component: V)
        requires
            old(self).wf(),
        ensures
            final(self).wf(),
            final(self).frame_clock() == old(self).frame_clock(),
            final(self).components() == if old(self).components().contains_key(entity) {
                old(self).components().insert(entity, old(self).components()[entity].insert(type_id, component))
            } else {
                old(self).components()
            },
            final(self).count() == old(self).count(),
            final(self).can_spawn() == old(self).can_spawn(),
            final(self).resource_map() == old(self).resource_map(),
    {
        proof {
            self.lemma_alive_is_located(entity);
        }
        if !self.entities.is_alive(entity) {
            return;
        }
        let (a, row) = match self.locations[entity.index as usize] {
            Some(loc) => loc,
            None => {
                return;
            },
        };
        proof {
            assert(slot_ok(self.locations@, self.archetypes@, self.entities@, self.occupied@, entity.index as int));
            assert(table_ok(self.archetypes@, a as int));
        }
        match self.archetypes[a].column_index(&type_id) {
            Some(k) => {
                self.overwrite_component(entity, a, row, k, component);
            },
            None => {
                let mut target = self.archetypes[a].component_types();
                let ghost src_types = target@;
                target.push(type_id);
                proof {
                    assert(distinct(target@)) by {
                        assert forall|i: int, j: int| 0 <= i < target@.len() && 0 <= j < target@.len() && i != j
                            implies target@[i] != target@[j] by {
                            if j == src_types.len() as int {
                                assert(src_types.contains(target@[i]));
                            } else if i == src_types.len() as int {
                                assert(src_types.contains(target@[j]));
                            }
                        }
                    }
                }
                let dst = self.find_or_create_archetype(&target);
                proof {
                    let dt = self.tables()[dst as int].types();
                    assert forall|t: ComponentTypeId| #[trigger] dt.contains(t) == in_target(
                        src_types, None, Some((type_id, component)), t) by {
                        lemma_push_contains(src_types, type_id, t);
                    }
                    assert(target@.contains(type_id)) by {
                        lemma_push_contains(src_types, type_id, type_id);
                    }
                    assert(dst != a);
                }
                let _ = self.migrate_entity(entity, a, row, dst, None, Some((type_id, component)));
            },
        }
    }

    /// Removes the component of the given type from a living entity,
    /// moving the entity to the archetype of its remaining types, and
    /// returns it; `None` if the entity is not alive or has no such
    /// component.
    pub fn remove_component(&mut self, entity: Entity, type_id: ComponentTypeId) -> (r: Option<V>)
        requires
            old(self).wf(),
        ensures
            final(self).wf(),
            final(self).frame_clock() == old(self).frame_clock(),
            r is Some == (old(self).components().contains_key(entity)
                && old(self).components()[entity].contains_key(type_id)),
            match r {
                Some(v) => {
                    &&& v == old(self).components()[entity][type_id]
                    &&& final(self).components() == old(self).components().insert(
                        entity,
                        old(self).components()[entity].remove(type_id),
                    )
                },
                None => final(self).components() == old(self).components(),
            },
            final(self).count() == old(self).count(),
            final(self).can_spawn() == old(self).can_spawn(),
            final(self).resource_map() == old(self).resource_map(),
    {
        proof {
            self.lemma_alive_is_located(entity);
        }
        if !self.entities.is_alive(entity) {
            return None;
        }
        let (a, row) = match self.locations[entity.index as usize] {
            Some(loc) => loc,
            None => {
                return None;
            },
        };
        proof {
            assert(slot_ok(self.locations@, self.archetypes@, self.entities@, self.occupied@, entity.index as int));
            assert(table_ok(self.archetypes@, a as int));
        }
        if !self.archetypes[a].has_component(type_id) {
            return None;
        }
        let src_types = self.archetypes[a].component_types();
        let mut target: Vec<ComponentTypeId> = Vec::new();
        let mut k: usize = 0;
        while k < src_types.len()
            invariant
                k <= src_types@.len(),
                distinct(src_types@),
                distinct(target@),
                forall|t: ComponentTypeId| #[trigger] target@.contains(t) == (
                    src_types@.subrange(0, k as int).contains(t) && t != type_id),
            decreases src_types@.len() - k,
        {
            let t = src_types[k];
            proof {
                assert forall|t2: ComponentTypeId| #[trigger] src_types@.subrange(0, k + 1).contains(t2) == (
                    src_types@.subrange(0, k as int).contains(t2) || t2 == t) by {
                    assert(src_types@.subrange(0, k + 1) =~= src_types@.subrange(0, k as int).push(t));
                    lemma_push_contains(src_types@.subrange(0, k as int), t, t2);
                }
                assert(!src_types@.subrange(0, k as int).contains(t)) by {
                    if src_types@.subrange(0, k as int).contains(t) {
                        let j = choose|j: int| 0 <= j < k && src_types@.subrange(0, k as int)[j] == t;
                        assert(src_types@[j] == src_types@[k as int]);
                    }
                }
            }
            if !t.same(&type_id) {
                let ghost before = target@;
                target.push(t);
                proof {
                    assert forall|t2: ComponentTypeId| #[trigger] target@.contains(t2) == (before.contains(t2) || t2 == t) by {
                        lemma_push_contains(before, t, t2);
                    }
                    assert(distinct(target@)) by {
                        assert forall|i: int, j: int| 0 <= i < target@.len() && 0 <= j < target@.len() && i != j
                            implies target@[i] != target@[j] by {
                            if j == before.len() as int {
                                assert(before.contains(target@[i]));
                            } else if i == before.len() as int {
                                assert(before.contains(target@[j]));
                            }
                        }
                    }
                }
            }
            k = k + 1;
        }
        proof {
            assert(src_types@.subrange(0, src_types@.len() as int) =~= src_types@);
        }
        let dst = self.find_or_create_archetype(&target);
        proof {
            let dt = self.tables()[dst as int].types();
            assert forall|t: ComponentTypeId| #[trigger] dt.contains(t) == in_target::<V>(
                src_types@, Some(type_id), None, t) by {
            }
            assert(dst != a) by {
                if dst == a {
                    assert(dt.contains(type_id));
                }
            }
        }
        let removed = self.migrate_entity(entity, a, row, dst, Some(type_id), None);
        removed
    }

    /// Returns the component of the given type of a living entity mutably,
    /// if it has one.
    pub fn get_component_mut(&mut self, entity: Entity, type_id: ComponentTypeId) -> (r: Option<&mut V>)
        requires
            old(self).wf(),
        ensures
            final(self).wf(),
            final(self).frame_clock() == old(self).frame_clock(),
            r is Some == (old(self).components().contains_key(entity)
                && old(self).components()[entity].contains_key(type_id)),
            r matches Some(v) ==> *v == old(self).components()[entity][type_id],
            r matches Some(v) ==> final(self).components() == old(self).components().insert(
                        entity,
                        old(self).components()[entity].insert(type_id, *final(v)),
                    ),
            r is None ==> final(self).components() == old(self).components(),
            final(self).count() == old(self).count(),
            final(self).can_spawn() == old(self).can_spawn(),
            final(self).resource_map() == old(self).resource_map(),
    {
        proof {
            self.lemma_alive_is_located(entity);
        }
        if !self.entities.is_alive(entity) {
            return None;
        }
        let (a, row) = match self.locations[entity.index as usize] {
            Some(loc) => loc,
            None => {
                return None;
            },
        };
        proof {
            assert(slot_ok(self.locations@, self.archetypes@, self.entities@, self.occupied@, entity.index as int));
            assert(table_ok(self.archetypes@, a as int));
        }
        match self.archetypes[a].column_index(&type_id) {
            Some(k) => {
                proof {
                    Self::lemma_slot_written(*self, entity, a, row, k);
                    let oa = self.archetypes@[a as int];
                    lemma_index_of_distinct(oa.types(), k as int);
                    assert(oa.cols()[k as int].values().len() == oa.rows().len());
                }
                let arch = &mut self.archetypes[a];
                let col = arch.column_at_mut(k);
                let r = col.get_mut(row);
                r
            },
            None => None,
        }
    }

    /// `e` is a living entity with components of both types `a` and `b`
    /// (pass the same type twice to ask for one).
    pub open spec fn has_both(&self, e: Entity, a: ComponentTypeId, b: ComponentTypeId) -> bool {
        &&& self.components().contains_key(e)
        &&& self.components()[e].contains_key(a)
        &&& self.components()[e].contains_key(b)
    }

    /// `p` names a row of an archetype.
    pub closed spec fn valid_position(&self, p: (ArchetypeId, usize)) -> bool {
        &&& p.0 < self.archetypes@.len()
        &&& p.1 < self.archetypes@[p.0 as int].rows().len()
    }

    /// The entity stored at a position.
    pub closed spec fn entity_at(&self, p: (ArchetypeId, usize)) -> Entity {
        self.archetypes@[p.0 as int].rows()[p.1 as int]
    }

    /// Where a living entity's components are stored: its archetype and
    /// its row there. Queries list entities in this order.
    pub closed spec fn storage_position(&self, e: Entity) -> (ArchetypeId, usize) {
        self.locations@[e.index as int]->0
    }

    /// The entity at a valid position is alive, its components are the
    /// row's, and no other position holds it.
    proof fn lemma_position(&self, p: (ArchetypeId, usize))
        requires
            self.wf(),
            self.valid_position(p),
        ensures
            self.components().contains_key(self.entity_at(p)),
            self.components()[self.entity_at(p)] == row_components(self.archetypes@[p.0 as int], p.1 as int),
            forall|q: (ArchetypeId, usize)| #[trigger] self.valid_position(q) && self.entity_at(q) == self.entity_at(p) ==> q == p,
            self.storage_position(self.entity_at(p)) == p,
    {
        let e = self.entity_at(p);
        assert(row_ok(self.locations@, self.archetypes@, p.0 as int, p.1 as int));
        assert(slot_ok(self.locations@, self.archetypes@, self.entities@, self.occupied@, e.index as int));
        assert forall|q: (ArchetypeId, usize)| #[trigger] self.valid_position(q) && self.entity_at(q) == self.entity_at(p) implies q == p by {
            assert(row_ok(self.locations@, self.archetypes@, q.0 as int, q.1 as int));
        }
    }

    /// A living entity sits at some valid position.
    proof fn lemma_located(&self, e: Entity) -> (p: (ArchetypeId, usize))
        requires
            self.wf(),
            self.components().contains_key(e),
        ensures
            self.valid_position(p),
            self.entity_at(p) == e,
            self.components()[e] == row_components(self.archetypes@[p.0 as int], p.1 as int),
    {
        assert(slot_ok(self.locations@, self.archetypes@, self.entities@, self.occupied@, e.index as int));
        self.locations@[e.index as int]->0
    }

    /// The positions of all entities whose archetype holds both types, each
    /// once, archetype by archetype and row by row.
    fn matching_positions(&self, a: ComponentTypeId, b: ComponentTypeId) -> (r: Vec<(ArchetypeId, usize)>)
        requires
            self.wf(),
        ensures
            forall|i: int| 0 <= i < r@.len() ==> #[trigger] self.valid_position(r@[i]),
            forall|i: int| 0 <= i < r@.len() ==> #[trigger] self.has_both(self.entity_at(r@[i]), a, b),
            forall|i: int, j: int| 0 <= i < r@.len() && 0 <= j < r@.len() && i != j ==> r@[i] != r@[j],
            forall|p: (ArchetypeId, usize)| #[trigger] self.valid_position(p) && self.has_both(self.entity_at(p), a, b) ==> r@.contains(p),
            forall|i: int, j: int| 0 <= i < j < r@.len() ==> position_before(#[trigger] r@[i], #[trigger] r@[j]),
    {
        let mut r: Vec<(ArchetypeId, usize)> = Vec::new();
        let n = self.archetypes.len();
        let mut x: usize = 0;
        while x < n
            invariant
                self.wf(),
                n == self.archetypes@.len(),
                x <= n,
                forall|i: int| 0 <= i < r@.len() ==> self.valid_position(#[trigger] r@[i]) && r@[i].0 < x,
                forall|i: int| 0 <= i < r@.len() ==> #[trigger] self.has_both(self.entity_at(r@[i]), a, b),
                forall|i: int, j: int| 0 <= i < r@.len() && 0 <= j < r@.len() && i != j ==> r@[i] != r@[j],
                forall|p: (ArchetypeId, usize)| #[trigger] self.valid_position(p) && p.0 < x && self.has_both(self.entity_at(p), a, b) ==> r@.contains(p),
                forall|i: int, j: int| 0 <= i < j < r@.len() ==> position_before(#[trigger] r@[i], #[trigger] r@[j]),
            decreases n - x,
        {
            let arch = &self.archetypes[x];
            let wanted = arch.has_component(a) && arch.has_component(b);
            let len = arch.len();
            let mut y: usize = 0;
            while y < len
                invariant
                    self.wf(),
                    n == self.archetypes@.len(),
                    x < n,
                    *arch == self.archetypes@[x as int],
                    len == arch.rows().len(),
                    wanted == (arch.types().contains(a) && arch.types().contains(b)),
                    y <= len,
                    forall|i: int| 0 <= i < r@.len() ==> self.valid_position(#[trigger] r@[i]) && (r@[i].0 < x || (r@[i].0 == x && r@[i].1 < y)),
                    forall|i: int| 0 <= i < r@.len() ==> #[trigger] self.has_both(self.entity_at(r@[i]), a, b),
                    forall|i: int, j: int| 0 <= i < r@.len() && 0 <= j < r@.len() && i != j ==> r@[i] != r@[j],
                    forall|p: (ArchetypeId, usize)| #[trigger] self.valid_position(p) && (p.0 < x || (p.0 == x && p.1 < y)) && self.has_both(self.entity_at(p), a, b) ==> r@.contains(p),
                    forall|i: int, j: int| 0 <= i < j < r@.len() ==> position_before(#[trigger] r@[i], #[trigger] r@[j]),
                decreases len - y,
            {
                proof {
                    self.lemma_position((x, y));
                    let rc = row_components(self.archetypes@[x as int], y as int);
                    assert(rc.contains_key(a) == arch.types().contains(a));
                    assert(rc.contains_key(b) == arch.types().contains(b));
                }
                if wanted {
                    let ghost before = r@;
                    r.push((x, y));
                    proof {
                        assert forall|p: (ArchetypeId, usize)| #[trigger] self.valid_position(p) && (p.0 < x || (p.0 == x && p.1 < y + 1)) && self.has_both(self.entity_at(p), a, b) implies r@.contains(p) by {
                            if p == (x, y) {
                                assert(r@[before.len() as int] == p);
                            } else {
                                assert(before.contains(p));
                                let i = choose|i: int| 0 <= i < before.len() && before[i] == p;
                                assert(r@[i] == p);
                            }
                        }
                    }
                } else {
                    proof {
                        assert forall|p: (ArchetypeId, usize)| #[trigger] self.valid_position(p) && (p.0 < x || (p.0 == x && p.1 < y + 1)) && self.has_both(self.entity_at(p), a, b) implies r@.contains(p) by {
                            if p == (x, y) {
                                assert(!self.has_both(self.entity_at(p), a, b));
                            }
                        }
                    }
                }
                y = y + 1;
            }
            proof {
                assert forall|p: (ArchetypeId, usize)| #[trigger] self.valid_position(p) && p.0 < x + 1 && self.has_both(self.entity_at(p), a, b) implies r@.contains(p) by {
                    if p.0 == x {
                        assert(p.1 < len);
                    }
                }
            }
            x = x + 1;
        }
        r
    }

    /// Every living entity that has a component of the given type, with a
    /// reference to that component, each entity once.
    pub fn query(&self, type_id: ComponentTypeId) -> (r: Vec<(Entity, &V)>)
        requires
            self.wf(),
        ensures
            forall|i: int| 0 <= i < r@.len() ==> #[trigger] self.has_both(r@[i].0, type_id, type_id)
                && *r@[i].1 == self.components()[r@[i].0][type_id],
            forall|i: int, j: int| 0 <= i < r@.len() && 0 <= j < r@.len() && i != j ==> r@[i].0 != r@[j].0,
            forall|e: Entity| #[trigger] self.has_both(e, type_id, type_id) ==> exists|i: int| 0 <= i < r@.len() && r@[i].0 == e,
            forall|i: int, j: int| 0 <= i < j < r@.len() ==> position_before(
                self.storage_position(#[trigger] r@[i].0),
                self.storage_position(#[trigger] r@[j].0),
            ),
            self.lists_matching(r@.map_values(|p: (Entity, &V)| p.0), type_id, type_id),
    {
        let pos = self.matching_positions(type_id, type_id);
        let mut r: Vec<(Entity, &V)> = Vec::new();
        let mut i: usize = 0;
        while i < pos.len()
            invariant
                self.wf(),
                i <= pos@.len(),
                r@.len() == i,
                forall|j: int| 0 <= j < pos@.len() ==> #[trigger] self.valid_position(pos@[j]),
                forall|j: int| 0 <= j < pos@.len() ==> #[trigger] self.has_both(self.entity_at(pos@[j]), type_id, type_id),
                forall|j: int| 0 <= j < i ==> #[trigger] r@[j].0 == self.entity_at(pos@[j])
                    && *r@[j].1 == self.components()[r@[j].0][type_id],
            decreases pos@.len() - i,
        {
            proof {
                assert(self.valid_position(pos@[i as int]));
                assert(self.has_both(self.entity_at(pos@[i as int]), type_id, type_id));
            }
            let e = self.entity_at_position(pos[i]);
            let v = self.value_at(pos[i], type_id);
            r.push((e, v));
            i = i + 1;
        }
        proof {
            self.lemma_positions_cover(pos@, type_id, type_id);
            assert forall|a: int, b: int| 0 <= a < b < r@.len() implies position_before(
                self.storage_position(#[trigger] r@[a].0),
                self.storage_position(#[trigger] r@[b].0),
            ) by {
                self.lemma_position(pos@[a]);
                self.lemma_position(pos@[b]);
            }
            assert forall|a: int, b: int| 0 <= a < r@.len() && 0 <= b < r@.len() && a != b implies r@[a].0 != r@[b].0 by {
                assert(r@[a].0 == self.entity_at(pos@[a]));
                assert(r@[b].0 == self.entity_at(pos@[b]));
            }
            assert forall|e: Entity| #[trigger] self.has_both(e, type_id, type_id) implies exists|j: int| 0 <= j < r@.len() && r@[j].0 == e by {
                let j = choose|j: int| 0 <= j < pos@.len() && self.entity_at(pos@[j]) == e;
                assert(r@[j].0 == e);
            }
        }
        proof {
            let m = r@.map_values(|p: (Entity, &V)| p.0);
            assert forall|k: int| 0 <= k < m.len() implies #[trigger] self.has_both(m[k], type_id, type_id) by {
                assert(m[k] == r@[k].0);
            }
            assert forall|e: Entity| #[trigger] self.has_both(e, type_id, type_id) implies m.contains(e) by {
                let k = choose|k: int| 0 <= k < r@.len() && r@[k].0 == e;
                assert(m[k] == e);
            }
            assert forall|x: int, y: int| 0 <= x < y < m.len() implies position_before(
                self.storage_position(#[trigger] m[x]),
                self.storage_position(#[trigger] m[y]),
            ) by {
                assert(m[x] == r@[x].0 && m[y] == r@[y].0);
            }
        }
        r
    }

    /// The value of component `t` at a valid position whose archetype
    /// holds that type.
    fn value_at(&self, p: (ArchetypeId, usize), t: ComponentTypeId) -> (v: &V)
        requires
            self.wf(),
            self.valid_position(p),
            self.components()[self.entity_at(p)].contains_key(t),
        ensures
            self.components().contains_key(self.entity_at(p)),
            *v == self.components()[self.entity_at(p)][t],
    {
        let (x, y) = p;
        proof {
            self.lemma_position(p);
            assert(table_ok(self.archetypes@, x as int));
        }
        let arch = &self.archetypes[x];
        let k = match arch.column_index(&t) {
            Some(k) => k,
            None => {
                proof {
                    assert(row_components(self.archetypes@[x as int], y as int).contains_key(t));
                }
                0
            },
        };
        proof {
            lemma_index_of_distinct(arch.types(), k as int);
            assert(arch.cols()[k as int].values().len() == arch.rows().len());
        }
        arch.column_at(k).get(y).unwrap()
    }

    /// The entity stored at a valid position.
    fn entity_at_position(&self, p: (ArchetypeId, usize)) -> (e: Entity)
        requires
            self.wf(),
            self.valid_position(p),
        ensures
            e == self.entity_at(p),
    {
        self.archetypes[p.0].entities()[p.1]
    }

    /// Distinct positions hold distinct entities, and every entity with
    /// both types is at one of the positions listed.
    proof fn lemma_positions_cover(&self, pos: Seq<(ArchetypeId, usize)>, a: ComponentTypeId, b: ComponentTypeId)
        requires
            self.wf(),
            forall|i: int| 0 <= i < pos.len() ==> #[trigger] self.valid_position(pos[i]),
            forall|i: int, j: int| 0 <= i < pos.len() && 0 <= j < pos.len() && i != j ==> pos[i] != pos[j],
            forall|p: (ArchetypeId, usize)| #[trigger] self.valid_position(p) && self.has_both(self.entity_at(p), a, b) ==> pos.contains(p),
        ensures
            forall|i: int, j: int| 0 <= i < pos.len() && 0 <= j < pos.len() && i != j
                ==> self.entity_at(#[trigger] pos[i]) != self.entity_at(#[trigger] pos[j]),
            forall|e: Entity| #[trigger] self.has_both(e, a, b) ==> exists|i: int| 0 <= i < pos.len() && self.entity_at(pos[i]) == e,
    {
        assert forall|i: int, j: int| 0 <= i < pos.len() && 0 <= j < pos.len() && i != j
            implies self.entity_at(#[trigger] pos[i]) != self.entity_at(#[trigger] pos[j]) by {
            assert(self.valid_position(pos[i]));
            assert(self.valid_position(pos[j]));
            self.lemma_position(pos[i]);
        }
        assert forall|e: Entity| #[trigger] self.has_both(e, a, b) implies exists|i: int| 0 <= i < pos.len() && self.entity_at(pos[i]) == e by {
            let p = self.lemma_located(e);
            assert(pos.contains(p));
            let i = choose|i: int| 0 <= i < pos.len() && pos[i] == p;
            assert(self.entity_at(pos[i]) == e);
        }
    }

    /// Every living entity that has components of both types, with
    /// references to them, each entity once.
    pub fn query2(&self, type_a: ComponentTypeId, type_b: ComponentTypeId) -> (r: Vec<(Entity, &V, &V)>)
        requires
            self.wf(),
        ensures
            forall|i: int| 0 <= i < r@.len() ==> #[trigger] self.has_both(r@[i].0, type_a, type_b)
                && *r@[i].1 == self.components()[r@[i].0][type_a]
                && *r@[i].2 == self.components()[r@[i].0][type_b],
            forall|i: int, j: int| 0 <= i < r@.len() && 0 <= j < r@.len() && i != j ==> r@[i].0 != r@[j].0,
            forall|e: Entity| #[trigger] self.has_both(e, type_a, type_b) ==> exists|i: int| 0 <= i < r@.len() && r@[i].0 == e,
            forall|i: int, j: int| 0 <= i < j < r@.len() ==> position_before(
                self.storage_position(#[trigger] r@[i].0),
                self.storage_position(#[trigger] r@[j].0),
            ),
            self.lists_matching(r@.map_values(|p: (Entity, &V, &V)| p.0), type_a, type_b),
    {
        let pos = self.matching_positions(type_a, type_b);
        let mut r: Vec<(Entity, &V, &V)> = Vec::new();
        let mut i: usize = 0;
        while i < pos.len()
            invariant
                self.wf(),
                i <= pos@.len(),
                r@.len() == i,
                forall|j: int| 0 <= j < pos@.len() ==> #[trigger] self.valid_position(pos@[j]),
                forall|j: int| 0 <= j < pos@.len() ==> #[trigger] self.has_both(self.entity_at(pos@[j]), type_a, type_b),
                forall|j: int| 0 <= j < i ==> #[trigger] r@[j].0 == self.entity_at(pos@[j])
                    && *r@[j].1 == self.components()[r@[j].0][type_a]
                    && *r@[j].2 == self.components()[r@[j].0][type_b],
            decreases pos@.len() - i,
        {
            proof {
                assert(self.valid_position(pos@[i as int]));
                assert(self.has_both(self.entity_at(pos@[i as int]), type_a, type_b));
            }
            let e = self.entity_at_position(pos[i]);
            let va = self.value_at(pos[i], type_a);
            let vb = self.value_at(pos[i], type_b);
            r.push((e, va, vb));
            i = i + 1;
        }
        proof {
            self.lemma_positions_cover(pos@, type_a, type_b);
            assert forall|a: int, b: int| 0 <= a < b < r@.len() implies position_before(
                self.storage_position(#[trigger] r@[a].0),
                self.storage_position(#[trigger] r@[b].0),
            ) by {
                self.lemma_position(pos@[a]);
                self.lemma_position(pos@[b]);
            }
            assert forall|a: int, b: int| 0 <= a < r@.len() && 0 <= b < r@.len() && a != b implies r@[a].0 != r@[b].0 by {
                assert(r@[a].0 == self.entity_at(pos@[a]));
                assert(r@[b].0 == self.entity_at(pos@[b]));
            }
            assert forall|e: Entity| #[trigger] self.has_both(e, type_a, type_b) implies exists|j: int| 0 <= j < r@.len() && r@[j].0 == e by {
                let j = choose|j: int| 0 <= j < pos@.len() && self.entity_at(pos@[j]) == e;
                assert(r@[j].0 == e);
            }
        }
        proof {
            let m = r@.map_values(|p: (Entity, &V, &V)| p.0);
            assert forall|k: int| 0 <= k < m.len() implies #[trigger] self.has_both(m[k], type_a, type_b) by {
                assert(m[k] == r@[k].0);
            }
            assert forall|e: Entity| #[trigger] self.has_both(e, type_a, type_b) implies m.contains(e) by {
                let k = choose|k: int| 0 <= k < r@.len() && r@[k].0 == e;
                assert(m[k] == e);
            }
            assert forall|x: int, y: int| 0 <= x < y < m.len() implies position_before(
                self.storage_position(#[trigger] m[x]),
                self.storage_position(#[trigger] m[y]),
            ) by {
                assert(m[x] == r@[x].0 && m[y] == r@[y].0);
            }
        }
        r
    }

    /// Calls `f` once for every living entity that has a component of the
    /// given type, with the entity and that component, in the order of
    /// [`World::query`].
    pub fn for_each<F: FnMut(Entity, &V)>(&self, type_id: ComponentTypeId, f: F)
        requires
            self.wf(),
            forall|e: Entity, v: &V| call_requires(f, (e, v)),
        ensures
            forall|e: Entity|
                #[trigger] self.has_both(e, type_id, type_id) ==> call_ensures(
                    f,
                    (e, &self.components()[e][type_id]),
                    (),
                ),
    {
        let ghost f0 = f;
        let mut f = f;
        let items = self.query(type_id);
        let mut i: usize = 0;
        while i < items.len()
            invariant
                f == f0,
                forall|e: Entity, v: &V| call_requires(f0, (e, v)),
                i <= items@.len(),
                forall|j: int| 0 <= j < i ==> call_ensures(f0, (#[trigger] items@[j].0, items@[j].1), ()),
            decreases items@.len() - i,
        {
            let (e, v) = items[i];
            f(e, v);
            i = i + 1;
        }
        proof {
            assert forall|e: Entity| #[trigger] self.has_both(e, type_id, type_id) implies call_ensures(
                f0,
                (e, &self.components()[e][type_id]),
                (),
            ) by {
                let j = choose|j: int| 0 <= j < items@.len() && items@[j].0 == e;
                assert(self.has_both(items@[j].0, type_id, type_id));
            }
        }
    }

    /// Calls `f` once for every living entity that has components of both
    /// types, with the entity and both components, in the order of
    /// [`World::query2`].
    pub fn for_each2<F: FnMut(Entity, &V, &V)>(&self, type_a: ComponentTypeId, type_b: ComponentTypeId, f: F)
        requires
            self.wf(),
            forall|e: Entity, a: &V, b: &V| call_requires(f, (e, a, b)),
        ensures
            forall|e: Entity|
                #[trigger] self.has_both(e, type_a, type_b) ==> call_ensures(
                    f,
                    (e, &self.components()[e][type_a], &self.components()[e][type_b]),
                    (),
                ),
    {
        let ghost f0 = f;
        let mut f = f;
        let items = self.query2(type_a, type_b);
        let mut i: usize = 0;
        while i < items.len()
            invariant
                f == f0,
                forall|e: Entity, a: &V, b: &V| call_requires(f0, (e, a, b)),
                i <= items@.len(),
                forall|j: int| 0 <= j < i ==> call_ensures(f0, (#[trigger] items@[j].0, items@[j].1, items@[j].2), ()),
            decreases items@.len() - i,
        {
            let (e, a, b) = items[i];
            f(e, a, b);
            i = i + 1;
        }
        proof {
            assert forall|e: Entity| #[trigger] self.has_both(e, type_a, type_b) implies call_ensures(
                f0,
                (e, &self.components()[e][type_a], &self.components()[e][type_b]),
                (),
            ) by {
                let j = choose|j: int| 0 <= j < items@.len() && items@[j].0 == e;
                assert(self.has_both(items@[j].0, type_a, type_b));
            }
        }
    }

    /// Every living entity whose components include both types, each once
    /// (pass the same type twice to ask for one).
    fn entities_with_both(&self, type_a: ComponentTypeId, type_b: ComponentTypeId) -> (r: Vec<Entity>)
        requires
            self.wf(),
        ensures
            forall|i: int| 0 <= i < r@.len() ==> #[trigger] self.has_both(r@[i], type_a, type_b),
            forall|i: int, j: int| 0 <= i < r@.len() && 0 <= j < r@.len() && i != j ==> r@[i] != r@[j],
            forall|e: Entity| #[trigger] self.has_both(e, type_a, type_b) ==> r@.contains(e),
            forall|i: int, j: int| 0 <= i < j < r@.len() ==> position_before(
                self.storage_position(#[trigger] r@[i]),
                self.storage_position(#[trigger] r@[j]),
            ),
    {
        let pos = self.matching_positions(type_a, type_b);
        let mut r: Vec<Entity> = Vec::new();
        let mut i: usize = 0;
        while i < pos.len()
            invariant
                self.wf(),
                i <= pos@.len(),
                r@.len() == i,
                forall|j: int| 0 <= j < pos@.len() ==> #[trigger] self.valid_position(pos@[j]),
                forall|j: int| 0 <= j < i ==> #[trigger] r@[j] == self.entity_at(pos@[j]),
            decreases pos@.len() - i,
        {
            proof {
                assert(self.valid_position(pos@[i as int]));
            }
            let e = self.entity_at_position(pos[i]);
            r.push(e);
            i = i + 1;
        }
        proof {
            self.lemma_positions_cover(pos@, type_a, type_b);
            assert forall|a: int, b: int| 0 <= a < b < r@.len() implies position_before(
                self.storage_position(#[trigger] r@[a]),
                self.storage_position(#[trigger] r@[b]),
            ) by {
                assert(r@[a] == self.entity_at(pos@[a]));
                assert(r@[b] == self.entity_at(pos@[b]));
                self.lemma_position(pos@[a]);
                self.lemma_position(pos@[b]);
            }
            assert forall|a: int| 0 <= a < r@.len() implies #[trigger] self.has_both(r@[a], type_a, type_b) by {
                assert(r@[a] == self.entity_at(pos@[a]));
            }
            assert forall|a: int, b: int| 0 <= a < r@.len() && 0 <= b < r@.len() && a != b implies r@[a] != r@[b] by {
                assert(r@[a] == self.entity_at(pos@[a]));
                assert(r@[b] == self.entity_at(pos@[b]));
            }
            assert forall|e: Entity| #[trigger] self.has_both(e, type_a, type_b) implies r@.contains(e) by {
                let j = choose|j: int| 0 <= j < pos@.len() && self.entity_at(pos@[j]) == e;
                assert(r@[j] == e);
            }
        }
        r
    }

    /// `s` lists, each once and in storage order, exactly the living
    /// entities that have components of both types: what
    /// [`World::entities_with2`] returns, and the entities of what
    /// [`World::query2`] returns.
    pub open spec fn lists_matching(&self, s: Seq<Entity>, a: ComponentTypeId, b: ComponentTypeId) -> bool {
        &&& forall|i: int| 0 <= i < s.len() ==> #[trigger] self.has_both(s[i], a, b)
        &&& forall|e: Entity| #[trigger] self.has_both(e, a, b) ==> s.contains(e)
        &&& forall|i: int, j: int| 0 <= i < j < s.len() ==> position_before(
            self.storage_position(#[trigger] s[i]),
            self.storage_position(#[trigger] s[j]),
        )
    }

    /// Two sequences in strictly increasing storage order with the same
    /// entities are equal.
    proof fn lemma_sorted_listings_equal(&self, x: Seq<Entity>, y: Seq<Entity>)
        requires
            forall|i: int, j: int| 0 <= i < j < x.len() ==> position_before(
                self.storage_position(#[trigger] x[i]),
                self.storage_position(#[trigger] x[j]),
            ),
            forall|i: int, j: int| 0 <= i < j < y.len() ==> position_before(
                self.storage_position(#[trigger] y[i]),
                self.storage_position(#[trigger] y[j]),
            ),
            forall|e: Entity| x.contains(e) <==> y.contains(e),
        ensures
            x == y,
        decreases x.len(),
    {
        if x.len() == 0 {
            if y.len() > 0 {
                assert(y.contains(y[0]));
            }
            assert(x =~= y);
            return;
        }
        if y.len() == 0 {
            assert(x.contains(x[0]));
        }
        assert(x.contains(x[0]));
        let j = choose|j: int| 0 <= j < y.len() && y[j] == x[0];
        assert(y.contains(y[0]));
        let i = choose|i: int| 0 <= i < x.len() && x[i] == y[0];
        if i > 0 && j > 0 {
            assert(position_before(self.storage_position(x[0]), self.storage_position(x[i])));
            assert(position_before(self.storage_position(y[0]), self.storage_position(y[j])));
            assert(false);
        }
        assert(x[0] == y[0]);
        let xt = x.drop_first();
        let yt = y.drop_first();
        assert forall|e: Entity| xt.contains(e) <==> yt.contains(e) by {
            if xt.contains(e) {
                let k = choose|k: int| 0 <= k < xt.len() && xt[k] == e;
                assert(x[k + 1] == e);
                assert(position_before(self.storage_position(x[0]), self.storage_position(x[k + 1])));
                assert(x.contains(e));
                let m = choose|m: int| 0 <= m < y.len() && y[m] == e;
                if m == 0 {
                    assert(false);
                }
                assert(yt[m - 1] == e);
            }
            if yt.contains(e) {
                let k = choose|k: int| 0 <= k < yt.len() && yt[k] == e;
                assert(y[k + 1] == e);
                assert(position_before(self.storage_position(y[0]), self.storage_position(y[k + 1])));
                assert(y.contains(e));
                let m = choose|m: int| 0 <= m < x.len() && x[m] == e;
                if m == 0 {
                    assert(false);
                }
                assert(xt[m - 1] == e);
            }
        }
        assert forall|a: int, b: int| 0 <= a < b < xt.len() implies position_before(
            self.storage_position(#[trigger] xt[a]),
            self.storage_position(#[trigger] xt[b]),
        ) by {
            assert(xt[a] == x[a + 1] && xt[b] == x[b + 1]);
        }
        assert forall|a: int, b: int| 0 <= a < b < yt.len() implies position_before(
            self.storage_position(#[trigger] yt[a]),
            self.storage_position(#[trigger] yt[b]),
        ) by {
            assert(yt[a] == y[a + 1] && yt[b] == y[b + 1]);
        }
        self.lemma_sorted_listings_equal(xt, yt);
        assert(x =~= seq![x[0]] + xt);
        assert(y =~= seq![y[0]] + yt);
    }

    /// [`World::entities_with2`] lists the same entities, in the same
    /// order, as [`World::query2`] (and so [`World::entities_with`] as
    /// [`World::query`], passing one type twice): any two listings, each
    /// once and in storage order, of the living entities with both types
    /// are equal.
    pub proof fn law_entities_with_lists_the_query(
        &self,
        a: ComponentTypeId,
        b: ComponentTypeId,
        listed: Seq<Entity>,
        queried: Seq<Entity>,
    )
        requires
            self.wf(),
            self.lists_matching(listed, a, b),
            self.lists_matching(queried, a, b),
        ensures
            listed == queried,
    {
        assert forall|e: Entity| listed.contains(e) <==> queried.contains(e) by {
            if listed.contains(e) {
                let k = choose|k: int| 0 <= k < listed.len() && listed[k] == e;
                assert(self.has_both(listed[k], a, b));
            }
            if queried.contains(e) {
                let k = choose|k: int| 0 <= k < queried.len() && queried[k] == e;
                assert(self.has_both(queried[k], a, b));
            }
        }
        self.lemma_sorted_listings_equal(listed, queried);
    }

    /// Every living entity that has a component of the given type, each
    /// once.
    pub fn entities_with(&self, type_id: ComponentTypeId) -> (r: Vec<Entity>)
        requires
            self.wf(),
        ensures
            forall|i: int| 0 <= i < r@.len() ==> #[trigger] self.has_both(r@[i], type_id, type_id),
            forall|i: int, j: int| 0 <= i < r@.len() && 0 <= j < r@.len() && i != j ==> r@[i] != r@[j],
            forall|e: Entity| #[trigger] self.has_both(e, type_id, type_id) ==> r@.contains(e),
            forall|i: int, j: int| 0 <= i < j < r@.len() ==> position_before(
                self.storage_position(#[trigger] r@[i]),
                self.storage_position(#[trigger] r@[j]),
            ),
            self.lists_matching(r@, type_id, type_id),
    {
        self.entities_with_both(type_id, type_id)
    }

    /// Every living entity that has components of both types, each once.
    pub fn entities_with2(&self, type_a: ComponentTypeId, type_b: ComponentTypeId) -> (r: Vec<Entity>)
        requires
            self.wf(),
        ensures
            forall|i: int| 0 <= i < r@.len() ==> #[trigger] self.has_both(r@[i], type_a, type_b),
            forall|i: int, j: int| 0 <= i < r@.len() && 0 <= j < r@.len() && i != j ==> r@[i] != r@[j],
            forall|e: Entity| #[trigger] self.has_both(e, type_a, type_b) ==> r@.contains(e),
            forall|i: int, j: int| 0 <= i < j < r@.len() ==> position_before(
                self.storage_position(#[trigger] r@[i]),
                self.storage_position(#[trigger] r@[j]),
            ),
            self.lists_matching(r@, type_a, type_b),
    {
        self.entities_with_both(type_a, type_b)
    }

    /// Returns the component of the given type of a living entity, if it
    /// has one.
    pub fn get_component(&self, entity: Entity, type_id: ComponentTypeId) -> (r: Option<&V>)
        requires
            self.wf(),
        ensures
            r == (if self.components().contains_key(entity) && self.components()[entity].contains_key(type_id) {
                Some(&self.components()[entity][type_id])
            } else {
                None
            }),
    {
        proof {
            self.lemma_alive_is_located(entity);
        }
        if !self.entities.is_alive(entity) {
            return None;
        }
        let (a, row) = match self.locations[entity.index as usize] {
            Some(loc) => loc,
            None => {
                return None;
            },
        };
        assert(slot_ok(self.locations@, self.archetypes@, self.entities@, self.occupied@, entity.index as int));
        assert(table_ok(self.archetypes@, a as int));
        let arch = &self.archetypes[a];
        match arch.column_index(&type_id) {
            Some(k) => {
                let col = arch.column_at(k);
                proof {
                    lemma_index_of_distinct(arch.types(), k as int);
                    assert(arch.cols()[k as int].values().len() == arch.rows().len());
                }
                col.get(row)
            },
            None => None,
        }
    }
}

impl<V> Default for World<V> {
    fn default() -> (r: Self)
        ensures
            r.wf(),
            r.components() == Map::<Entity, Map<ComponentTypeId, V>>::empty(),
            r.count() == 0,
            r.resource_map() == Map::<ComponentTypeId, V>::empty(),
            r.can_spawn(),
    {
        Self::new()
    }
}

} // verus!
