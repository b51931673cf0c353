use vstd::prelude::*;

verus! {

/// Lightweight entity handle with ABA-safety via generational indexing.
///
/// Two `Entity` values with the same `index` but different `generation`
/// fields refer to different logical entities.
#[derive(Clone, Copy, PartialEq, Eq, Hash, Debug, Structural)]
pub struct Entity {
    pub index: u32,
    pub generation: u32,
}

/// Abstract state of an [`Entities`] allocator.
pub ghost struct EntitiesModel {
    /// Current generation of every index that has ever been allocated.
    pub generations: Seq<u32>,
    /// Stack of freed indices, top of the stack last.
    pub free_list: Seq<u32>,
    /// Number of currently alive entities.
    pub alive_count: nat,
}

/// Entity allocator with free-list recycling and generation tracking.
pub struct Entities {
    generations: Vec<u32>,
    free_list: Vec<u32>,
    alive_count: usize,
    /// Whether each slot holds a living entity (is off the free list).
    occupied: Vec<bool>,
}

/// The generation that follows `g` (wrapping at `u32::MAX`).
pub open spec fn next_generation(g: u32) -> u32 {
    if g == u32::MAX { 0 } else { (g + 1) as u32 }
}

impl View for Entities {
    type V = EntitiesModel;

    closed spec fn view(&self) -> EntitiesModel {
        EntitiesModel {
            generations: self.generations@,
            free_list: self.free_list@,
            alive_count: self.alive_count as nat,
        }
    }
}

impl EntitiesModel {
    /// Every index on the free list names a slot that exists, and none
    /// is listed twice.
    pub open spec fn wf(self) -> bool {
        &&& forall|i: int| 0 <= i < self.free_list.len() ==> (#[trigger] self.free_list[i]) < self.generations.len()
        &&& forall|i: int, j: int| 0 <= i < j < self.free_list.len() ==> self.free_list[i] != self.free_list[j]
        &&& self.alive_count <= usize::MAX
    }

    /// The handle names a slot that holds a living entity (one not on the
    /// free list), and its generation matches the slot's.
    pub open spec fn is_alive(self, e: Entity) -> bool {
        &&& e.index < self.generations.len()
        &&& !self.free_list.contains(e.index)
        &&& self.generations[e.index as int] == e.generation
    }

    /// The handle that the next `allocate` returns.
    pub open spec fn next_allocated(self) -> Entity {
        if self.free_list.len() > 0 {
            let index = self.free_list.last();
            Entity { index, generation: self.generations[index as int] }
        } else {
            Entity { index: self.generations.len() as u32, generation: 0 }
        }
    }

    /// The allocator state after `allocate`.
    pub open spec fn after_allocate(self) -> EntitiesModel {
        if self.free_list.len() > 0 {
            EntitiesModel {
                generations: self.generations,
                free_list: self.free_list.drop_last(),
                alive_count: self.alive_count + 1,
            }
        } else {
            EntitiesModel {
                generations: self.generations.push(0),
                free_list: self.free_list,
                alive_count: self.alive_count + 1,
            }
        }
    }

    /// The allocator state after freeing the alive handle `e`.
    pub open spec fn after_free(self, e: Entity) -> EntitiesModel {
        EntitiesModel {
            generations: self.generations.update(e.index as int, next_generation(e.generation)),
            free_list: self.free_list.push(e.index),
            alive_count: (self.alive_count - 1) as nat,
        }
    }
}

/// A handle that is not alive stays dead across an allocation, unless it
/// is the very handle the allocation hands out: allocation never revives
/// a stale handle.
pub proof fn law_allocation_keeps_stale_handles_dead(m: EntitiesModel, e: Entity)
    requires
        m.wf(),
        !m.is_alive(e),
        e != m.next_allocated(),
    ensures
        !m.after_allocate().is_alive(e),
{
    let after = m.after_allocate();
    if after.is_alive(e) {
        if m.free_list.len() > 0 {
            if e.index != m.free_list.last() {
                assert(after.free_list == m.free_list.drop_last());
                assert(!m.free_list.contains(e.index)) by {
                    if m.free_list.contains(e.index) {
                        let k = choose|k: int| 0 <= k < m.free_list.len() && m.free_list[k] == e.index;
                        assert(after.free_list[k] == e.index);
                    }
                }
            }
        } else {
            if e.index < m.generations.len() {
                assert(after.generations[e.index as int] == m.generations[e.index as int]);
            }
        }
    }
}

/// Freeing a live handle kills it, and the next allocation reuses its slot
/// with the next generation.
pub proof fn law_free_then_allocate_reuses_slot(m: EntitiesModel, e: Entity)
    requires
        m.wf(),
        m.is_alive(e),
        m.alive_count > 0,
    ensures
        !m.after_free(e).is_alive(e),
        m.after_free(e).next_allocated() == (Entity { index: e.index, generation: next_generation(e.generation) }),
        m.after_free(e).next_allocated() != e,
{
    assert(m.after_free(e).free_list.last() == e.index);
}

/// A free list of distinct slot indices below `n` that leaves out the
/// index `idx`, itself below `n`, is shorter than `n`.
proof fn lemma_free_list_shorter(fl: Seq<u32>, n: nat, idx: u32)
    requires
        forall|i: int, j: int| 0 <= i < j < fl.len() ==> fl[i] != fl[j],
        forall|i: int| 0 <= i < fl.len() ==> (#[trigger] fl[i]) < n,
        idx < n,
        !fl.contains(idx),
    ensures
        fl.len() < n,
{
    let m = fl.map_values(|x: u32| x as int);
    assert forall|i: int, j: int| 0 <= i < m.len() && 0 <= j < m.len() && i != j implies m[i] != m[j] by {
        if i < j {
            assert(fl[i] != fl[j]);
        } else {
            assert(fl[j] != fl[i]);
        }
    }
    assert(m.no_duplicates());
    m.unique_seq_to_set();
    let r = vstd::set_lib::set_int_range(0, n as int).remove(idx as int);
    vstd::set_lib::lemma_int_range(0, n as int);
    assert forall|x: int| m.to_set().contains(x) implies r.contains(x) by {
        let i = choose|i: int| 0 <= i < m.len() && m[i] == x;
        assert(fl[i] < n);
        if x == idx as int {
            assert(fl[i] == idx);
        }
    }
    vstd::set_lib::lemma_len_subset(m.to_set(), r);
}

impl Entities {
    pub closed spec fn wf(&self) -> bool {
        &&& self@.wf()
        &&& self.alive_count + self.free_list@.len() == self.generations@.len()
        &&& self.generations@.len() <= u32::MAX + 1
        &&& self.occupied@.len() == self.generations@.len()
        &&& forall|i: int| 0 <= i < self.occupied@.len() ==> #[trigger] self.occupied@[i] == !self.free_list@.contains(i as u32)
    }

    /// Creates a new, empty allocator.
    pub fn new() -> (r: Self)
        ensures
            r.wf(),
            r@.generations == Seq::<u32>::empty(),
            r@.free_list == Seq::<u32>::empty(),
            r@.alive_count == 0,
    {
        Entities { generations: Vec::new(), free_list: Vec::new(), alive_count: 0, occupied: Vec::new() }
    }

    /// The allocator's model is well formed, and every slot is either on
    /// the free list or holds a living entity, so a living handle implies
    /// a positive count.
    pub proof fn lemma_model_wf(&self)
        requires
            self.wf(),
        ensures
            self@.wf(),
            forall|e: Entity| #[trigger] self@.is_alive(e) ==> self@.alive_count > 0,
            self@.alive_count + self@.free_list.len() == self@.generations.len(),
    {
        assert forall|e: Entity| #[trigger] self@.is_alive(e) implies self@.alive_count > 0 by {
            lemma_free_list_shorter(self.free_list@, self.generations@.len(), e.index);
        }
    }

    /// Allocates a fresh [`Entity`]: the most recently freed index is
    /// recycled with its current generation, otherwise a brand-new index
    /// with generation 0 is appended.
    pub fn allocate(&mut self) -> (e: Entity)
        requires
            old(self).wf(),
            old(self)@.alive_count < usize::MAX,
            old(self)@.free_list.len() > 0 || old(self)@.generations.len() <= u32::MAX,
        ensures
            final(self).wf(),
            e == old(self)@.next_allocated(),
            final(self)@ == old(self)@.after_allocate(),
            final(self)@.is_alive(e),
    {
        self.alive_count = self.alive_count + 1;
        let ghost before = self.free_list@;
        match self.free_list.pop() {
            Some(index) => {
                assert(index == before[before.len() - 1]);
                assert(old(self)@.free_list[before.len() - 1] < old(self)@.generations.len());
                assert(self.free_list@ =~= before.drop_last());
                self.occupied.set(index as usize, true);
                proof {
                    assert(!self.free_list@.contains(index)) by {
                        if self.free_list@.contains(index) {
                            let k = choose|k: int| 0 <= k < self.free_list@.len() && self.free_list@[k] == index;
                            assert(before[k] == before[before.len() - 1]);
                        }
                    }
                    assert forall|i: int| 0 <= i < self.occupied@.len() implies #[trigger] self.occupied@[i] == !self.free_list@.contains(i as u32) by {
                        if i != index as int {
                            assert(old(self).occupied@[i] == !before.contains(i as u32));
                            if before.contains(i as u32) {
                                let k = choose|k: int| 0 <= k < before.len() && before[k] == i as u32;
                                assert(k != before.len() - 1);
                                assert(self.free_list@[k] == i as u32);
                            }
                        }
                    }
                }
                let generation = self.generations[index as usize];
                Entity { index, generation }
            },
            None => {
                let index = #[verifier::truncate] (self.generations.len() as u32);
                self.generations.push(0);
                self.occupied.push(true);
                proof {
                    assert(before.len() == 0);
                    assert forall|i: int| 0 <= i < self.occupied@.len() implies #[trigger] self.occupied@[i] == !self.free_list@.contains(i as u32) by {
                        if i < old(self).occupied@.len() {
                            assert(old(self).occupied@[i] == !before.contains(i as u32));
                        }
                    }
                }
                Entity { index, generation: 0 }
            },
        }
    }

    /// Frees an entity. Returns `true` if the handle is alive (its slot
    /// holds a living entity of its generation), in which case the slot's
    /// generation is bumped and its index pushed on the free list; returns
    /// `false` for an out-of-range index, a freed slot or a stale
    /// generation, in which case nothing changes.
    pub fn free(&mut self, entity: Entity) -> (r: bool)
        requires
            old(self).wf(),
        ensures
            final(self).wf(),
            r == old(self)@.is_alive(entity),
            r ==> old(self)@.alive_count > 0,
            r ==> final(self)@.alive_count + 1 == old(self)@.alive_count,
            r ==> final(self)@ == old(self)@.after_free(entity),
            !r ==> final(self)@ == old(self)@,
            !final(self)@.is_alive(entity),
    {
        let idx = entity.index as usize;
        if idx >= self.generations.len() {
            return false;
        }
        if !self.occupied[idx] || self.generations[idx] != entity.generation {
            assert(old(self).occupied@[idx as int] == !old(self)@.free_list.contains(entity.index));
            return false;
        }
        assert(old(self).occupied@[idx as int] == !old(self)@.free_list.contains(entity.index));
        proof {
            lemma_free_list_shorter(self.free_list@, self.generations@.len(), entity.index);
        }
        let g = self.generations[idx].wrapping_add(1);
        self.generations.set(idx, g);
        self.free_list.push(entity.index);
        self.occupied.set(idx, false);
        self.alive_count = self.alive_count - 1;
        proof {
            let before = old(self)@.free_list;
            assert(self.free_list@ == before.push(entity.index));
            assert(self.free_list@.contains(entity.index)) by {
                assert(self.free_list@[before.len() as int] == entity.index);
            }
            assert forall|i: int| 0 <= i < self.free_list@.len() implies
                (#[trigger] self.free_list@[i]) < self.generations@.len() by {
                if i < self.free_list@.len() - 1 {
                    assert(self.free_list@[i] == before[i]);
                }
            }
            assert forall|i: int, j: int| 0 <= i < j < self.free_list@.len() implies self.free_list@[i] != self.free_list@[j] by {
                if j == before.len() {
                    assert(self.free_list@[i] == before[i]);
                    assert(before.contains(before[i]));
                }
            }
            assert forall|i: int| 0 <= i < self.occupied@.len() implies #[trigger] self.occupied@[i] == !self.free_list@.contains(i as u32) by {
                if i != idx as int {
                    assert(old(self).occupied@[i] == !before.contains(i as u32));
                    if self.free_list@.contains(i as u32) {
                        let k = choose|k: int| 0 <= k < self.free_list@.len() && self.free_list@[k] == i as u32;
                        assert(k < before.len());
                        assert(before[k] == i as u32);
                    }
                    if before.contains(i as u32) {
                        let k = choose|k: int| 0 <= k < before.len() && before[k] == i as u32;
                        assert(self.free_list@[k] == i as u32);
                    }
                }
            }
        }
        true
    }

    /// A freed slot can be reused, or a fresh index still fits in `u32`.
    pub fn has_free_slot_or_fresh_index(&self) -> (r: bool)
        ensures
            r == (self@.free_list.len() > 0 || self@.generations.len() <= u32::MAX),
    {
        self.free_list.len() > 0 || self.generations.len() <= 4_294_967_295
    }

    /// Returns `true` if `entity` is currently alive: its slot holds a
    /// living entity of its generation.
    pub fn is_alive(&self, entity: Entity) -> (r: bool)
        requires
            self.wf(),
        ensures
            r == self@.is_alive(entity),
    {
        let idx = entity.index as usize;
        let r = idx < self.generations.len() && self.occupied[idx] && self.generations[idx] == entity.generation;
        proof {
            if idx < self.generations@.len() {
                assert(self.occupied@[idx as int] == !self@.free_list.contains(entity.index));
            }
        }
        r
    }

    /// Returns the number of currently alive entities.
    pub fn len(&self) -> (r: usize)
        ensures
            r == self@.alive_count,
    {
        self.alive_count
    }

    /// Returns `true` if no entities are currently alive.
    pub fn is_empty(&self) -> (r: bool)
        ensures
            r == (self@.alive_count == 0),
    {
        self.alive_count == 0
    }
}

impl Default for Entities {
    fn default() -> (r: Self)
        ensures
            r.wf(),
            r@.generations == Seq::<u32>::empty(),
            r@.free_list == Seq::<u32>::empty(),
            r@.alive_count == 0,
    {
        Self::new()
    }
}

} // verus!
