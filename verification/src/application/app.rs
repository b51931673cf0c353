use vstd::prelude::*;

use crate::application::plugin::Plugin;
use crate::application::time::FixedTime;
use crate::ecs::archetype::distinct;
use crate::ecs::schedule::{CoreStage, Schedule, stage_rank, systems_in_run_order, within};
use crate::ecs::world::World;
use crate::entity::Entity;
use crate::type_id::ComponentTypeId;

verus! {

/// The top-level application builder and runner.
///
/// `App` owns the ECS [`World`] and [`Schedule`], registers plugins,
/// systems and resources, and runs one frame at a time. It owns no event
/// loop. `V` is the type of component and resource values, `S` the type
/// of a system.
pub struct App<V, S> {
    /// The ECS world that stores all entities, components, and resources.
    pub world: World<V>,
    /// The schedule that organises systems into stages.
    pub schedule: Schedule<S>,
    /// The plugins installed so far, by type, each once.
    plugins_installed: Vec<ComponentTypeId>,
}

impl<V, S> App<V, S> {
    /// The world and the schedule are well formed.
    pub closed spec fn wf(&self) -> bool {
        &&& self.world.wf()
        &&& self.schedule.wf()
        &&& distinct(self.plugins_installed@)
    }

    /// The world, as a value.
    pub closed spec fn world_state(&self) -> World<V> {
        self.world
    }

    /// The schedule, as a value.
    pub closed spec fn schedule_state(&self) -> Schedule<S> {
        self.schedule
    }

    /// The plugin types installed so far.
    pub closed spec fn installed(&self) -> Set<ComponentTypeId> {
        self.plugins_installed@.to_set()
    }

    /// Creates an app with an empty schedule and a world whose only
    /// resource is `fixed_time`, the fixed-timestep configuration, stored
    /// under the type of [`FixedTime`]. The world's frame clock starts now,
    /// with no frame counted.
    pub fn new(fixed_time: V) -> (r: Self)
        ensures
            r.wf(),
            r.world_state().components() == Map::<Entity, Map<ComponentTypeId, V>>::empty(),
            r.world_state().can_spawn(),
            exists|t: ComponentTypeId| r.world_state().resource_map() == Map::<ComponentTypeId, V>::empty().insert(t, fixed_time),
            r.schedule_state().stage_lens() == Seq::new(7, |i: int| 0nat),
            r.installed() == Set::<ComponentTypeId>::empty(),
            r.world_state().frame_clock().frames() == 0,
    {
        Self::with_resource(ComponentTypeId::of::<FixedTime>(), fixed_time)
    }

    /// Creates an app with an empty schedule, no plugins, and a world with
    /// no entity whose only resource is `value`, of type `type_id`.
    pub fn with_resource(type_id: ComponentTypeId, value: V) -> (r: Self)
        ensures
            r.wf(),
            r.world_state().components() == Map::<Entity, Map<ComponentTypeId, V>>::empty(),
            r.world_state().can_spawn(),
            r.world_state().resource_map() == Map::<ComponentTypeId, V>::empty().insert(type_id, value),
            r.schedule_state().stage_lens() == Seq::new(7, |i: int| 0nat),
            r.installed() == Set::<ComponentTypeId>::empty(),
            r.world_state().frame_clock().frames() == 0,
    {
        let mut world = World::new();
        world.insert_resource(type_id, value);
        let app = App { world, schedule: Schedule::new(), plugins_installed: Vec::new() };
        proof {
            assert(app.schedule.stage_lens() =~= Seq::new(7, |i: int| 0nat));
            assert(app.plugins_installed@.to_set() =~= Set::<ComponentTypeId>::empty());
        }
        app
    }

    /// Records the plugin type `id` as installed. Returns `false`, and
    /// changes nothing, if it already was.
    pub fn mark_installed(&mut self, id: ComponentTypeId) -> (r: bool)
        requires
            old(self).wf(),
        ensures
            final(self).wf(),
            r == !old(self).installed().contains(id),
            !r ==> *final(self) == *old(self),
            final(self).installed() == old(self).installed().insert(id),
            final(self).world_state() == old(self).world_state(),
            final(self).schedule_state() == old(self).schedule_state(),
    {
        let mut k: usize = 0;
        while k < self.plugins_installed.len()
            invariant
                *self == *old(self),
                self.wf(),
                k <= self.plugins_installed@.len(),
                forall|j: int| 0 <= j < k ==> self.plugins_installed@[j] != id,
            decreases self.plugins_installed@.len() - k,
        {
            if self.plugins_installed[k].same(&id) {
                proof {
                    assert(self.plugins_installed@.to_set().contains(id)) by {
                        assert(self.plugins_installed@.contains(self.plugins_installed@[k as int]));
                    }
                    assert(self.installed().insert(id) =~= self.installed());
                }
                return false;
            }
            k = k + 1;
        }
        let ghost before = self.plugins_installed@;
        self.plugins_installed.push(id);
        proof {
            assert(!before.contains(id));
            assert(self.plugins_installed@.to_set() =~= before.to_set().insert(id)) by {
                assert forall|t: ComponentTypeId| #[trigger] self.plugins_installed@.contains(t) == (before.contains(t) || t == id) by {
                    if self.plugins_installed@.contains(t) {
                        let j = choose|j: int| 0 <= j < self.plugins_installed@.len() && self.plugins_installed@[j] == t;
                        if j < before.len() {
                            assert(before[j] == t);
                        }
                    }
                    if before.contains(t) {
                        let j = choose|j: int| 0 <= j < before.len() && before[j] == t;
                        assert(self.plugins_installed@[j] == t);
                    }
                    if t == id {
                        assert(self.plugins_installed@[before.len() as int] == t);
                    }
                }
            }
            assert(distinct(self.plugins_installed@)) by {
                assert forall|i: int, j: int| 0 <= i < self.plugins_installed@.len() && 0 <= j < self.plugins_installed@.len() && i != j
                    implies self.plugins_installed@[i] != self.plugins_installed@[j] by {
                    if i == before.len() as int {
                        assert(before.contains(self.plugins_installed@[j]));
                    } else if j == before.len() as int {
                        assert(before.contains(self.plugins_installed@[i]));
                    }
                }
            }
        }
        true
    }

    /// Adds a plugin: unless a plugin of the same type was added before,
    /// records its type and calls its `build` once; a duplicate is ignored.
    /// The type is identified by `TypeId::of`, of which nothing is stated:
    /// the contract is that of [`App::install_plugin`] for some identifier
    /// `t`.
    pub fn add_plugin<P: Plugin<V, S>>(&mut self, plugin: P) -> (r: &mut Self)
        requires
            old(self).wf(),
        ensures
            *final(self) == *final(r),
            r.wf(),
            old(self).installed().subset_of(r.installed()),
            exists|t: ComponentTypeId|
                {
                    &&& old(self).installed().contains(t) ==> *r == *old(self)
                    &&& #[trigger] old(self).installed().insert(t).subset_of(r.installed())
                    &&& !old(self).installed().contains(t) ==> exists|a: &mut App<V, S>|
                        {
                            &&& mut_ref_current(a).installed() == old(self).installed().insert(t)
                            &&& mut_ref_current(a).world_state() == old(self).world_state()
                            &&& mut_ref_current(a).schedule_state() == old(self).schedule_state()
                            &&& mut_ref_future(a) == *r
                            &&& #[trigger] call_ensures(P::build, (&plugin, a), ())
                        }
                },
    {
        let id = ComponentTypeId::of::<P>();
        self.install_plugin(plugin, id)
    }

    /// Installs `plugin` as the plugin type `id`: if `id` was installed
    /// before, nothing changes; otherwise `id` is recorded and the plugin's
    /// `build` runs once on the app.
    pub fn install_plugin<P: Plugin<V, S>>(&mut self, plugin: P, id: ComponentTypeId) -> (r: &mut Self)
        requires
            old(self).wf(),
        ensures
            *final(self) == *final(r),
            r.wf(),
            old(self).installed().contains(id) ==> *r == *old(self),
            old(self).installed().insert(id).subset_of(r.installed()),
            // Otherwise `build` ran once, on the app with `id` recorded.
            !old(self).installed().contains(id) ==> exists|a: &mut App<V, S>|
                {
                    &&& mut_ref_current(a).installed() == old(self).installed().insert(id)
                    &&& mut_ref_current(a).world_state() == old(self).world_state()
                    &&& mut_ref_current(a).schedule_state() == old(self).schedule_state()
                    &&& mut_ref_future(a) == *r
                    &&& #[trigger] call_ensures(P::build, (&plugin, a), ())
                },
    {
        if self.mark_installed(id) {
            plugin.build(self);
        }
        self
    }

    /// Registers a system at the end of the given stage.
    pub fn add_system(&mut self, stage: CoreStage, system: S) -> (r: &mut Self)
        requires
            old(self).wf(),
        ensures
            *final(self) == *final(r),
            r.wf(),
            r.world_state() == old(self).world_state(),
            r.installed() == old(self).installed(),
            r.schedule_state().systems() == old(self).schedule_state().systems().update(
                stage_rank(stage),
                old(self).schedule_state().systems()[stage_rank(stage)].push(system),
            ),
    {
        self.schedule.add_system(stage, system);
        self
    }

    /// Inserts a global resource into the world, replacing any previous one
    /// of its type.
    pub fn insert_resource(&mut self, type_id: ComponentTypeId, resource: V) -> (r: &mut Self)
        requires
            old(self).wf(),
        ensures
            *final(self) == *final(r),
            r.wf(),
            r.world_state().resource_map() == old(self).world_state().resource_map().insert(type_id, resource),
            r.world_state().components() == old(self).world_state().components(),
            r.world_state().frame_clock() == old(self).world_state().frame_clock(),
            r.schedule_state() == old(self).schedule_state(),
            r.installed() == old(self).installed(),
    {
        self.world.insert_resource(type_id, resource);
        self
    }

    /// Performs a single frame update: advances the frame clock, then runs
    /// every system of the schedule once on the world, stage by stage in
    /// execution order and, within a stage, in insertion order.
    pub fn update(&mut self)
        where S: FnMut(&mut World<V>)
        requires
            old(self).wf(),
            old(self).world_state().frame_clock().frames() < u64::MAX,
            forall|s: S, w: &mut World<V>| call_requires(s, (w,)),
        ensures
            final(self).schedule_state().wf(),
            final(self).schedule_state().systems() == old(self).schedule_state().systems(),
            final(self).installed() == old(self).installed(),
            // The frame clock recorded a frame first; then each system of
            // the schedule, in run order, ran once on the world: there are
            // intermediate worlds such that each system, called on the world
            // before it, returned with the world after it.
            exists|worlds: Seq<World<V>>|
                {
                    &&& #[trigger] worlds.len() == systems_in_run_order(old(self).schedule_state().systems()).len() + 1
                    &&& World::frame_started(old(self).world_state(), worlds[0])
                    &&& worlds[worlds.len() - 1] == final(self).world_state()
                    &&& forall|k: int|
                        #![trigger worlds[k]]
                        #![trigger within(k, systems_in_run_order(old(self).schedule_state().systems()).len() as int)]
                        within(k, systems_in_run_order(old(self).schedule_state().systems()).len() as int) ==> exists|w: &mut World<V>|
                            mut_ref_current(w) == worlds[k] && mut_ref_future(w) == worlds[k + 1]
                                && #[trigger] call_ensures(systems_in_run_order(old(self).schedule_state().systems())[k], (w,), ())
                },
    {
        self.world.tick_clock();
        self.schedule.run(&mut self.world);
    }

    /// Runs exactly one frame; the same as one [`App::update`].
    pub fn run_once(&mut self)
        where S: FnMut(&mut World<V>)
        requires
            old(self).wf(),
            old(self).world_state().frame_clock().frames() < u64::MAX,
            forall|s: S, w: &mut World<V>| call_requires(s, (w,)),
        ensures
            final(self).schedule_state().wf(),
            final(self).schedule_state().systems() == old(self).schedule_state().systems(),
            final(self).installed() == old(self).installed(),
            // The frame clock recorded a frame first; then each system of
            // the schedule, in run order, ran once on the world: there are
            // intermediate worlds such that each system, called on the world
            // before it, returned with the world after it.
            exists|worlds: Seq<World<V>>|
                {
                    &&& #[trigger] worlds.len() == systems_in_run_order(old(self).schedule_state().systems()).len() + 1
                    &&& World::frame_started(old(self).world_state(), worlds[0])
                    &&& worlds[worlds.len() - 1] == final(self).world_state()
                    &&& forall|k: int|
                        #![trigger worlds[k]]
                        #![trigger within(k, systems_in_run_order(old(self).schedule_state().systems()).len() as int)]
                        within(k, systems_in_run_order(old(self).schedule_state().systems()).len() as int) ==> exists|w: &mut World<V>|
                            mut_ref_current(w) == worlds[k] && mut_ref_future(w) == worlds[k + 1]
                                && #[trigger] call_ensures(systems_in_run_order(old(self).schedule_state().systems())[k], (w,), ())
                },
    {
        self.update();
    }
}

/// A plugin type is built at most once: once `mark_installed` has recorded
/// a type, recording it again reports `false` and leaves the installed set
/// as it was.
pub proof fn law_plugin_type_installed_once(installed: Set<ComponentTypeId>, id: ComponentTypeId)
    ensures
        installed.insert(id).contains(id),
        installed.insert(id).insert(id) == installed.insert(id),
{
    assert(installed.insert(id).insert(id) =~= installed.insert(id));
}

} // verus!
