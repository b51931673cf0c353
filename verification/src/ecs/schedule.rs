use vstd::prelude::*;

verus! {

/// Execution stages that define the order in which systems run each frame.
///
/// Systems registered to earlier stages run before those in later stages;
/// within a stage, systems run in insertion order.
#[derive(Debug, Clone, Copy, PartialEq, Eq, Hash, Structural)]
pub enum CoreStage {
    /// Runs before everything else. Setup, resource loading.
    First,
    /// Runs before the main update. Input processing, pre-physics.
    PreUpdate,
    /// Fixed-timestep update for physics and deterministic simulation.
    FixedUpdate,
    /// The main game logic update stage.
    Update,
    /// Runs after the main update. Cleanup, post-physics.
    PostUpdate,
    /// Last logic stage before rendering.
    Last,
    /// Render stage. Presentation and GPU submission.
    Render,
}

/// Number of stages.
pub const STAGE_COUNT: usize = 7;

/// Position of a stage in execution order.
pub open spec fn stage_rank(stage: CoreStage) -> int {
    match stage {
        CoreStage::First => 0,
        CoreStage::PreUpdate => 1,
        CoreStage::FixedUpdate => 2,
        CoreStage::Update => 3,
        CoreStage::PostUpdate => 4,
        CoreStage::Last => 5,
        CoreStage::Render => 6,
    }
}

/// The stage at position `i` of execution order.
pub open spec fn stage_at(i: int) -> CoreStage {
    if i <= 0 {
        CoreStage::First
    } else if i == 1 {
        CoreStage::PreUpdate
    } else if i == 2 {
        CoreStage::FixedUpdate
    } else if i == 3 {
        CoreStage::Update
    } else if i == 4 {
        CoreStage::PostUpdate
    } else if i == 5 {
        CoreStage::Last
    } else {
        CoreStage::Render
    }
}

impl CoreStage {
    /// Returns all stages in execution order.
    fn all_in_order() -> (r: Vec<CoreStage>)
        ensures
            r@.len() == STAGE_COUNT,
            forall|i: int| 0 <= i < STAGE_COUNT ==> #[trigger] r@[i] == stage_at(i),
    {
        let r = vec![
            CoreStage::First,
            CoreStage::PreUpdate,
            CoreStage::FixedUpdate,
            CoreStage::Update,
            CoreStage::PostUpdate,
            CoreStage::Last,
            CoreStage::Render,
        ];
        r
    }
}

/// The `(stage position, system position)` pairs of all systems, stage
/// by stage and, within a stage, in insertion order, for the first `k`
/// stages.
pub open spec fn run_sequence(lens: Seq<nat>, k: int) -> Seq<(int, int)>
    decreases k,
{
    if k <= 0 {
        Seq::empty()
    } else {
        run_sequence(lens, k - 1) + Seq::new(lens[k - 1], |i: int| (k - 1, i))
    }
}

/// The run sequence of the first `k` stages lists every system of those
/// stages exactly once, stage by stage and, within a stage, in insertion
/// order: earlier entries have an earlier stage, or the same stage and an
/// earlier position.
pub proof fn law_run_sequence_is_stage_then_insertion_order(lens: Seq<nat>, k: int)
    requires
        0 <= k <= lens.len(),
    ensures
        forall|i: int| 0 <= i < run_sequence(lens, k).len() ==> {
            let (s, x) = #[trigger] run_sequence(lens, k)[i];
            0 <= s < k && 0 <= x < lens[s]
        },
        forall|i: int, j: int| 0 <= i < j < run_sequence(lens, k).len() ==> {
            let a = #[trigger] run_sequence(lens, k)[i];
            let b = #[trigger] run_sequence(lens, k)[j];
            a.0 < b.0 || (a.0 == b.0 && a.1 < b.1)
        },
        forall|s: int, x: int| 0 <= s < k && 0 <= x < lens[s] ==> #[trigger] run_sequence(lens, k).contains((s, x)),
    decreases k,
{
    if k > 0 {
        law_run_sequence_is_stage_then_insertion_order(lens, k - 1);
        let prev = run_sequence(lens, k - 1);
        let tail = Seq::new(lens[k - 1], |i: int| (k - 1, i));
        let all = run_sequence(lens, k);
        assert(all == prev + tail);
        assert forall|s: int, x: int| 0 <= s < k && 0 <= x < lens[s] implies all.contains((s, x)) by {
            if s < k - 1 {
                assert(prev.contains((s, x)));
                let i = choose|i: int| 0 <= i < prev.len() && prev[i] == (s, x);
                assert(all[i] == (s, x));
            } else {
                assert(all[prev.len() + x] == (s, x));
            }
        }
        assert forall|i: int, j: int| 0 <= i < j < all.len() implies {
            let a = #[trigger] all[i];
            let b = #[trigger] all[j];
            a.0 < b.0 || (a.0 == b.0 && a.1 < b.1)
        } by {
            if j < prev.len() {
                assert(all[i] == prev[i] && all[j] == prev[j]);
            } else if i < prev.len() {
                assert(all[i] == prev[i]);
                assert(prev[i].0 < k - 1);
            }
        }
        assert forall|i: int| 0 <= i < all.len() implies {
            let (s, x) = #[trigger] all[i];
            0 <= s < k && 0 <= x < lens[s]
        } by {
            if i < prev.len() {
                assert(all[i] == prev[i]);
            }
        }
    }
}

/// The systems of all stages in the order they run: stage by stage and,
/// within a stage, in insertion order.
pub open spec fn systems_in_run_order<S>(systems: Seq<Seq<S>>) -> Seq<S> {
    let lens = Seq::new(systems.len(), |i: int| systems[i].len());
    let order = run_sequence(lens, STAGE_COUNT as int);
    Seq::new(order.len(), |k: int| systems[order[k].0][order[k].1])
}

/// `j` is a position of a sequence of length `n`.
pub open spec fn within(j: int, n: int) -> bool {
    0 <= j < n
}

/// The pairs of the run sequence name, position by position, the systems
/// in run order.
proof fn lemma_run_order_positions<S>(systems: Seq<Seq<S>>, order: Seq<(usize, usize)>)
    requires
        systems.len() == STAGE_COUNT,
        order.len() == run_sequence(Seq::new(systems.len(), |i: int| systems[i].len()), STAGE_COUNT as int).len(),
        forall|j: int|
            0 <= j < order.len() ==> (#[trigger] order[j]).0 as int == run_sequence(
                Seq::new(systems.len(), |i: int| systems[i].len()),
                STAGE_COUNT as int,
            )[j].0 && order[j].1 as int == run_sequence(
                Seq::new(systems.len(), |i: int| systems[i].len()),
                STAGE_COUNT as int,
            )[j].1,
    ensures
        order.len() == systems_in_run_order(systems).len(),
        forall|j: int| 0 <= j < order.len() ==> {
            let (st, x) = #[trigger] order[j];
            &&& st < STAGE_COUNT
            &&& x < systems[st as int].len()
            &&& systems[st as int][x as int] == systems_in_run_order(systems)[j]
        },
{
    let lens = Seq::new(systems.len(), |i: int| systems[i].len());
    law_run_sequence_is_stage_then_insertion_order(lens, STAGE_COUNT as int);
    assert forall|j: int| 0 <= j < order.len() implies {
        let (st, x) = #[trigger] order[j];
        &&& st < STAGE_COUNT
        &&& x < systems[st as int].len()
        &&& systems[st as int][x as int] == systems_in_run_order(systems)[j]
    } by {
        let e = run_sequence(lens, STAGE_COUNT as int)[j];
        assert(0 <= e.0 < STAGE_COUNT && 0 <= e.1 < lens[e.0]);
    }
}

/// A schedule that organizes systems into stages and runs them in order.
/// `S` is the type of a system.
pub struct Schedule<S> {
    stages: Vec<(CoreStage, Vec<S>)>,
}

impl<S> Schedule<S> {
    /// One entry per stage, in execution order.
    pub closed spec fn wf(&self) -> bool {
        &&& self.stages@.len() == STAGE_COUNT
        &&& forall|i: int| 0 <= i < STAGE_COUNT ==> (#[trigger] self.stages@[i]).0 == stage_at(i)
    }

    /// The systems of each stage, stages in execution order.
    pub closed spec fn systems(&self) -> Seq<Seq<S>> {
        Seq::new(self.stages@.len(), |i: int| self.stages@[i].1@)
    }

    /// Number of systems in each stage.
    pub open spec fn stage_lens(&self) -> Seq<nat> {
        Seq::new(self.systems().len(), |i: int| self.systems()[i].len())
    }

    /// Creates a schedule with every stage, in order, each without systems.
    pub fn new() -> (r: Self)
        ensures
            r.wf(),
            r.systems().len() == STAGE_COUNT,
            forall|i: int| 0 <= i < STAGE_COUNT ==> (#[trigger] r.systems()[i]).len() == 0,
    {
        let all = CoreStage::all_in_order();
        let mut stages: Vec<(CoreStage, Vec<S>)> = Vec::new();
        let mut i: usize = 0;
        while i < all.len()
            invariant
                all@.len() == STAGE_COUNT,
                forall|j: int| 0 <= j < STAGE_COUNT ==> #[trigger] all@[j] == stage_at(j),
                i <= STAGE_COUNT,
                stages@.len() == i,
                forall|j: int| 0 <= j < i ==> (#[trigger] stages@[j]).0 == stage_at(j) && stages@[j].1@.len() == 0,
            decreases STAGE_COUNT - i,
        {
            stages.push((all[i], Vec::new()));
            i = i + 1;
        }
        Schedule { stages }
    }

    /// Adds a system at the end of the given stage.
    pub fn add_system(&mut self, stage: CoreStage, system: S)
        requires
            old(self).wf(),
        ensures
            final(self).wf(),
            final(self).systems() == old(self).systems().update(
                stage_rank(stage),
                old(self).systems()[stage_rank(stage)].push(system),
            ),
    {
        let mut i: usize = 0;
        while i < self.stages.len()
            invariant
                self.wf(),
                *self == *old(self),
                i <= STAGE_COUNT,
                forall|j: int| 0 <= j < i ==> stage_at(j) != stage,
            decreases STAGE_COUNT - i,
        {
            if self.stages[i].0 == stage {
                let entry = &mut self.stages[i];
                entry.1.push(system);
                assert(stage_rank(stage) == i);
                assert(self.systems() =~= old(self).systems().update(
                    stage_rank(stage),
                    old(self).systems()[stage_rank(stage)].push(system),
                ));
                return;
            }
            i = i + 1;
        }
        assert(stage_at(stage_rank(stage)) == stage);
    }

    /// The order in which the systems run: `(stage position, system
    /// position)` pairs, stage by stage in execution order and, within a
    /// stage, in insertion order.
    pub fn run_order(&self) -> (r: Vec<(usize, usize)>)
        requires
            self.wf(),
        ensures
            r@.len() == run_sequence(self.stage_lens(), STAGE_COUNT as int).len(),
            forall|k: int|
                0 <= k < r@.len() ==> (#[trigger] r@[k]).0 as int == run_sequence(self.stage_lens(), STAGE_COUNT as int)[k].0
                    && r@[k].1 as int == run_sequence(self.stage_lens(), STAGE_COUNT as int)[k].1,
    {
        let ghost lens = self.stage_lens();
        let mut r: Vec<(usize, usize)> = Vec::new();
        let mut s: usize = 0;
        while s < self.stages.len()
            invariant
                self.wf(),
                lens == self.stage_lens(),
                s <= STAGE_COUNT,
                r@.len() == run_sequence(lens, s as int).len(),
                forall|k: int|
                    0 <= k < r@.len() ==> (#[trigger] r@[k]).0 as int == run_sequence(lens, s as int)[k].0
                        && r@[k].1 as int == run_sequence(lens, s as int)[k].1,
            decreases STAGE_COUNT - s,
        {
            let n = self.stages[s].1.len();
            assert(n == lens[s as int]);
            let ghost before = r@;
            let mut i: usize = 0;
            while i < n
                invariant
                    self.wf(),
                    lens == self.stage_lens(),
                    s < STAGE_COUNT,
                    n == lens[s as int],
                    i <= n,
                    r@.len() == before.len() + i,
                    before.len() == run_sequence(lens, s as int).len(),
                    forall|k: int| 0 <= k < before.len() ==> #[trigger] r@[k] == before[k],
                    forall|k: int|
                        0 <= k < before.len() ==> (#[trigger] before[k]).0 as int == run_sequence(lens, s as int)[k].0
                            && before[k].1 as int == run_sequence(lens, s as int)[k].1,
                    forall|k: int| 0 <= k < i ==> (#[trigger] r@[before.len() + k]).0 == s && r@[before.len() + k].1 == k,
                decreases n - i,
            {
                r.push((s, i));
                i = i + 1;
            }
            proof {
                let next = run_sequence(lens, s as int + 1);
                assert(next == run_sequence(lens, s as int) + Seq::new(lens[s as int], |i: int| (s as int, i)));
                assert forall|k: int| 0 <= k < r@.len() implies (#[trigger] r@[k]).0 as int == next[k].0 && r@[k].1 as int
                    == next[k].1 by {
                    if k < before.len() {
                        assert(r@[k] == before[k]);
                    } else {
                        let j = k - before.len();
                        assert(r@[before.len() + j].0 == s);
                    }
                }
            }
            s = s + 1;
        }
        r
    }

    /// The system at position `i` of stage position `stage`, mutably.
    pub fn system_mut(&mut self, stage: usize, i: usize) -> (r: &mut S)
        requires
            old(self).wf(),
            stage < old(self).systems().len(),
            i < old(self).systems()[stage as int].len(),
        ensures
            *r == old(self).systems()[stage as int][i as int],
            final(self).wf(),
            final(self).systems() == old(self).systems().update(
                stage as int,
                old(self).systems()[stage as int].update(i as int, *final(r)),
            ),
    {
        let entry = &mut self.stages[stage];
        assert(entry.1@ == old(self).systems()[stage as int]);
        let r = &mut entry.1[i];
        r
    }
}

impl<S> Schedule<S> {
    /// Runs every system once on `world`, in the order of
    /// [`Schedule::run_order`]: stage by stage in execution order and,
    /// within a stage, in insertion order.
    pub fn run<W>(&mut self, world: &mut W)
        where S: FnMut(&mut W)
        requires
            old(self).wf(),
            forall|s: S, w: &mut W| call_requires(s, (w,)),
        ensures
            final(self).wf(),
            final(self).systems() == old(self).systems(),
            // Each system, in run order, ran once: there are intermediate
            // worlds such that each system, called on the world before it,
            // returned with the world after it.
            exists|worlds: Seq<W>|
                {
                    &&& #[trigger] worlds.len() == systems_in_run_order(old(self).systems()).len() + 1
                    &&& worlds[0] == *old(world)
                    &&& worlds[worlds.len() - 1] == *final(world)
                    &&& forall|k: int|
                        #![trigger worlds[k]]
                        #![trigger within(k, systems_in_run_order(old(self).systems()).len() as int)]
                        within(k, systems_in_run_order(old(self).systems()).len() as int) ==> exists|w: &mut W|
                            mut_ref_current(w) == worlds[k] && mut_ref_future(w) == worlds[k + 1]
                                && #[trigger] call_ensures(systems_in_run_order(old(self).systems())[k], (w,), ())
                },
    {
        let order = self.run_order();
        proof {
            lemma_run_order_positions(self.systems(), order@);
        }
        let ghost run = systems_in_run_order(self.systems());
        let ws = self.run_from(world, &order, 0, Ghost(run));
        proof {
            assert forall|k: int|
                #![trigger ws@[k]]
                #![trigger within(k, systems_in_run_order(old(self).systems()).len() as int)]
                within(k, systems_in_run_order(old(self).systems()).len() as int) implies exists|w: &mut W|
                    mut_ref_current(w) == ws@[k] && mut_ref_future(w) == ws@[k + 1]
                        && #[trigger] call_ensures(systems_in_run_order(old(self).systems())[k], (w,), ()) by {
                let wk = ws@[k];
                assert(run[0 + k] == systems_in_run_order(old(self).systems())[k]);
                assert(exists|w: &mut W|
                    mut_ref_current(w) == wk && mut_ref_future(w) == ws@[k + 1]
                        && #[trigger] call_ensures(run[0 + k], (w,), ()));
            }
            assert(ws@.len() == run.len() + 1);
        }
    }

    /// Runs the systems at positions `k..` of `order`, one after another,
    /// on `world`.
    fn run_from<W>(
        &mut self,
        world: &mut W,
        order: &Vec<(usize, usize)>,
        k: usize,
        Ghost(run): Ghost<Seq<S>>,
    ) -> (ws: Ghost<Seq<W>>)
        where S: FnMut(&mut W)
        requires
            old(self).wf(),
            forall|s: S, w: &mut W| call_requires(s, (w,)),
            k <= order@.len(),
            order@.len() == run.len(),
            forall|j: int| 0 <= j < order@.len() ==> {
                let (st, x) = #[trigger] order@[j];
                &&& st < STAGE_COUNT
                &&& x < old(self).systems()[st as int].len()
                &&& old(self).systems()[st as int][x as int] == run[j]
            },
        ensures
            final(self).wf(),
            final(self).systems() == old(self).systems(),
            ws@.len() == order@.len() - k + 1,
            ws@[0] == *old(world),
            ws@[ws@.len() - 1] == *final(world),
            forall|j: int|
                #![trigger ws@[j]]
                #![trigger within(j, order@.len() - k)]
                within(j, order@.len() - k) ==> exists|w: &mut W|
                    mut_ref_current(w) == ws@[j] && mut_ref_future(w) == ws@[j + 1]
                        && #[trigger] call_ensures(run[k + j], (w,), ()),
        decreases order@.len() - k,
    {
        if k >= order.len() {
            let ghost only = seq![*world];
            return Ghost(only);
        }
        let (stage, i) = order[k];
        let ghost systems_before = self.systems();
        let ghost before = *world;
        let system = self.system_mut(stage, i);
        let ghost sys0 = *system;
        system(world);
        let ghost mid = *world;
        proof {
            assert(*system == sys0);
            assert(sys0 == run[k as int]);
            assert(exists|w: &mut W|
                mut_ref_current(w) == before && mut_ref_future(w) == mid
                    && #[trigger] call_ensures(run[k as int], (w,), ()));
        }
        assert(self.systems()[stage as int] =~= systems_before[stage as int]);
        assert(self.systems() =~= systems_before);
        let k1: usize = k + 1;
        let rest = self.run_from(world, order, k1, Ghost(run));
        let ghost all = seq![before] + rest@;
        proof {
            let n = order@.len() - k;
            assert(all.len() == n + 1);
            assert forall|j: int|
                #![trigger all[j]]
                #![trigger within(j, n)]
                within(j, n) implies exists|w: &mut W|
                    mut_ref_current(w) == all[j] && mut_ref_future(w) == all[j + 1]
                        && #[trigger] call_ensures(run[k + j], (w,), ()) by {
                if j == 0 {
                    assert(all[0] == before && all[1] == mid);
                    assert(run[k + j] == run[k as int]);
                } else {
                    assert(all[j] == rest@[j - 1] && all[j + 1] == rest@[j]);
                    assert(run[k + j] == run[k1 + (j - 1)]);
                    assert(0 <= j - 1 < order@.len() - k1);
                    assert(exists|w: &mut W|
                        mut_ref_current(w) == rest@[j - 1] && mut_ref_future(w) == rest@[(j - 1) + 1]
                            && #[trigger] call_ensures(run[k1 + (j - 1)], (w,), ()));
                }
            }
            assert(all[all.len() - 1] == *world);
        }
        let ws: Ghost<Seq<W>> = Ghost(all);
        proof {
            assert forall|j: int|
                #![trigger ws@[j]]
                #![trigger within(j, order@.len() - k)]
                within(j, order@.len() - k) implies exists|w: &mut W|
                    mut_ref_current(w) == ws@[j] && mut_ref_future(w) == ws@[j + 1]
                        && #[trigger] call_ensures(run[k + j], (w,), ()) by {
                let wj = all[j];
            }
        }
        ws
    }
}

impl<S> Default for Schedule<S> {
    fn default() -> (r: Self)
        ensures
            r.wf(),
            r.systems().len() == STAGE_COUNT,
            forall|i: int| 0 <= i < STAGE_COUNT ==> (#[trigger] r.systems()[i]).len() == 0,
    {
        Self::new()
    }
}

} // verus!
