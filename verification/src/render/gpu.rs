use vstd::prelude::*;

use crate::application::app::App;
use crate::application::plugin::Plugin;

verus! {

/// Result of GPU culling for one object: 1 = visible, 0 = culled.
#[derive(Debug, Clone, Copy, Default)]
pub struct CullResult {
    pub visible: u32,
}

/// Manages GPU culling resources and pipeline.
pub struct GpuCullPipeline {
    /// The WGSL shader source.
    pub shader_source: &'static str,
    /// Number of objects to cull.
    pub object_count: u32,
}

impl GpuCullPipeline {
    /// Creates the culling pipeline state for the given shader, with no
    /// objects.
    pub fn new(shader_source: &'static str) -> (r: Self)
        ensures
            r.shader_source == shader_source,
            r.object_count == 0,
    {
        GpuCullPipeline { shader_source, object_count: 0 }
    }
}

/// A single indirect draw command (the layout of an indirect draw's
/// arguments).
#[derive(Debug, Clone, Copy, Default, PartialEq, Eq, Structural)]
pub struct DrawIndirectCommand {
    pub vertex_count: u32,
    /// 0 = culled, 1 = visible.
    pub instance_count: u32,
    pub first_vertex: u32,
    pub first_instance: u32,
}

/// A single indexed indirect draw command.
#[derive(Debug, Clone, Copy, Default)]
pub struct DrawIndexedIndirectCommand {
    pub index_count: u32,
    pub instance_count: u32,
    pub first_index: u32,
    pub base_vertex: i32,
    pub first_instance: u32,
}

/// The number of commands in `commands` that draw at least one instance.
pub open spec fn drawn_count(commands: Seq<DrawIndirectCommand>) -> nat
    decreases commands.len(),
{
    if commands.len() == 0 {
        0
    } else {
        drawn_count(commands.drop_last()) + if commands.last().instance_count > 0 {
            1nat
        } else {
            0nat
        }
    }
}

/// The number of `true` entries of `flags`.
pub open spec fn true_count(flags: Seq<bool>) -> nat
    decreases flags.len(),
{
    if flags.len() == 0 {
        0
    } else {
        true_count(flags.drop_last()) + if flags.last() {
            1nat
        } else {
            0nat
        }
    }
}

/// Once a cull has set each command's instance count from the visibility
/// of its object (1 when visible, 0 when culled), the commands that draw
/// are exactly as many as the visible objects.
pub proof fn law_drawn_commands_are_the_visible_objects(
    commands: Seq<DrawIndirectCommand>,
    visible: Seq<bool>,
)
    requires
        commands.len() == visible.len(),
        forall|i: int| 0 <= i < visible.len() ==>
            (#[trigger] commands[i]).instance_count == (if visible[i] { 1u32 } else { 0u32 }),
    ensures
        drawn_count(commands) == true_count(visible),
    decreases commands.len(),
{
    if commands.len() > 0 {
        let n = (commands.len() - 1) as int;
        assert(commands[n].instance_count == (if visible[n] { 1u32 } else { 0u32 }));
        law_drawn_commands_are_the_visible_objects(commands.drop_last(), visible.drop_last());
    }
}

/// The draw list for indirect rendering: one object record of type `O`
/// and one indirect command per object. The command of the object at
/// position `i` draws instance `i`; culling sets its instance count to 0
/// (culled) or 1 (visible).
pub struct GpuDrawList<O> {
    /// All object data (uploaded to the GPU each frame).
    pub objects: Vec<O>,
    /// Pre-generated indirect commands (one per object).
    pub commands: Vec<DrawIndirectCommand>,
    /// Number of visible objects after the last cull.
    pub visible_count: u32,
}

impl<O> GpuDrawList<O> {
    /// One command per object.
    pub open spec fn wf(&self) -> bool {
        self.objects@.len() == self.commands@.len()
    }

    /// An empty draw list.
    pub fn new() -> (r: Self)
        ensures
            r.wf(),
            r.objects@.len() == 0,
            r.commands@.len() == 0,
            r.visible_count == 0,
    {
        GpuDrawList { objects: Vec::new(), commands: Vec::new(), visible_count: 0 }
    }

    /// An empty draw list with room reserved for `capacity` objects.
    pub fn with_capacity(capacity: usize) -> (r: Self)
        ensures
            r.wf(),
            r.objects@.len() == 0,
            r.commands@.len() == 0,
            r.visible_count == 0,
    {
        GpuDrawList {
            objects: Vec::with_capacity(capacity),
            commands: Vec::with_capacity(capacity),
            visible_count: 0,
        }
    }

    /// Adds an object whose mesh has `vertex_count` vertices starting at
    /// `first_vertex` in the global vertex buffer. Its command is visible
    /// until the next cull. Returns the object's index (its position,
    /// truncated to 32 bits).
    pub fn add_object(&mut self, data: O, vertex_count: u32, first_vertex: u32) -> (r: u32)
        ensures
            r == old(self).objects@.len() as u32,
            final(self).objects@ == old(self).objects@.push(data),
            final(self).commands@ == old(self).commands@.push(
                DrawIndirectCommand { vertex_count, instance_count: 1, first_vertex, first_instance: r },
            ),
            final(self).visible_count == old(self).visible_count,
            old(self).wf() ==> final(self).wf(),
    {
        let idx = self.objects.len() as u32;
        self.commands.push(
            DrawIndirectCommand { vertex_count, instance_count: 1, first_vertex, first_instance: idx },
        );
        self.objects.push(data);
        idx
    }

    /// Empties the list for a new frame.
    pub fn clear(&mut self)
        ensures
            final(self).wf(),
            final(self).objects@.len() == 0,
            final(self).commands@.len() == 0,
            final(self).visible_count == 0,
    {
        self.objects.clear();
        self.commands.clear();
        self.visible_count = 0;
    }

    /// The number of objects, truncated to 32 bits.
    pub fn object_count(&self) -> (r: u32)
        ensures
            r == self.objects@.len() as u32,
    {
        self.objects.len() as u32
    }

    /// The number of commands that draw at least one instance, truncated
    /// to 32 bits.
    pub fn count_visible(&self) -> (r: u32)
        ensures
            r == drawn_count(self.commands@) as u32,
    {
        let mut n: usize = 0;
        let mut i: usize = 0;
        while i < self.commands.len()
            invariant
                i <= self.commands@.len(),
                n == drawn_count(self.commands@.subrange(0, i as int)),
                n <= i,
            decreases self.commands@.len() - i,
        {
            assert(self.commands@.subrange(0, i + 1).drop_last() == self.commands@.subrange(0, i as int));
            if self.commands[i].instance_count > 0 {
                n = n + 1;
            }
            i = i + 1;
        }
        assert(self.commands@.subrange(0, i as int) == self.commands@);
        n as u32
    }

    /// Records the outcome of a cull: the command of object `i` draws one
    /// instance when `visible[i]` holds and none otherwise, and
    /// `visible_count` becomes the number of visible objects. Commands past
    /// the last object are left as they are.
    pub fn apply_cull_results(&mut self, visible: &Vec<bool>)
        requires
            visible@.len() == old(self).objects@.len(),
            old(self).objects@.len() <= old(self).commands@.len(),
            old(self).objects@.len() <= u32::MAX,
        ensures
            final(self).objects@ == old(self).objects@,
            final(self).commands@.len() == old(self).commands@.len(),
            forall|i: int| 0 <= i < visible@.len() ==> {
                let c = #[trigger] final(self).commands@[i];
                let o = old(self).commands@[i];
                &&& c.instance_count == (if visible@[i] { 1u32 } else { 0u32 })
                &&& c.vertex_count == o.vertex_count
                &&& c.first_vertex == o.first_vertex
                &&& c.first_instance == o.first_instance
            },
            forall|i: int| visible@.len() <= i < old(self).commands@.len() ==>
                #[trigger] final(self).commands@[i] == old(self).commands@[i],
            final(self).visible_count == drawn_count(final(self).commands@.subrange(0, visible@.len() as int)),
    {
        self.visible_count = 0;
        let mut i: usize = 0;
        while i < self.objects.len()
            invariant
                i <= self.objects@.len(),
                visible@.len() == self.objects@.len(),
                self.objects@.len() <= self.commands@.len(),
                self.objects@.len() <= u32::MAX,
                self.objects@ == old(self).objects@,
                self.commands@.len() == old(self).commands@.len(),
                forall|k: int| 0 <= k < i ==> {
                    let c = #[trigger] self.commands@[k];
                    let o = old(self).commands@[k];
                    &&& c.instance_count == (if visible@[k] { 1u32 } else { 0u32 })
                    &&& c.vertex_count == o.vertex_count
                    &&& c.first_vertex == o.first_vertex
                    &&& c.first_instance == o.first_instance
                },
                forall|k: int| i <= k < self.commands@.len() ==> #[trigger] self.commands@[k] == old(self).commands@[k],
                self.visible_count == drawn_count(self.commands@.subrange(0, i as int)),
                self.visible_count <= i,
            decreases self.objects@.len() - i,
        {
            let ghost before = self.commands@;
            let mut c = self.commands[i];
            c.instance_count = if visible[i] { 1 } else { 0 };
            self.commands.set(i, c);
            assert(self.commands@.subrange(0, i as int) == before.subrange(0, i as int));
            assert(self.commands@.subrange(0, i + 1).drop_last() == self.commands@.subrange(0, i as int));
            if visible[i] {
                self.visible_count = self.visible_count + 1;
            }
            i = i + 1;
        }
    }
}

impl<O> Default for GpuDrawList<O> {
    fn default() -> (r: Self)
        ensures
            r.wf(),
            r.objects@.len() == 0,
            r.commands@.len() == 0,
            r.visible_count == 0,
    {
        Self::new()
    }
}

/// Plugin for render systems. GPU initialisation happens in the
/// embedding application; it registers nothing.
pub struct RenderPlugin;

impl<V, S> Plugin<V, S> for RenderPlugin {
    fn build(&self, app: &mut App<V, S>)
        ensures
            *final(app) == *old(app),
    {
    }
}

} // verus!
