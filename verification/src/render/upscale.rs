//! The temporal upscaler's node in the render graph: the resources it
//! reads and writes.

use vstd::prelude::*;

use crate::render::graph::{resource_names, resource_names_of_strs, PassId, RenderGraph};

verus! {

/// Low-resolution color, rendered with jitter.
pub const LOWRES_COLOR: &'static str = "lowres_color";

/// Low-resolution depth.
pub const LOWRES_DEPTH: &'static str = "lowres_depth";

/// Low-resolution motion vectors.
pub const LOWRES_MOTION: &'static str = "lowres_motion";

/// The previous frame's upscaled color (history).
pub const PREV_COLOR: &'static str = "prev_color";

/// The upscaled output.
pub const UPSCALED_COLOR: &'static str = "upscaled_color";

/// Registers the upscaling pass: a new pass named `upscale_taa` that
/// reads the low-resolution color, depth and motion and the previous
/// output, and writes the upscaled color. Sets no callback; invalidates
/// any previous compilation. Returns the new pass's id.
pub fn add_upscale_pass<F>(graph: &mut RenderGraph<F>) -> (r: PassId)
    requires
        old(graph).wf(),
        old(graph).n() < u32::MAX,
    ensures
        final(graph).wf(),
        r == PassId(old(graph).n() as u32),
        final(graph).nodes().len() == old(graph).nodes().len() + 1,
        final(graph).nodes().subrange(0, old(graph).n()) == old(graph).nodes(),
        final(graph).nodes()[old(graph).n()].pass_id() == r,
        final(graph).nodes()[old(graph).n()].pass_name() == "upscale_taa"@,
        resource_names(final(graph).nodes()[old(graph).n()].reads_list()) == seq![
            LOWRES_COLOR@,
            LOWRES_DEPTH@,
            LOWRES_MOTION@,
            PREV_COLOR@,
        ],
        resource_names(final(graph).nodes()[old(graph).n()].writes_list()) == seq![UPSCALED_COLOR@],
        !final(graph).nodes()[old(graph).n()].has_callback(),
        final(graph).explicit_edges() == old(graph).explicit_edges(),
        final(graph).order() is None,
{
    let id = graph.add_pass("upscale_taa");
    let ghost after_add = graph.nodes();
    let reads: [&str; 4] = [LOWRES_COLOR, LOWRES_DEPTH, LOWRES_MOTION, PREV_COLOR];
    graph.set_pass_reads(id, &reads);
    let writes: [&str; 1] = [UPSCALED_COLOR];
    graph.set_pass_writes(id, &writes);
    proof {
        assert(resource_names_of_strs(reads@) =~= seq![LOWRES_COLOR@, LOWRES_DEPTH@, LOWRES_MOTION@, PREV_COLOR@]);
        assert(resource_names_of_strs(writes@) =~= seq![UPSCALED_COLOR@]);
        assert(graph.nodes().subrange(0, old(graph).n()) =~= old(graph).nodes());
    }
    id
}

} // verus!
