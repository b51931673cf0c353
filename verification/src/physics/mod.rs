//! Physics: body kinds, the GPU integration dispatch geometry and the
//! broad-phase cell grid.

pub mod spatial;

use vstd::prelude::*;

verus! {

/// Invocations per workgroup of the integration shader.
pub const WORKGROUP_SIZE: u32 = 256;

/// How a rigid body moves.
#[derive(Debug, Clone, Copy, PartialEq, Eq, Structural)]
pub enum BodyType {
    /// Never moves (ground, walls).
    Static,
    /// Affected by forces and gravity.
    Dynamic,
    /// Moves but is not affected by forces (platforms).
    Kinematic,
}

/// Manages GPU-side physics computation.
pub struct GpuPhysics {
    /// The WGSL shader source.
    pub shader_source: &'static str,
    /// Number of bodies.
    pub body_count: u32,
}

impl GpuPhysics {
    /// Creates the GPU physics state for the given integration shader,
    /// with no bodies.
    pub fn new(shader_source: &'static str) -> (r: Self)
        ensures
            r.shader_source == shader_source,
            r.body_count == 0,
    {
        GpuPhysics { shader_source, body_count: 0 }
    }

    /// Number of workgroups that cover `body_count` bodies: the quotient
    /// by the workgroup size, rounded up.
    pub fn workgroup_count(body_count: u32) -> (r: u32)
        ensures
            r == (body_count + WORKGROUP_SIZE - 1) / (WORKGROUP_SIZE as int),
    {
        let whole = body_count / WORKGROUP_SIZE;
        if body_count % WORKGROUP_SIZE == 0 {
            whole
        } else {
            whole + 1
        }
    }
}

} // verus!
