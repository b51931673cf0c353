//! Compute backends: capability descriptors and the CPU fallback.

use vstd::prelude::*;

use crate::application::app::App;
use crate::application::plugin::Plugin;

verus! {

/// Identifies which compute backend is in use.
#[derive(Debug, Clone, Copy, PartialEq, Eq, Structural)]
pub enum BackendKind {
    Wgpu,
    Cuda,
    Hip,
    Cpu,
}

/// Describes the capabilities of a compute backend.
pub struct ComputeCapabilities {
    pub backend: BackendKind,
    pub max_workgroup_size: u32,
    pub max_buffer_size: u64,
}

/// A GPU or CPU compute backend.
pub trait ComputeEngine {
    /// The capabilities of this backend.
    fn capabilities(&self) -> ComputeCapabilities;

    /// A human-readable name for this backend.
    fn backend_name(&self) -> &str;
}

/// A CPU-only fallback compute backend: it dispatches to no GPU, so that
/// the engine can run, slowly, without a suitable adapter.
pub struct CpuBackend;

impl CpuBackend {
    pub fn new() -> (r: Self) {
        CpuBackend
    }
}

impl Default for CpuBackend {
    fn default() -> (r: Self) {
        CpuBackend::new()
    }
}

impl ComputeEngine for CpuBackend {
    /// One invocation per workgroup, buffers up to `u64::MAX` bytes.
    fn capabilities(&self) -> (r: ComputeCapabilities)
        ensures
            r.backend == BackendKind::Cpu,
            r.max_workgroup_size == 1,
            r.max_buffer_size == u64::MAX,
    {
        ComputeCapabilities { backend: BackendKind::Cpu, max_workgroup_size: 1, max_buffer_size: u64::MAX }
    }

    /// The name `"cpu"`.
    fn backend_name(&self) -> (r: &str)
        ensures
            r@ == "cpu"@,
    {
        "cpu"
    }
}

/// Plugin that registers the compute subsystem. It registers no system
/// and no resource.
pub struct ComputePlugin;

impl<V, S> Plugin<V, S> for ComputePlugin {
    fn build(&self, app: &mut App<V, S>)
        ensures
            *final(app) == *old(app),
    {
    }
}

} // verus!
