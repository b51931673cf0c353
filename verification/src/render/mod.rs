//! Render graph: a DAG of render passes with resource dependencies.

pub mod dag;
pub mod graph;
pub mod gpu;
pub mod stereo;
pub mod upscale;
