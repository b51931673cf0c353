//! The application: plugins, systems, resources, and fixed-timestep
//! bookkeeping.

pub mod time;
pub mod app;
pub mod plugin;
