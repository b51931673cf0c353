//! ChemEngine core: generational entity handles, sparse sets, an
//! archetype-based entity component system, a render graph and the small
//! plain-data types shared by the engine's subsystems.

pub mod entity;
pub mod sparse_set;
pub mod type_id;
pub mod ecs;
pub mod render;
pub mod application;
pub mod scene;
pub mod ai;
pub mod chemistry;
pub mod compute;
pub mod interaction;
pub mod physics;
pub mod window;
