//! Archetype-based entity component system.

pub mod archetype;
pub mod column;
pub mod event;
pub mod resource;
pub mod schedule;
pub mod world;
