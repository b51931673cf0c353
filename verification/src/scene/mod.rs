//! Scene: the entity hierarchy, names, and transform propagation.

pub mod hierarchy;
pub mod name;

use vstd::prelude::*;

use crate::ecs::world::World;

verus! {

/// The transform propagation system. It walks no hierarchy: it leaves
/// the world as it is.
pub fn propagate_transforms<V>(world: &mut World<V>)
    ensures
        *final(world) == *old(world),
{
}

/// Plugin that registers transform propagation with an app.
pub struct ScenePlugin;

} // verus!
