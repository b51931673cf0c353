use vstd::prelude::*;

use crate::ecs::world::World;

verus! {

/// Perceived intent of the player.
#[derive(Debug, Clone, Copy, PartialEq, Eq, Structural)]
pub enum PerceivedIntent {
    Neutral,
    /// Approaching calmly, smiling.
    Friendly,
    /// Looking at the NPC, exploring.
    Curious,
    /// Moving quickly toward, angry expression.
    Aggressive,
    /// Moving away.
    Retreating,
    /// Reaching out to touch, gentle movement.
    Affectionate,
    /// Strong voice, pointing.
    Commanding,
    /// Sad expression, slow approach.
    Pleading,
}

impl Default for PerceivedIntent {
    fn default() -> (r: Self)
        ensures
            r == PerceivedIntent::Neutral,
    {
        PerceivedIntent::Neutral
    }
}

/// System that updates the player perception from sensor data. It reads
/// no sensor: it leaves the world as it is.
pub fn update_player_perception<V>(world: &mut World<V>)
    ensures
        *final(world) == *old(world),
{
}

} // verus!
