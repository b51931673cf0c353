use vstd::prelude::*;

use crate::ecs::world::World;
use crate::interaction::memory::Relationship;

verus! {

/// Social distance categories (Edward T. Hall's proxemics), closest
/// first.
#[derive(Debug, Clone, Copy, PartialEq, Eq, PartialOrd, Ord, Structural)]
pub enum SocialDistance {
    /// Under 0.5 m: touching, whispering.
    Intimate,
    /// 0.5 to 1.2 m: close friends.
    Personal,
    /// 1.2 to 3.6 m: acquaintances.
    Social,
    /// Over 3.6 m: strangers.
    Public,
}

impl Default for SocialDistance {
    fn default() -> (r: Self)
        ensures
            r == SocialDistance::Public,
    {
        SocialDistance::Public
    }
}

/// The player stands closer than the NPC's comfort zone for this
/// relationship: a stranger keeps out of the intimate and personal zones,
/// an acquaintance out of the intimate zone; closer relationships allow
/// every zone.
pub open spec fn too_close(zone: SocialDistance, relationship: Relationship) -> bool {
    match relationship {
        Relationship::Stranger => zone == SocialDistance::Intimate || zone == SocialDistance::Personal,
        Relationship::Acquaintance => zone == SocialDistance::Intimate,
        _ => false,
    }
}

/// Position of a zone, closest first.
pub open spec fn zone_rank(zone: SocialDistance) -> int {
    match zone {
        SocialDistance::Intimate => 0,
        SocialDistance::Personal => 1,
        SocialDistance::Social => 2,
        SocialDistance::Public => 3,
    }
}

/// Position of a relationship, from stranger to soulmate.
pub open spec fn relationship_rank(relationship: Relationship) -> int {
    match relationship {
        Relationship::Stranger => 0,
        Relationship::Acquaintance => 1,
        Relationship::Familiar => 2,
        Relationship::Friend => 3,
        Relationship::Companion => 4,
        Relationship::Soulmate => 5,
    }
}

/// Discomfort only grows as the player comes closer and only shrinks as
/// the relationship deepens; the public zone is always comfortable; only
/// strangers and acquaintances are ever uncomfortable, so anyone familiar
/// or closer is comfortable everywhere; and a stranger is uncomfortable in
/// the personal zone, where an acquaintance is not.
pub proof fn law_discomfort_is_monotone(
    zone: SocialDistance,
    closer: SocialDistance,
    relationship: Relationship,
    deeper: Relationship,
)
    ensures
        too_close(zone, relationship) && zone_rank(closer) <= zone_rank(zone) ==> too_close(closer, relationship),
        too_close(zone, deeper) && relationship_rank(relationship) <= relationship_rank(deeper) ==> too_close(zone, relationship),
        !too_close(SocialDistance::Public, relationship),
        relationship_rank(relationship) >= relationship_rank(Relationship::Familiar) ==> !too_close(zone, relationship),
        too_close(SocialDistance::Personal, Relationship::Stranger),
        !too_close(SocialDistance::Personal, Relationship::Acquaintance),
{
}

impl SocialDistance {
    /// Is this distance closer than the NPC's comfort zone?
    pub fn is_uncomfortable(&self, relationship: &Relationship) -> (r: bool)
        ensures
            r == too_close(*self, *relationship),
    {
        match (self, relationship) {
            (SocialDistance::Intimate, Relationship::Stranger) => true,
            (SocialDistance::Intimate, Relationship::Acquaintance) => true,
            (SocialDistance::Personal, Relationship::Stranger) => true,
            _ => false,
        }
    }
}

/// System that updates proximity for all NPCs. It reads no player
/// position: it leaves the world as it is.
pub fn update_proximity<V>(world: &mut World<V>)
    ensures
        *final(world) == *old(world),
{
}

} // verus!
