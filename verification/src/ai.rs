//! Plain data of the NPC consciousness subsystem.

use vstd::prelude::*;

use crate::application::app::App;
use crate::application::plugin::Plugin;

verus! {

/// The tier of contact through which knowledge was acquired.
#[derive(Debug, Clone, Copy, PartialEq, Eq, Structural)]
pub enum ContactTier {
    /// Direct experience: the NPC witnessed or experienced this.
    FirstHand,
    /// Derived from reasoning or inference.
    Derived,
    /// Heard from another entity: lowest reliability.
    Hearsay,
}

/// The number of entries of `tiers` that are `tier`.
pub open spec fn tier_count(tiers: Seq<ContactTier>, tier: ContactTier) -> nat
    decreases tiers.len(),
{
    if tiers.len() == 0 {
        0
    } else {
        tier_count(tiers.drop_last(), tier) + if tiers.last() == tier {
            1nat
        } else {
            0nat
        }
    }
}

/// Counts the entries of `tiers` that are `tier`; with
/// [`ContactTier::FirstHand`], the first-hand knowledge of an NPC.
pub fn count_tier(tiers: &Vec<ContactTier>, tier: ContactTier) -> (r: usize)
    ensures
        r == tier_count(tiers@, tier),
{
    let mut count: usize = 0;
    let mut i: usize = 0;
    while i < tiers.len()
        invariant
            i <= tiers@.len(),
            count <= i,
            count == tier_count(tiers@.take(i as int), tier),
        decreases tiers@.len() - i,
    {
        assert(tiers@.take(i + 1).drop_last() =~= tiers@.take(i as int));
        if tiers[i] == tier {
            count = count + 1;
        }
        i = i + 1;
    }
    assert(tiers@.take(i as int) =~= tiers@);
    count
}

/// The three root poisons.
#[derive(Debug, Clone, Copy, PartialEq, Eq, Structural)]
pub enum PoisonType {
    /// Lobha: greed, attachment.
    Lobha,
    /// Dosa: hatred, aversion.
    Dosa,
    /// Moha: delusion, ignorance.
    Moha,
}

/// Plugin that activates the NPC consciousness subsystem. It registers
/// no system and no resource.
pub struct AiPlugin;

impl<V, S> Plugin<V, S> for AiPlugin {
    fn build(&self, app: &mut App<V, S>)
        ensures
            *final(app) == *old(app),
    {
    }
}

} // verus!
