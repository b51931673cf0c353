use vstd::prelude::*;

verus! {

/// Relationship level with the player, from no history to maximum trust.
#[derive(Debug, Clone, Copy, PartialEq, Eq, PartialOrd, Ord, Structural)]
pub enum Relationship {
    /// No history.
    Stranger,
    /// A few interactions.
    Acquaintance,
    /// Regular interactions.
    Familiar,
    /// Trust built up.
    Friend,
    /// Deep bond.
    Companion,
    /// Maximum trust (rare).
    Soulmate,
}

} // verus!
