use vstd::prelude::*;

verus! {

/// Where on the NPC the player is touching.
#[derive(Debug, Clone, Copy, PartialEq, Eq, Hash, Structural)]
pub enum TouchZone {
    Head,
    Face,
    Shoulder,
    Hand,
    Back,
    Arm,
    /// Not being touched.
    NoZone,
}

impl Default for TouchZone {
    fn default() -> (r: Self)
        ensures
            r == TouchZone::NoZone,
    {
        TouchZone::NoZone
    }
}

/// NPC response to being touched.
#[derive(Debug, Clone, Copy, PartialEq, Eq, Structural)]
pub enum PettingResponse {
    /// Relaxes, purrs, leans in.
    Enjoy,
    /// Accepts but does not react much.
    Tolerate,
    /// Blushes, looks away, but does not reject.
    Shy,
    /// Startled but not negative.
    Surprise,
    /// Pulls away; defense strain increases.
    Reject,
    /// Deep trust moment; merit increases for both.
    Trust,
}

} // verus!
