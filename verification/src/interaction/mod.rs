//! Player/NPC interaction: proxemics, touch, dialogue and perception.

pub mod dialogue;
pub mod memory;
pub mod perception;
pub mod proximity;
pub mod touch;

use vstd::prelude::*;

verus! {

/// Plugin that wires the interaction systems (player perception before
/// the update stage, proximity in it) into an app.
pub struct InteractionPlugin;

} // verus!
