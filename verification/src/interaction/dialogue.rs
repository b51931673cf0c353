use vstd::prelude::*;

use crate::entity::Entity;

verus! {

/// How the NPC responds (determined by its consciousness state).
#[derive(Debug, Clone, Copy, PartialEq, Eq, Structural)]
pub enum ResponseTone {
    Neutral,
    /// High maitri, low defense strain.
    Warm,
    /// High defense strain.
    Cautious,
    /// Low prediction error, high merit.
    Joyful,
    /// High vedana, close to a wound.
    Sorrowful,
    /// High awareness, strong vows.
    Assertive,
    /// Being asked about hearsay knowledge.
    Reluctant,
}

impl Default for ResponseTone {
    fn default() -> (r: Self)
        ensures
            r == ResponseTone::Neutral,
    {
        ResponseTone::Neutral
    }
}

/// Events emitted during dialogue.
#[derive(Debug, Clone)]
pub struct DialogueEvent {
    pub npc_entity: Entity,
    pub event_type: DialogueEventType,
    pub text: Option<String>,
}

/// Types of dialogue events.
#[derive(Debug, Clone, PartialEq, Eq, Structural)]
pub enum DialogueEventType {
    Started,
    PlayerSpoke,
    NpcResponded,
    TopicChanged,
    Ended,
    TrustIncreased,
    TrustDecreased,
}

} // verus!
