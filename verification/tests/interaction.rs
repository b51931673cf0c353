use chemengine::interaction::dialogue::{DialogueEvent, DialogueEventType, ResponseTone};
use chemengine::interaction::memory::Relationship;
use chemengine::interaction::perception::{update_player_perception, PerceivedIntent};
use chemengine::interaction::proximity::{update_proximity, SocialDistance};
use chemengine::interaction::touch::TouchZone;
use chemengine::ecs::world::World;
use chemengine::entity::Entity;

#[test]
fn uncomfortable_stranger_intimate() {
    assert!(SocialDistance::Intimate.is_uncomfortable(&Relationship::Stranger));
}

#[test]
fn uncomfortable_acquaintance_intimate() {
    assert!(SocialDistance::Intimate.is_uncomfortable(&Relationship::Acquaintance));
}

#[test]
fn uncomfortable_stranger_personal() {
    assert!(SocialDistance::Personal.is_uncomfortable(&Relationship::Stranger));
}

#[test]
fn comfortable_friend_intimate() {
    assert!(!SocialDistance::Intimate.is_uncomfortable(&Relationship::Friend));
}

#[test]
fn comfortable_stranger_social() {
    assert!(!SocialDistance::Social.is_uncomfortable(&Relationship::Stranger));
}

#[test]
fn comfortable_stranger_public() {
    assert!(!SocialDistance::Public.is_uncomfortable(&Relationship::Stranger));
}

#[test]
fn acquaintance_accepts_personal_distance() {
    assert!(!SocialDistance::Personal.is_uncomfortable(&Relationship::Acquaintance));
    assert!(!SocialDistance::Intimate.is_uncomfortable(&Relationship::Soulmate));
}

#[test]
fn defaults_are_the_neutral_values() {
    assert_eq!(SocialDistance::default(), SocialDistance::Public);
    assert_eq!(TouchZone::default(), TouchZone::NoZone);
    assert_eq!(PerceivedIntent::default(), PerceivedIntent::Neutral);
    assert_eq!(ResponseTone::default(), ResponseTone::Neutral);
}

#[test]
fn zones_and_relationships_are_ordered_closest_first() {
    assert!(SocialDistance::Intimate < SocialDistance::Personal);
    assert!(SocialDistance::Social < SocialDistance::Public);
    assert!(Relationship::Stranger < Relationship::Soulmate);
}

#[test]
fn unconnected_systems_leave_the_world_unchanged() {
    let mut world: World<u8> = World::new();
    let e = world.spawn();
    update_player_perception(&mut world);
    update_proximity(&mut world);
    assert_eq!(world.entity_count(), 1);
    assert_eq!(world.entities_with2(chemengine::type_id::ComponentTypeId::of::<u8>(), chemengine::type_id::ComponentTypeId::of::<u8>()).len(), 0);
    let _ = e;
}

#[test]
fn dialogue_event_carries_its_fields() {
    let ev = DialogueEvent {
        npc_entity: Entity { index: 3, generation: 1 },
        event_type: DialogueEventType::PlayerSpoke,
        text: Some("hi".to_string()),
    };
    assert_eq!(ev.event_type, DialogueEventType::PlayerSpoke);
    assert_eq!(ev.npc_entity.index, 3);
}
