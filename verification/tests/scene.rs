use chemengine::entity::Entity;
use chemengine::scene::hierarchy::{Children, Parent};
use chemengine::scene::name::Name;

fn make_entity(index: u32) -> Entity {
    Entity { index, generation: 0 }
}

#[test]
fn children_add_and_contains() {
    let mut children = Children::new();
    let e = make_entity(1);
    assert!(!children.contains(e));
    children.add(e);
    assert!(children.contains(e));
    assert_eq!(children.len(), 1);
}

#[test]
fn children_remove() {
    let mut children = Children::new();
    let e1 = make_entity(1);
    let e2 = make_entity(2);
    children.add(e1);
    children.add(e2);
    assert_eq!(children.len(), 2);
    children.remove(e1);
    assert!(!children.contains(e1));
    assert!(children.contains(e2));
    assert_eq!(children.len(), 1);
}

#[test]
fn children_no_duplicates() {
    let mut children = Children::new();
    let e = make_entity(5);
    children.add(e);
    children.add(e);
    assert_eq!(children.len(), 1);
}

#[test]
fn parent_stores_entity() {
    let e = make_entity(42);
    let parent = Parent(e);
    assert_eq!(parent.0.index, 42);
    assert_eq!(parent.0.generation, 0);
}

#[test]
fn children_is_empty() {
    let children = Children::new();
    assert!(children.is_empty());
}

#[test]
fn children_iter() {
    let mut children = Children::new();
    children.add(make_entity(1));
    children.add(make_entity(2));
    children.add(make_entity(3));
    let collected: Vec<&Entity> = children.iter().collect();
    assert_eq!(collected.len(), 3);
}

#[test]
fn children_default_is_empty() {
    let children = Children::default();
    assert!(children.is_empty());
    assert_eq!(children.len(), 0);
}

#[test]
fn children_remove_nonexistent_is_noop() {
    let mut children = Children::new();
    let e1 = make_entity(1);
    let e2 = make_entity(2);
    children.add(e1);
    children.remove(e2);
    assert_eq!(children.len(), 1);
    assert!(children.contains(e1));
}

#[test]
fn children_remove_keeps_order_of_the_rest() {
    let mut children = Children::new();
    for i in 1..=4 {
        children.add(make_entity(i));
    }
    children.remove(make_entity(2));
    let order: Vec<u32> = children.iter().map(|e| e.index).collect();
    assert_eq!(order, vec![1, 3, 4]);
}

#[test]
fn name_display() {
    let name = Name::new("Player");
    assert_eq!(format!("{}", name.to_string()), "Player");
}

#[test]
fn name_as_str() {
    let name = Name::new("Camera");
    assert_eq!(name.as_str(), "Camera");
}

#[test]
fn name_clone() {
    let name = Name::new("Entity");
    let cloned = name.clone();
    assert_eq!(cloned.as_str(), "Entity");
}

#[test]
fn name_debug() {
    let name = Name::new("Debug");
    let debug_str = format!("{:?}", name);
    assert!(debug_str.contains("Debug"));
}

#[test]
fn propagate_transforms_does_not_panic() {
    let mut world: chemengine::ecs::world::World<u8> = chemengine::ecs::world::World::new();
    chemengine::scene::propagate_transforms(&mut world);
}
