use std::any::Any;

use chemengine::ecs::world::World;
use chemengine::entity::Entity;
use chemengine::type_id::ComponentTypeId;

type Value = Box<dyn Any + Send + Sync>;

fn id<T: 'static>() -> ComponentTypeId {
    ComponentTypeId::of::<T>()
}

fn insert<T: Any + Send + Sync>(world: &mut World<Value>, e: Entity, value: T) {
    world.insert_component(e, id::<T>(), Box::new(value));
}

fn get<T: Any>(world: &World<Value>, e: Entity) -> Option<&T> {
    world.get_component(e, id::<T>()).and_then(|v| v.downcast_ref::<T>())
}

fn get_mut<T: Any>(world: &mut World<Value>, e: Entity) -> Option<&mut T> {
    world.get_component_mut(e, id::<T>()).and_then(|v| v.downcast_mut::<T>())
}

fn remove<T: Any>(world: &mut World<Value>, e: Entity) -> Option<T> {
    world.remove_component(e, id::<T>()).and_then(|v| v.downcast::<T>().ok()).map(|b| *b)
}

fn query<T: Any>(world: &World<Value>) -> Vec<(Entity, &T)> {
    world.query(id::<T>()).into_iter().filter_map(|(e, v)| v.downcast_ref::<T>().map(|t| (e, t))).collect()
}

fn query2<A: Any, B: Any>(world: &World<Value>) -> Vec<(Entity, &A, &B)> {
    world
        .query2(id::<A>(), id::<B>())
        .into_iter()
        .filter_map(|(e, a, b)| match (a.downcast_ref::<A>(), b.downcast_ref::<B>()) {
            (Some(a), Some(b)) => Some((e, a, b)),
            _ => None,
        })
        .collect()
}

fn insert_resource<T: Any + Send + Sync>(world: &mut World<Value>, value: T) {
    world.insert_resource(id::<T>(), Box::new(value));
}

fn get_resource<T: Any>(world: &World<Value>) -> Option<&T> {
    world.get_resource(id::<T>()).and_then(|v| v.downcast_ref::<T>())
}

fn get_resource_mut<T: Any>(world: &mut World<Value>) -> Option<&mut T> {
    world.get_resource_mut(id::<T>()).and_then(|v| v.downcast_mut::<T>())
}

#[derive(Debug, PartialEq, Clone)]
struct Position {
    x: f32,
    y: f32,
}

#[derive(Debug, PartialEq, Clone)]
struct Velocity {
    dx: f32,
    dy: f32,
}

#[derive(Debug, PartialEq, Clone)]
struct Health(i32);

#[derive(Debug, PartialEq)]
struct Name(String);

#[test]
fn spawn_returns_unique_entities() {
    let mut world: World<Value> = World::new();
    let e1 = world.spawn();
    let e2 = world.spawn();
    let e3 = world.spawn();
    assert_ne!(e1, e2);
    assert_ne!(e2, e3);
    assert_ne!(e1, e3);
    assert_eq!(world.entity_count(), 3);
}

#[test]
fn insert_and_get_component() {
    let mut world: World<Value> = World::new();
    let e = world.spawn();
    insert(&mut world, e, Position { x: 1.0, y: 2.0 });
    assert_eq!(get::<Position>(&world, e), Some(&Position { x: 1.0, y: 2.0 }));
}

#[test]
fn insert_replaces_existing_component() {
    let mut world: World<Value> = World::new();
    let e = world.spawn();
    insert(&mut world, e, Health(100));
    insert(&mut world, e, Health(50));
    assert_eq!(get::<Health>(&world, e), Some(&Health(50)));
}

#[test]
fn insert_second_component_migrates_archetype() {
    let mut world: World<Value> = World::new();
    let e = world.spawn();
    insert(&mut world, e, Position { x: 1.0, y: 2.0 });
    assert_eq!(get::<Position>(&world, e), Some(&Position { x: 1.0, y: 2.0 }));
    insert(&mut world, e, Velocity { dx: 3.0, dy: 4.0 });
    assert_eq!(get::<Position>(&world, e), Some(&Position { x: 1.0, y: 2.0 }));
    assert_eq!(get::<Velocity>(&world, e), Some(&Velocity { dx: 3.0, dy: 4.0 }));
}

#[test]
fn despawn_removes_entity() {
    let mut world: World<Value> = World::new();
    let e = world.spawn();
    insert(&mut world, e, Health(100));
    assert!(world.despawn(e));
    assert_eq!(world.entity_count(), 0);
    assert_eq!(get::<Health>(&world, e), None);
}

#[test]
fn despawn_nonexistent_returns_false() {
    let mut world: World<Value> = World::new();
    let e = world.spawn();
    world.despawn(e);
    assert!(!world.despawn(e));
}

#[test]
fn remove_component_migrates_back() {
    let mut world: World<Value> = World::new();
    let e = world.spawn();
    insert(&mut world, e, Position { x: 1.0, y: 2.0 });
    insert(&mut world, e, Velocity { dx: 3.0, dy: 4.0 });
    let removed = remove::<Velocity>(&mut world, e);
    assert_eq!(removed, Some(Velocity { dx: 3.0, dy: 4.0 }));
    assert_eq!(get::<Position>(&world, e), Some(&Position { x: 1.0, y: 2.0 }));
    assert_eq!(get::<Velocity>(&world, e), None);
}

#[test]
fn remove_missing_component_returns_none() {
    let mut world: World<Value> = World::new();
    let e = world.spawn();
    assert_eq!(remove::<Health>(&mut world, e), None);
}

#[test]
fn get_component_mut() {
    let mut world: World<Value> = World::new();
    let e = world.spawn();
    insert(&mut world, e, Health(100));
    if let Some(h) = get_mut::<Health>(&mut world, e) {
        h.0 -= 25;
    }
    assert_eq!(get::<Health>(&world, e), Some(&Health(75)));
}

#[test]
fn query_returns_matching_entities() {
    let mut world: World<Value> = World::new();
    let e1 = world.spawn();
    let e2 = world.spawn();
    let e3 = world.spawn();
    insert(&mut world, e1, Health(100));
    insert(&mut world, e2, Health(50));
    let results = query::<Health>(&world);
    assert_eq!(results.len(), 2);
    let entities: Vec<Entity> = results.iter().map(|(e, _)| *e).collect();
    assert!(entities.contains(&e1));
    assert!(entities.contains(&e2));
    assert!(!entities.contains(&e3));
}

#[test]
fn query2_returns_entities_with_both() {
    let mut world: World<Value> = World::new();
    let e1 = world.spawn();
    let e2 = world.spawn();
    let e3 = world.spawn();
    insert(&mut world, e1, Position { x: 1.0, y: 2.0 });
    insert(&mut world, e1, Velocity { dx: 0.5, dy: 0.5 });
    insert(&mut world, e2, Position { x: 3.0, y: 4.0 });
    insert(&mut world, e3, Velocity { dx: 1.0, dy: 1.0 });
    let results = query2::<Position, Velocity>(&world);
    assert_eq!(results.len(), 1);
    assert_eq!(results[0].0, e1);
    assert_eq!(results[0].1, &Position { x: 1.0, y: 2.0 });
    assert_eq!(results[0].2, &Velocity { dx: 0.5, dy: 0.5 });
}

#[test]
fn resource_insert_get_get_mut() {
    let mut world: World<Value> = World::new();

    #[derive(Debug, PartialEq)]
    struct GameTime(f64);

    insert_resource(&mut world, GameTime(0.0));
    assert_eq!(get_resource::<GameTime>(&world), Some(&GameTime(0.0)));
    if let Some(t) = get_resource_mut::<GameTime>(&mut world) {
        t.0 += 1.0;
    }
    assert_eq!(get_resource::<GameTime>(&world), Some(&GameTime(1.0)));
}

#[test]
fn missing_resource_returns_none() {
    let world: World<Value> = World::new();
    assert_eq!(get_resource::<u32>(&world), None);
}

#[test]
fn stress_spawn_1000_with_components() {
    let mut world: World<Value> = World::new();
    for i in 0..1000u32 {
        let e = world.spawn();
        insert(&mut world, e, Position { x: i as f32, y: i as f32 * 2.0 });
        if i % 2 == 0 {
            insert(&mut world, e, Velocity { dx: 1.0, dy: 1.0 });
        }
    }
    assert_eq!(world.entity_count(), 1000);
    let positions = query::<Position>(&world);
    assert_eq!(positions.len(), 1000);
    let with_velocity = query2::<Position, Velocity>(&world);
    assert_eq!(with_velocity.len(), 500);
}

#[test]
fn despawn_with_multiple_components() {
    let mut world: World<Value> = World::new();
    let e = world.spawn();
    insert(&mut world, e, Position { x: 1.0, y: 2.0 });
    insert(&mut world, e, Velocity { dx: 3.0, dy: 4.0 });
    insert(&mut world, e, Health(100));
    assert!(world.despawn(e));
    assert_eq!(world.entity_count(), 0);
    assert_eq!(get::<Position>(&world, e), None);
    assert_eq!(get::<Velocity>(&world, e), None);
    assert_eq!(get::<Health>(&world, e), None);
}

#[test]
fn multiple_entities_same_archetype() {
    let mut world: World<Value> = World::new();
    let e1 = world.spawn();
    let e2 = world.spawn();
    insert(&mut world, e1, Health(100));
    insert(&mut world, e2, Health(200));
    assert_eq!(get::<Health>(&world, e1), Some(&Health(100)));
    assert_eq!(get::<Health>(&world, e2), Some(&Health(200)));
}

#[test]
fn despawn_middle_entity_preserves_others() {
    let mut world: World<Value> = World::new();
    let e1 = world.spawn();
    let e2 = world.spawn();
    let e3 = world.spawn();
    insert(&mut world, e1, Health(100));
    insert(&mut world, e2, Health(200));
    insert(&mut world, e3, Health(300));
    world.despawn(e2);
    assert_eq!(world.entity_count(), 2);
    assert_eq!(get::<Health>(&world, e1), Some(&Health(100)));
    assert_eq!(get::<Health>(&world, e3), Some(&Health(300)));
}

#[test]
fn component_with_drop() {
    let mut world: World<Value> = World::new();
    let e = world.spawn();
    insert(&mut world, e, Name(String::from("test entity")));
    assert_eq!(get::<Name>(&world, e), Some(&Name(String::from("test entity"))));
    world.despawn(e);
}

#[test]
fn for_each_visits_all_matching() {
    let mut world: World<Value> = World::new();
    let e1 = world.spawn();
    let e2 = world.spawn();
    let e3 = world.spawn();
    insert(&mut world, e1, Health(100));
    insert(&mut world, e2, Health(50));
    let _ = e3;
    let query_results = query::<Health>(&world);
    let mut for_each_count = 0usize;
    world.for_each(id::<Health>(), |_e, _h| {
        for_each_count += 1;
    });
    assert_eq!(for_each_count, query_results.len());
}

#[test]
fn for_each2_visits_matching() {
    let mut world: World<Value> = World::new();
    let e1 = world.spawn();
    let e2 = world.spawn();
    let e3 = world.spawn();
    insert(&mut world, e1, Position { x: 1.0, y: 2.0 });
    insert(&mut world, e1, Velocity { dx: 0.5, dy: 0.5 });
    insert(&mut world, e2, Position { x: 3.0, y: 4.0 });
    insert(&mut world, e3, Velocity { dx: 1.0, dy: 1.0 });
    let query_results = query2::<Position, Velocity>(&world);
    let mut for_each2_count = 0usize;
    world.for_each2(id::<Position>(), id::<Velocity>(), |_e, _p, _v| {
        for_each2_count += 1;
    });
    assert_eq!(for_each2_count, query_results.len());
    assert_eq!(for_each2_count, 1);
}

#[test]
fn entities_with_returns_matching_ids() {
    let mut world: World<Value> = World::new();
    let e1 = world.spawn();
    let e2 = world.spawn();
    let e3 = world.spawn();
    insert(&mut world, e1, Health(100));
    insert(&mut world, e2, Health(50));
    let ids = world.entities_with(id::<Health>());
    assert_eq!(ids.len(), 2);
    assert!(ids.contains(&e1));
    assert!(ids.contains(&e2));
    assert!(!ids.contains(&e3));
}

#[test]
fn entities_with2_returns_matching_ids() {
    let mut world: World<Value> = World::new();
    let e1 = world.spawn();
    let e2 = world.spawn();
    let e3 = world.spawn();
    insert(&mut world, e1, Position { x: 1.0, y: 2.0 });
    insert(&mut world, e1, Velocity { dx: 0.5, dy: 0.5 });
    insert(&mut world, e2, Position { x: 3.0, y: 4.0 });
    insert(&mut world, e3, Velocity { dx: 1.0, dy: 1.0 });
    let ids = world.entities_with2(id::<Position>(), id::<Velocity>());
    assert_eq!(ids.len(), 1);
    assert_eq!(ids[0], e1);
}

#[test]
fn stale_handle_cannot_gain_components() {
    let mut world: World<Value> = World::new();
    let e = world.spawn();
    world.despawn(e);
    insert(&mut world, e, Health(1));
    assert_eq!(get::<Health>(&world, e), None);
    let reused = world.spawn();
    assert_eq!(reused.index, e.index);
    assert_eq!(reused.generation, e.generation + 1);
    assert_eq!(get::<Health>(&world, reused), None);
}

#[test]
fn removing_from_one_entity_keeps_archetype_mates() {
    let mut world: World<Value> = World::new();
    let a = world.spawn();
    let b = world.spawn();
    insert(&mut world, a, Health(1));
    insert(&mut world, b, Health(2));
    insert(&mut world, a, Position { x: 0.0, y: 0.0 });
    insert(&mut world, b, Position { x: 5.0, y: 5.0 });
    assert_eq!(remove::<Position>(&mut world, a), Some(Position { x: 0.0, y: 0.0 }));
    assert_eq!(get::<Health>(&world, a), Some(&Health(1)));
    assert_eq!(get::<Health>(&world, b), Some(&Health(2)));
    assert_eq!(get::<Position>(&world, b), Some(&Position { x: 5.0, y: 5.0 }));
    assert_eq!(world.entities_with(id::<Position>()), vec![b]);
}

#[test]
fn default_world_is_empty() {
    let world: World<Value> = World::default();
    assert_eq!(world.entity_count(), 0);
}

#[test]
fn despawn_never_issued_handle_changes_nothing() {
    let mut world: World<Value> = World::new();
    let e = world.spawn();
    let keep = world.spawn();
    world.insert_component(keep, id::<u32>(), Box::new(7u32));
    assert!(world.despawn(e));
    let forged = Entity { index: e.index, generation: e.generation + 1 };
    assert!(!world.contains(forged));
    assert!(!world.despawn(forged));
    assert_eq!(world.entity_count(), 1);
    assert!(world.contains(keep));
    assert!(world.get_component(keep, id::<u32>()).is_some());
}

#[test]
fn world_mutations_leave_the_frame_clock_alone() {
    let mut world: World<Value> = World::new();
    world.tick_clock();
    let e = world.spawn();
    world.insert_component(e, id::<u32>(), Box::new(1u32));
    assert!(world.get_component_mut(e, id::<u32>()).is_some());
    assert!(world.remove_component(e, id::<u32>()).is_some());
    assert!(world.despawn(e));
    assert_eq!(world.clock().frame_count(), 1);
}
