use std::any::Any;
use std::sync::{Arc, Mutex};

use chemengine::ecs::schedule::{CoreStage, Schedule};
use chemengine::ecs::world::World;
use chemengine::type_id::ComponentTypeId;

type Value = Box<dyn Any + Send + Sync>;
type System = Box<dyn FnMut(&mut World<Value>) + Send>;

#[test]
fn systems_run_in_stage_order() {
    let order = Arc::new(Mutex::new(Vec::new()));
    let mut schedule: Schedule<System> = Schedule::new();
    let o1 = order.clone();
    schedule.add_system(CoreStage::Update, Box::new(move |_world: &mut World<Value>| {
        o1.lock().unwrap().push("update");
    }));
    let o2 = order.clone();
    schedule.add_system(CoreStage::First, Box::new(move |_world: &mut World<Value>| {
        o2.lock().unwrap().push("first");
    }));
    let o3 = order.clone();
    schedule.add_system(CoreStage::Last, Box::new(move |_world: &mut World<Value>| {
        o3.lock().unwrap().push("last");
    }));
    let o4 = order.clone();
    schedule.add_system(CoreStage::PreUpdate, Box::new(move |_world: &mut World<Value>| {
        o4.lock().unwrap().push("pre_update");
    }));
    let mut world = World::new();
    schedule.run(&mut world);
    let result = order.lock().unwrap();
    assert_eq!(*result, vec!["first", "pre_update", "update", "last"]);
}

#[test]
fn multiple_systems_same_stage_run_in_insertion_order() {
    let order = Arc::new(Mutex::new(Vec::new()));
    let mut schedule: Schedule<System> = Schedule::new();
    for n in 1..=3 {
        let o = order.clone();
        schedule.add_system(CoreStage::Update, Box::new(move |_world: &mut World<Value>| {
            o.lock().unwrap().push(n);
        }));
    }
    let mut world = World::new();
    schedule.run(&mut world);
    let result = order.lock().unwrap();
    assert_eq!(*result, vec![1, 2, 3]);
}

#[test]
fn system_can_mutate_world() {
    let mut schedule: Schedule<System> = Schedule::new();
    schedule.add_system(CoreStage::Update, Box::new(|world: &mut World<Value>| {
        world.insert_resource(ComponentTypeId::of::<u32>(), Box::new(42u32));
    }));
    schedule.add_system(CoreStage::PostUpdate, Box::new(|world: &mut World<Value>| {
        if let Some(val) = world.get_resource_mut(ComponentTypeId::of::<u32>()).and_then(|v| v.downcast_mut::<u32>()) {
            *val += 1;
        }
    }));
    let mut world = World::new();
    schedule.run(&mut world);
    assert_eq!(
        world.get_resource(ComponentTypeId::of::<u32>()).and_then(|v| v.downcast_ref::<u32>()),
        Some(&43)
    );
}

#[test]
fn empty_schedule_runs_without_error() {
    let mut schedule: Schedule<System> = Schedule::new();
    let mut world = World::new();
    schedule.run(&mut world);
}

#[test]
fn system_spawns_entities() {
    let mut schedule: Schedule<System> = Schedule::new();
    schedule.add_system(CoreStage::Update, Box::new(|world: &mut World<Value>| {
        for _ in 0..10 {
            world.spawn();
        }
    }));
    let mut world = World::new();
    schedule.run(&mut world);
    assert_eq!(world.entity_count(), 10);
}

#[test]
fn run_order_lists_stages_then_insertion_order() {
    let mut schedule: Schedule<u8> = Schedule::default();
    schedule.add_system(CoreStage::Render, 1);
    schedule.add_system(CoreStage::First, 2);
    schedule.add_system(CoreStage::Render, 3);
    schedule.add_system(CoreStage::FixedUpdate, 4);
    assert_eq!(schedule.run_order(), vec![(0, 0), (2, 0), (6, 0), (6, 1)]);
    assert_eq!(*schedule.system_mut(6, 1), 3);
}
