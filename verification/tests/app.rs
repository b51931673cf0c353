use std::any::Any;
use std::sync::{Arc, Mutex};

use chemengine::application::app::App;
use chemengine::application::plugin::Plugin;
use chemengine::application::time::FixedTime;
use chemengine::ecs::schedule::CoreStage;
use chemengine::ecs::world::World;
use chemengine::type_id::ComponentTypeId;

type Value = Box<dyn Any + Send + Sync>;
type System = Box<dyn FnMut(&mut World<Value>) + Send>;
type TestApp = App<Value, System>;

fn new_app() -> TestApp {
    App::new(Box::new(FixedTime::default()))
}

fn insert_resource<T: Any + Send + Sync>(app: &mut TestApp, value: T) {
    app.insert_resource(ComponentTypeId::of::<T>(), Box::new(value));
}

fn get_resource<T: Any>(world: &World<Value>) -> Option<&T> {
    world.get_resource(ComponentTypeId::of::<T>()).and_then(|v| v.downcast_ref::<T>())
}

fn get_resource_mut<T: Any>(world: &mut World<Value>) -> Option<&mut T> {
    world.get_resource_mut(ComponentTypeId::of::<T>()).and_then(|v| v.downcast_mut::<T>())
}

#[derive(Debug, PartialEq)]
struct Counter(u32);

#[derive(Debug, PartialEq)]
struct PluginMarker(String);

struct TestPlugin;

impl Plugin<Value, System> for TestPlugin {
    fn build(&self, app: &mut TestApp) {
        insert_resource(app, PluginMarker("TestPlugin was here".into()));
    }
}

struct AnotherPlugin;

impl Plugin<Value, System> for AnotherPlugin {
    fn build(&self, app: &mut TestApp) {
        insert_resource(app, Counter(0));
    }
}

#[test]
fn app_new_inserts_fixed_time_resource() {
    let app = new_app();
    assert!(get_resource::<FixedTime>(&app.world).is_some(), "App::new must insert a FixedTime resource");
}

#[test]
fn add_system_and_run_once_executes_system() {
    let mut app = new_app();
    insert_resource(&mut app, Counter(0));
    app.add_system(CoreStage::Update, Box::new(|world: &mut World<Value>| {
        if let Some(c) = get_resource_mut::<Counter>(world) {
            c.0 += 1;
        }
    }));
    app.run_once();
    let counter = get_resource::<Counter>(&app.world).unwrap();
    assert_eq!(counter.0, 1);
}

#[test]
fn plugin_builds_correctly() {
    let mut app = new_app();
    app.add_plugin(TestPlugin);
    let marker = get_resource::<PluginMarker>(&app.world).unwrap();
    assert_eq!(marker.0, "TestPlugin was here");
}

#[test]
fn duplicate_plugin_is_ignored() {
    let mut app = new_app();
    app.add_plugin(TestPlugin);
    app.add_plugin(TestPlugin);
    let marker = get_resource::<PluginMarker>(&app.world).unwrap();
    assert_eq!(marker.0, "TestPlugin was here");
}

#[test]
fn multiple_different_plugins() {
    let mut app = new_app();
    app.add_plugin(TestPlugin);
    app.add_plugin(AnotherPlugin);
    assert!(get_resource::<PluginMarker>(&app.world).is_some());
    assert!(get_resource::<Counter>(&app.world).is_some());
}

#[test]
fn systems_mutate_world_correctly() {
    let mut app = new_app();
    insert_resource(&mut app, Counter(10));
    app.add_system(CoreStage::Update, Box::new(|world: &mut World<Value>| {
        if let Some(c) = get_resource_mut::<Counter>(world) {
            c.0 *= 2;
        }
    }));
    app.add_system(CoreStage::PostUpdate, Box::new(|world: &mut World<Value>| {
        if let Some(c) = get_resource_mut::<Counter>(world) {
            c.0 += 1;
        }
    }));
    app.run_once();
    let counter = get_resource::<Counter>(&app.world).unwrap();
    assert_eq!(counter.0, 21);
}

#[test]
fn system_execution_order_across_stages() {
    let order = Arc::new(Mutex::new(Vec::<&str>::new()));
    let mut app = new_app();
    let o1 = order.clone();
    app.add_system(CoreStage::PostUpdate, Box::new(move |_: &mut World<Value>| {
        o1.lock().unwrap().push("post_update");
    }));
    let o2 = order.clone();
    app.add_system(CoreStage::First, Box::new(move |_: &mut World<Value>| {
        o2.lock().unwrap().push("first");
    }));
    let o3 = order.clone();
    app.add_system(CoreStage::Update, Box::new(move |_: &mut World<Value>| {
        o3.lock().unwrap().push("update");
    }));
    app.run_once();
    let result = order.lock().unwrap();
    assert_eq!(*result, vec!["first", "update", "post_update"]);
}

#[test]
fn plugin_can_add_systems() {
    struct SystemPlugin;
    impl Plugin<Value, System> for SystemPlugin {
        fn build(&self, app: &mut TestApp) {
            insert_resource(app, Counter(0));
            app.add_system(CoreStage::Update, Box::new(|world: &mut World<Value>| {
                if let Some(c) = get_resource_mut::<Counter>(world) {
                    c.0 += 42;
                }
            }));
        }
    }
    let mut app = new_app();
    app.add_plugin(SystemPlugin);
    app.run_once();
    let counter = get_resource::<Counter>(&app.world).unwrap();
    assert_eq!(counter.0, 42);
}

#[test]
fn insert_resource_is_accessible() {
    let mut app = new_app();
    insert_resource(&mut app, String::from("hello"));
    let s = get_resource::<String>(&app.world).unwrap();
    assert_eq!(s.as_str(), "hello");
}

#[test]
fn mark_installed_reports_first_installation_only() {
    let mut app = new_app();
    let t = ComponentTypeId::of::<TestPlugin>();
    assert!(app.mark_installed(t));
    assert!(!app.mark_installed(t));
    app.add_plugin(TestPlugin);
    assert!(get_resource::<PluginMarker>(&app.world).is_none());
}

#[test]
fn with_resource_holds_exactly_that_resource() {
    let app: App<u32, fn(&mut World<u32>)> = App::with_resource(ComponentTypeId::of::<u8>(), 5);
    assert_eq!(app.world.get_resource(ComponentTypeId::of::<u8>()), Some(&5));
    assert_eq!(app.world.get_resource(ComponentTypeId::of::<u16>()), None);
    assert_eq!(app.world.entity_count(), 0);
}

#[test]
fn app_new_inserts_time_resource() {
    let app = new_app();
    assert_eq!(app.world.clock().frame_count(), 0, "App::new must insert a Time resource");
}

#[test]
fn update_advances_time() {
    let mut app = new_app();
    app.update();
    assert_eq!(app.world.clock().frame_count(), 1);
}

#[test]
fn run_once_is_equivalent_to_single_update() {
    let mut app = new_app();
    app.run_once();
    assert_eq!(app.world.clock().frame_count(), 1);
}

#[test]
fn multiple_updates_increment_frame_count() {
    let mut app = new_app();
    for _ in 0..5 {
        app.update();
    }
    assert_eq!(app.world.clock().frame_count(), 5);
}

#[test]
fn clock_advances_before_systems_run() {
    let mut app = new_app();
    let seen = Arc::new(Mutex::new(Vec::new()));
    let log = seen.clone();
    app.add_system(
        CoreStage::First,
        Box::new(move |w: &mut World<Value>| log.lock().unwrap().push(w.clock().frame_count())),
    );
    app.run_once();
    app.run_once();
    assert_eq!(*seen.lock().unwrap(), vec![1, 2]);
}
