use std::any::Any;

use chemengine::ai::{AiPlugin, ContactTier, PoisonType};
use chemengine::application::app::App;
use chemengine::application::time::FixedTime;
use chemengine::compute::{BackendKind, ComputeEngine, ComputePlugin, CpuBackend};
use chemengine::ecs::schedule::CoreStage;
use chemengine::ecs::world::World;
use chemengine::render::gpu::RenderPlugin;
use chemengine::type_id::ComponentTypeId;
use chemengine::window::{KeyCode, MouseButton, WindowPlugin};

type Value = Box<dyn Any + Send + Sync>;
type System = Box<dyn FnMut(&mut World<Value>) + Send>;

#[test]
fn cpu_backend_reports_its_capabilities() {
    let cpu = CpuBackend::new();
    let caps = cpu.capabilities();
    assert_eq!(caps.backend, BackendKind::Cpu);
    assert_eq!(caps.max_workgroup_size, 1);
    assert_eq!(caps.max_buffer_size, u64::MAX);
    assert_eq!(cpu.backend_name(), "cpu");
    assert_eq!(CpuBackend::default().backend_name(), "cpu");
}

#[test]
fn no_op_plugins_leave_the_app_as_it_was() {
    let mut app: App<Value, System> = App::new(Box::new(FixedTime::default()));
    app.add_plugin(AiPlugin);
    app.add_plugin(ComputePlugin);
    app.add_plugin(RenderPlugin);
    assert_eq!(app.world.entity_count(), 0);
    assert!(app.world.get_resource(ComponentTypeId::of::<FixedTime>()).is_some());
    let mut ran = false;
    app.add_system(CoreStage::Render, Box::new(|_w: &mut World<Value>| {}));
    app.run_once();
    ran |= true;
    assert!(ran);
}

#[test]
fn window_plugin_defaults_and_descriptor() {
    let plugin = WindowPlugin::default();
    assert_eq!(plugin.title, "ChemEngine");
    assert_eq!((plugin.width, plugin.height), (1280, 720));
    assert!(plugin.vsync && plugin.resizable);
    let d = plugin.descriptor();
    assert_eq!(d.title, "ChemEngine");
    assert_eq!((d.width, d.height, d.vsync, d.resizable), (1280, 720, true, true));
}

#[test]
fn plain_enums_compare_by_variant() {
    assert_ne!(ContactTier::FirstHand, ContactTier::Hearsay);
    assert_eq!(PoisonType::Moha, PoisonType::Moha);
    assert_ne!(KeyCode::A, KeyCode::Key0);
    assert_eq!(MouseButton::Middle, MouseButton::Middle);
}

/// A plugin that counts its builds in a resource of its own.
struct CountingPlugin;

struct BuildCount(u32);

impl chemengine::application::plugin::Plugin<Value, System> for CountingPlugin {
    fn build(&self, app: &mut App<Value, System>) {
        let id = ComponentTypeId::of::<BuildCount>();
        let n = app
            .world
            .get_resource(id)
            .and_then(|v| v.downcast_ref::<BuildCount>())
            .map_or(0, |c| c.0);
        app.insert_resource(id, Box::new(BuildCount(n + 1)));
    }
}

fn build_count(app: &App<Value, System>) -> u32 {
    app.world
        .get_resource(ComponentTypeId::of::<BuildCount>())
        .and_then(|v| v.downcast_ref::<BuildCount>())
        .map_or(0, |c| c.0)
}

#[test]
fn a_plugin_type_is_built_once() {
    let mut app: App<Value, System> = App::new(Box::new(FixedTime::default()));
    app.add_plugin(CountingPlugin);
    app.add_plugin(CountingPlugin);
    assert_eq!(build_count(&app), 1);
}

#[test]
fn install_plugin_builds_once_per_identifier() {
    let mut app: App<Value, System> = App::new(Box::new(FixedTime::default()));
    let first = ComponentTypeId::of::<u8>();
    let second = ComponentTypeId::of::<u16>();
    app.install_plugin(CountingPlugin, first);
    app.install_plugin(CountingPlugin, first);
    assert_eq!(build_count(&app), 1);
    app.install_plugin(CountingPlugin, second);
    assert_eq!(build_count(&app), 2);
    assert!(!app.mark_installed(first));
    assert!(!app.mark_installed(second));
    assert!(app.mark_installed(ComponentTypeId::of::<u32>()));
}
