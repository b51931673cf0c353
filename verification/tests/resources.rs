use std::any::Any;

use chemengine::ecs::resource::Resources;
use chemengine::type_id::ComponentTypeId;

type Value = Box<dyn Any + Send + Sync>;

fn insert<T: Any + Send + Sync>(res: &mut Resources<Value>, value: T) {
    res.insert(ComponentTypeId::of::<T>(), Box::new(value));
}

fn get<T: Any>(res: &Resources<Value>) -> Option<&T> {
    res.get(ComponentTypeId::of::<T>()).and_then(|v| v.downcast_ref::<T>())
}

fn get_mut<T: Any>(res: &mut Resources<Value>) -> Option<&mut T> {
    res.get_mut(ComponentTypeId::of::<T>()).and_then(|v| v.downcast_mut::<T>())
}

fn contains<T: Any>(res: &Resources<Value>) -> bool {
    res.contains(ComponentTypeId::of::<T>())
}

fn remove<T: Any>(res: &mut Resources<Value>) -> Option<T> {
    res.remove(ComponentTypeId::of::<T>()).and_then(|v| v.downcast::<T>().ok()).map(|b| *b)
}

#[test]
fn resource_insert_and_get() {
    let mut res = Resources::new();
    insert(&mut res, 42i32);
    assert_eq!(get::<i32>(&res), Some(&42));
}

#[test]
fn get_missing_returns_none() {
    let res: Resources<Value> = Resources::new();
    assert_eq!(get::<i32>(&res), None);
}

#[test]
fn resource_get_mut_modifies() {
    let mut res = Resources::new();
    insert(&mut res, String::from("hello"));
    if let Some(s) = get_mut::<String>(&mut res) {
        s.push_str(" world");
    }
    assert_eq!(get::<String>(&res).map(|s| s.as_str()), Some("hello world"));
}

#[test]
fn insert_replaces() {
    let mut res = Resources::new();
    insert(&mut res, 10u32);
    insert(&mut res, 20u32);
    assert_eq!(get::<u32>(&res), Some(&20));
}

#[test]
fn resource_contains() {
    let mut res = Resources::new();
    assert!(!contains::<f64>(&res));
    insert(&mut res, 3.14f64);
    assert!(contains::<f64>(&res));
}

#[test]
fn resource_remove_returns_value() {
    let mut res = Resources::new();
    insert(&mut res, 99u64);
    let removed = remove::<u64>(&mut res);
    assert_eq!(removed, Some(99));
    assert!(!contains::<u64>(&res));
}

#[test]
fn remove_missing_returns_none() {
    let mut res: Resources<Value> = Resources::new();
    assert_eq!(remove::<i32>(&mut res), None);
}

#[test]
fn multiple_types() {
    let mut res = Resources::new();
    insert(&mut res, 1i32);
    insert(&mut res, 2.0f64);
    insert(&mut res, String::from("three"));
    assert_eq!(get::<i32>(&res), Some(&1));
    assert_eq!(get::<f64>(&res), Some(&2.0));
    assert_eq!(get::<String>(&res).map(|s| s.as_str()), Some("three"));
}

#[test]
fn removing_one_type_keeps_the_others() {
    let mut res: Resources<u8> = Resources::default();
    let a = ComponentTypeId::of::<u8>();
    let b = ComponentTypeId::of::<u16>();
    res.insert(a, 1);
    res.insert(b, 2);
    assert_eq!(res.remove(a), Some(1));
    assert_eq!(res.get(b), Some(&2));
    assert!(!res.contains(a));
}
