use std::collections::HashSet;

use chemengine::type_id::ComponentTypeId;

#[test]
fn same_type_produces_equal_ids() {
    assert_eq!(ComponentTypeId::of::<u32>(), ComponentTypeId::of::<u32>());
}

#[test]
fn different_types_produce_different_ids() {
    assert_ne!(ComponentTypeId::of::<u32>(), ComponentTypeId::of::<i32>());
}

#[test]
fn copy_semantics() {
    let a = ComponentTypeId::of::<String>();
    let b = a;
    assert_eq!(a, b);
}

#[test]
fn hash_is_consistent() {
    let mut set = HashSet::new();
    set.insert(ComponentTypeId::of::<f64>());
    assert!(set.contains(&ComponentTypeId::of::<f64>()));
    assert!(!set.contains(&ComponentTypeId::of::<f32>()));
}

#[test]
fn ord_is_deterministic() {
    let a = ComponentTypeId::of::<u8>();
    let b = ComponentTypeId::of::<u16>();
    let first = a.cmp(&b);
    let second = a.cmp(&b);
    assert_eq!(first, second);
}

#[test]
fn debug_format_is_non_empty() {
    let id = ComponentTypeId::of::<Vec<u8>>();
    let debug = format!("{:?}", id);
    assert!(!debug.is_empty());
}

#[test]
fn same_matches_equality() {
    let a = ComponentTypeId::of::<u64>();
    assert!(a.same(&ComponentTypeId::of::<u64>()));
    assert!(!a.same(&ComponentTypeId::of::<i64>()));
}
