use chemengine::entity::{Entities, Entity};

#[test]
fn basic_alloc() {
    let mut entities = Entities::new();
    let e = entities.allocate();
    assert_eq!(e.index, 0);
    assert_eq!(e.generation, 0);
    assert_eq!(entities.len(), 1);
}

#[test]
fn sequential_alloc() {
    let mut entities = Entities::new();
    let a = entities.allocate();
    let b = entities.allocate();
    let c = entities.allocate();
    assert_eq!(a.index, 0);
    assert_eq!(b.index, 1);
    assert_eq!(c.index, 2);
    assert_eq!(entities.len(), 3);
}

#[test]
fn free_returns_true_for_alive() {
    let mut entities = Entities::new();
    let e = entities.allocate();
    assert!(entities.free(e));
    assert_eq!(entities.len(), 0);
}

#[test]
fn generation_increments_on_free() {
    let mut entities = Entities::new();
    let e = entities.allocate();
    assert_eq!(e.generation, 0);
    entities.free(e);
    let e2 = entities.allocate();
    assert_eq!(e2.index, 0);
    assert_eq!(e2.generation, 1);
}

#[test]
fn is_alive_after_free_returns_false() {
    let mut entities = Entities::new();
    let e = entities.allocate();
    assert!(entities.is_alive(e));
    entities.free(e);
    assert!(!entities.is_alive(e));
}

#[test]
fn free_list_recycling() {
    let mut entities = Entities::new();
    let a = entities.allocate();
    let _b = entities.allocate();
    entities.free(a);
    let c = entities.allocate();
    assert_eq!(c.index, a.index);
    assert_eq!(c.generation, a.generation + 1);
}

#[test]
fn double_free_returns_false() {
    let mut entities = Entities::new();
    let e = entities.allocate();
    assert!(entities.free(e));
    assert!(!entities.free(e));
}

#[test]
fn stale_handle_is_not_alive() {
    let mut entities = Entities::new();
    let old = entities.allocate();
    entities.free(old);
    let _new = entities.allocate();
    assert!(!entities.is_alive(old));
}

#[test]
fn alloc_many_free_all_alloc_again() {
    let mut entities = Entities::new();
    let count = 100;
    let mut handles: Vec<Entity> = (0..count).map(|_| entities.allocate()).collect();
    assert_eq!(entities.len(), count);
    for &e in &handles {
        assert!(entities.free(e));
    }
    assert_eq!(entities.len(), 0);
    for &e in &handles {
        assert!(!entities.is_alive(e));
    }
    handles.clear();
    for _ in 0..count {
        handles.push(entities.allocate());
    }
    assert_eq!(entities.len(), count);
    for e in &handles {
        assert_eq!(e.generation, 1);
    }
}

#[test]
fn free_entity_with_out_of_range_index() {
    let mut entities = Entities::new();
    let bogus = Entity { index: 999, generation: 0 };
    assert!(!entities.free(bogus));
}

#[test]
fn is_empty_on_new_allocator() {
    let entities = Entities::new();
    assert!(entities.is_empty());
    assert_eq!(entities.len(), 0);
}

#[test]
fn len_tracks_correctly_through_mixed_ops() {
    let mut entities = Entities::new();
    let a = entities.allocate();
    let b = entities.allocate();
    let c = entities.allocate();
    assert_eq!(entities.len(), 3);
    entities.free(b);
    assert_eq!(entities.len(), 2);
    let _d = entities.allocate();
    assert_eq!(entities.len(), 3);
    entities.free(a);
    entities.free(c);
    assert_eq!(entities.len(), 1);
}

#[test]
fn default_allocator_is_empty() {
    let entities = Entities::default();
    assert!(entities.is_empty());
}

#[test]
fn freed_slots_are_reused_last_in_first_out() {
    let mut entities = Entities::new();
    let a = entities.allocate();
    let b = entities.allocate();
    entities.free(a);
    entities.free(b);
    let c = entities.allocate();
    let d = entities.allocate();
    assert_eq!((c.index, c.generation), (b.index, 1));
    assert_eq!((d.index, d.generation), (a.index, 1));
}

#[test]
fn forged_future_generation_is_not_alive() {
    let mut entities = Entities::new();
    let a = entities.allocate();
    assert!(!entities.is_alive(Entity { index: a.index, generation: 1 }));
}

#[test]
fn never_issued_handle_for_freed_slot_is_not_alive() {
    let mut entities = Entities::new();
    let a = entities.allocate();
    assert!(entities.free(a));
    let forged = Entity { index: a.index, generation: 1 };
    assert!(!entities.is_alive(a));
    assert!(!entities.is_alive(forged));
    assert!(!entities.free(forged));
    assert_eq!(entities.len(), 0);
    let b = entities.allocate();
    assert_eq!((b.index, b.generation), (0, 1));
    assert!(entities.is_alive(forged));
}

#[test]
fn freeing_a_live_handle_counts_one_entity_fewer() {
    let mut entities = Entities::new();
    let a = entities.allocate();
    let _b = entities.allocate();
    assert_eq!(entities.len(), 2);
    assert!(entities.free(a));
    assert_eq!(entities.len(), 1);
    assert!(!entities.free(a));
    assert_eq!(entities.len(), 1);
}
