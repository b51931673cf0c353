use chemengine::ecs::archetype::Archetype;
use chemengine::ecs::column::ComponentColumn;
use chemengine::entity::Entity;
use chemengine::type_id::ComponentTypeId;

fn make_archetype(id: usize, type_ids: &[ComponentTypeId]) -> Archetype<i32> {
    let columns: Vec<ComponentColumn<i32>> = type_ids.iter().map(|&t| ComponentColumn::new(t)).collect();
    Archetype::new(id, columns)
}

#[test]
fn new_archetype_is_empty() {
    let arch = make_archetype(0, &[ComponentTypeId::of::<i32>()]);
    assert!(arch.is_empty());
    assert_eq!(arch.len(), 0);
    assert!(arch.has_component(ComponentTypeId::of::<i32>()));
    assert!(!arch.has_component(ComponentTypeId::of::<f64>()));
}

#[test]
fn add_and_track_entity() {
    let mut arch = make_archetype(0, &[]);
    let e = Entity { index: 0, generation: 0 };
    let row = arch.add_entity(e);
    assert_eq!(row, 0);
    assert_eq!(arch.len(), 1);
    assert_eq!(arch.entities(), &[e]);
}

#[test]
fn remove_entity_swap() {
    let mut arch = make_archetype(0, &[]);
    let e0 = Entity { index: 0, generation: 0 };
    let e1 = Entity { index: 1, generation: 0 };
    let e2 = Entity { index: 2, generation: 0 };
    arch.add_entity(e0);
    arch.add_entity(e1);
    arch.add_entity(e2);
    let removed_row = arch.remove_entity(e1);
    assert_eq!(removed_row, Some(1));
    assert_eq!(arch.len(), 2);
    assert_eq!(arch.entities(), &[e0, e2]);
}

#[test]
fn remove_nonexistent_entity() {
    let mut arch = make_archetype(0, &[]);
    let e = Entity { index: 99, generation: 0 };
    assert_eq!(arch.remove_entity(e), None);
}

#[test]
fn column_typed_access() {
    let arch = make_archetype(0, &[ComponentTypeId::of::<i32>()]);
    assert!(arch.column::<i32>().is_some());
    assert!(arch.column::<f64>().is_none());
}

#[test]
fn archetype_reports_id_and_types() {
    let t = ComponentTypeId::of::<u8>();
    let arch = make_archetype(7, &[t]);
    assert_eq!(arch.id(), 7);
    assert_eq!(arch.component_types(), vec![t]);
    assert_eq!(arch.entity_row(&Entity { index: 0, generation: 0 }), None);
}

#[test]
fn column_by_id_mut_reaches_the_column() {
    let t = ComponentTypeId::of::<u16>();
    let mut arch = make_archetype(0, &[t]);
    arch.column_by_id_mut(&t).unwrap().push(5);
    assert_eq!(arch.column_by_id(&t).unwrap().get(0), Some(&5));
    assert!(arch.column_mut::<u32>().is_none());
}


#[test]
fn removing_an_entity_added_twice_removes_its_last_row() {
    let mut arch = make_archetype(0, &[]);
    let e0 = Entity { index: 0, generation: 0 };
    let e1 = Entity { index: 1, generation: 0 };
    arch.add_entity(e0);
    arch.add_entity(e1);
    arch.add_entity(e0);
    assert_eq!(arch.remove_entity(e0), Some(2));
    assert_eq!(arch.entities(), &[e0, e1]);
}
