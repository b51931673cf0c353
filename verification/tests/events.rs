use chemengine::ecs::event::{EventReader, EventWriter, Events};

#[test]
fn send_and_read() {
    let mut events = Events::<i32>::new();
    events.send(1);
    events.send(2);
    events.send(3);
    let collected: Vec<&i32> = events.read().collect();
    assert_eq!(collected, vec![&1, &2, &3]);
}

#[test]
fn read_empty_yields_nothing() {
    let events = Events::<String>::new();
    assert_eq!(events.read().count(), 0);
    assert!(events.is_empty());
}

#[test]
fn update_moves_to_prev() {
    let mut events = Events::<i32>::new();
    events.send(10);
    events.send(20);
    events.update();
    let collected: Vec<&i32> = events.read().collect();
    assert_eq!(collected, vec![&10, &20]);
    events.send(30);
    let collected: Vec<&i32> = events.read().collect();
    assert_eq!(collected, vec![&10, &20, &30]);
}

#[test]
fn double_update_clears_old() {
    let mut events = Events::<i32>::new();
    events.send(1);
    events.update();
    events.send(2);
    events.update();
    let collected: Vec<&i32> = events.read().collect();
    assert_eq!(collected, vec![&2]);
}

#[test]
fn triple_update_clears_all() {
    let mut events = Events::<i32>::new();
    events.send(1);
    events.update();
    events.update();
    events.update();
    assert!(events.is_empty());
    assert_eq!(events.len(), 0);
}

#[test]
fn len_tracks_both_buffers() {
    let mut events = Events::<i32>::new();
    events.send(1);
    events.send(2);
    assert_eq!(events.len(), 2);
    events.update();
    events.send(3);
    assert_eq!(events.len(), 3);
}

#[test]
fn clear_empties_everything() {
    let mut events = Events::<i32>::new();
    events.send(1);
    events.update();
    events.send(2);
    events.clear();
    assert!(events.is_empty());
    assert_eq!(events.read().count(), 0);
}

#[test]
fn event_writer_sends() {
    let mut events = Events::<String>::new();
    {
        let mut writer = EventWriter::new(&mut events);
        writer.send(String::from("hello"));
        writer.send(String::from("world"));
    }
    let collected: Vec<&String> = events.read().collect();
    assert_eq!(collected.len(), 2);
}

#[test]
fn event_reader_reads() {
    let mut events = Events::<i32>::new();
    events.send(42);
    let reader = EventReader::new(&events);
    let collected: Vec<&i32> = reader.read().collect();
    assert_eq!(collected, vec![&42]);
}

#[derive(Debug, PartialEq)]
struct CollisionEvent {
    entity_a: u32,
    entity_b: u32,
}

#[test]
fn custom_event_type() {
    let mut events = Events::<CollisionEvent>::new();
    events.send(CollisionEvent { entity_a: 1, entity_b: 2 });
    events.send(CollisionEvent { entity_a: 3, entity_b: 4 });
    let collected: Vec<&CollisionEvent> = events.read().collect();
    assert_eq!(collected.len(), 2);
    assert_eq!(collected[0], &CollisionEvent { entity_a: 1, entity_b: 2 });
}

#[test]
fn event_sent_in_a_frame_is_read_in_that_frame_and_the_next_only() {
    let mut events: Events<u8> = Events::default();
    events.send(7);
    assert_eq!(events.read().copied().collect::<Vec<u8>>(), vec![7]);
    events.update();
    assert_eq!(events.read().copied().collect::<Vec<u8>>(), vec![7]);
    events.update();
    assert_eq!(events.read().count(), 0);
}
