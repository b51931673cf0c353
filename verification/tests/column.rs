use std::sync::atomic::{AtomicUsize, Ordering};
use std::sync::Arc;

use chemengine::ecs::column::ComponentColumn;
use chemengine::type_id::ComponentTypeId;

fn column<T: 'static>() -> ComponentColumn<T> {
    ComponentColumn::new(ComponentTypeId::of::<T>())
}

#[test]
fn push_and_get_i32() {
    let mut col = column::<i32>();
    col.push(42i32);
    col.push(99i32);
    assert_eq!(col.len(), 2);
    assert_eq!(col.get(0), Some(&42));
    assert_eq!(col.get(1), Some(&99));
}

#[test]
fn push_and_get_f64() {
    let mut col = column::<f64>();
    col.push(3.14f64);
    assert_eq!(col.get(0), Some(&3.14));
}

#[test]
fn push_and_get_string() {
    let mut col = column::<String>();
    col.push(String::from("hello"));
    col.push(String::from("world"));
    assert_eq!(col.get(0).map(|s| s.as_str()), Some("hello"));
    assert_eq!(col.get(1).map(|s| s.as_str()), Some("world"));
}

#[test]
fn component_get_mut_modifies() {
    let mut col = column::<i32>();
    col.push(10i32);
    if let Some(v) = col.get_mut(0) {
        *v = 20;
    }
    assert_eq!(col.get(0), Some(&20));
}

#[test]
fn get_out_of_bounds() {
    let col = column::<i32>();
    assert_eq!(col.get(0), None);
}

#[test]
fn swap_remove_last() {
    let mut col = column::<i32>();
    col.push(1i32);
    col.push(2i32);
    col.push(3i32);
    col.swap_remove(2);
    assert_eq!(col.len(), 2);
    assert_eq!(col.get(0), Some(&1));
    assert_eq!(col.get(1), Some(&2));
}

#[test]
fn swap_remove_first() {
    let mut col = column::<i32>();
    col.push(1i32);
    col.push(2i32);
    col.push(3i32);
    col.swap_remove(0);
    assert_eq!(col.len(), 2);
    assert_eq!(col.get(0), Some(&3));
    assert_eq!(col.get(1), Some(&2));
}

#[test]
fn swap_remove_middle() {
    let mut col = column::<i32>();
    col.push(10i32);
    col.push(20i32);
    col.push(30i32);
    col.swap_remove(1);
    assert_eq!(col.len(), 2);
    assert_eq!(col.get(0), Some(&10));
    assert_eq!(col.get(1), Some(&30));
}

#[derive(Debug)]
struct DropTracker(Arc<AtomicUsize>);

impl Drop for DropTracker {
    fn drop(&mut self) {
        self.0.fetch_add(1, Ordering::SeqCst);
    }
}

#[test]
fn drop_called_on_swap_remove() {
    let count = Arc::new(AtomicUsize::new(0));
    let mut col = column::<DropTracker>();
    col.push(DropTracker(count.clone()));
    col.push(DropTracker(count.clone()));
    col.push(DropTracker(count.clone()));
    assert_eq!(count.load(Ordering::SeqCst), 0);
    col.swap_remove(1);
    assert_eq!(count.load(Ordering::SeqCst), 1);
    drop(col);
    assert_eq!(count.load(Ordering::SeqCst), 3);
}

#[test]
fn drop_called_on_column_drop() {
    let count = Arc::new(AtomicUsize::new(0));
    {
        let mut col = column::<DropTracker>();
        col.push(DropTracker(count.clone()));
        col.push(DropTracker(count.clone()));
    }
    assert_eq!(count.load(Ordering::SeqCst), 2);
}

#[test]
fn zero_sized_type() {
    #[derive(Debug, PartialEq)]
    struct Marker;
    let mut col = column::<Marker>();
    col.push(Marker);
    col.push(Marker);
    col.push(Marker);
    assert_eq!(col.len(), 3);
    assert_eq!(col.get(0), Some(&Marker));
    assert_eq!(col.get(2), Some(&Marker));
    col.swap_remove(1);
    assert_eq!(col.len(), 2);
    assert_eq!(col.get(0), Some(&Marker));
}

#[test]
fn is_empty_on_new() {
    let col = column::<u64>();
    assert!(col.is_empty());
    assert_eq!(col.len(), 0);
}

#[test]
fn many_pushes() {
    let mut col = column::<u64>();
    for i in 0..100u64 {
        col.push(i);
    }
    assert_eq!(col.len(), 100);
    for i in 0..100u64 {
        assert_eq!(col.get(i as usize), Some(&i));
    }
}

#[test]
fn swap_remove_returns_the_value_and_replace_swaps_in_place() {
    let mut col = column::<i32>();
    col.push(5);
    col.push(6);
    assert_eq!(col.replace(0, 7), 5);
    assert_eq!(col.swap_remove(0), 7);
    assert_eq!(col.get(0), Some(&6));
    assert_eq!(col.type_id(), ComponentTypeId::of::<i32>());
}
