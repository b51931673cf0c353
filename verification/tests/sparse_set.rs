use chemengine::sparse_set::SparseSet;

#[test]
fn sparse_set_insert_and_get() {
    let mut set = SparseSet::new();
    assert!(set.insert(5, "hello").is_none());
    assert_eq!(set.get(5), Some(&"hello"));
}

#[test]
fn insert_overwrites_existing() {
    let mut set = SparseSet::new();
    set.insert(3, 10);
    let old = set.insert(3, 20);
    assert_eq!(old, Some(10));
    assert_eq!(set.get(3), Some(&20));
    assert_eq!(set.len(), 1);
}

#[test]
fn sparse_set_remove_returns_value() {
    let mut set = SparseSet::new();
    set.insert(7, 42);
    assert_eq!(set.remove(7), Some(42));
    assert_eq!(set.get(7), None);
    assert_eq!(set.len(), 0);
}

#[test]
fn remove_absent_returns_none() {
    let mut set: SparseSet<i32> = SparseSet::new();
    assert_eq!(set.remove(0), None);
    assert_eq!(set.remove(999), None);
}

#[test]
fn insert_after_remove_reuses_dense_slot() {
    let mut set = SparseSet::new();
    set.insert(0, "a");
    set.insert(1, "b");
    set.insert(2, "c");
    set.remove(1);
    assert_eq!(set.len(), 2);
    set.insert(3, "d");
    assert_eq!(set.len(), 3);
    assert_eq!(set.get(0), Some(&"a"));
    assert_eq!(set.get(2), Some(&"c"));
    assert_eq!(set.get(3), Some(&"d"));
    assert!(!set.contains(1));
}

#[test]
fn sparse_set_contains() {
    let mut set = SparseSet::new();
    assert!(!set.contains(0));
    set.insert(0, 1);
    assert!(set.contains(0));
    assert!(!set.contains(1));
    set.remove(0);
    assert!(!set.contains(0));
}

#[test]
fn get_mut() {
    let mut set = SparseSet::new();
    set.insert(2, 100);
    if let Some(val) = set.get_mut(2) {
        *val = 200;
    }
    assert_eq!(set.get(2), Some(&200));
}

#[test]
fn empty_set_operations() {
    let mut set: SparseSet<i32> = SparseSet::new();
    assert!(set.is_empty());
    assert_eq!(set.len(), 0);
    assert_eq!(set.get(0), None);
    assert_eq!(set.get_mut(0), None);
    assert_eq!(set.remove(0), None);
    assert!(!set.contains(0));
    assert_eq!(set.iter().count(), 0);
}

#[test]
fn many_elements() {
    let mut set = SparseSet::new();
    let count = 1_000;
    for i in 0..count {
        set.insert(i, i * 2);
    }
    assert_eq!(set.len(), count);
    for i in 0..count {
        assert_eq!(set.get(i), Some(&(i * 2)));
    }
    for i in (0..count).step_by(2) {
        assert_eq!(set.remove(i), Some(i * 2));
    }
    assert_eq!(set.len(), count / 2);
    for i in 0..count {
        if i % 2 == 0 {
            assert!(!set.contains(i));
        } else {
            assert!(set.contains(i));
            assert_eq!(set.get(i), Some(&(i * 2)));
        }
    }
}

#[test]
fn iter_yields_all_entries() {
    let mut set = SparseSet::new();
    set.insert(10, "a");
    set.insert(20, "b");
    set.insert(30, "c");
    let mut collected: Vec<(usize, &str)> = set.iter().map(|(i, v)| (i, *v)).collect();
    collected.sort_by_key(|&(i, _)| i);
    assert_eq!(collected, vec![(10, "a"), (20, "b"), (30, "c")]);
}

#[test]
fn iter_after_removal() {
    let mut set = SparseSet::new();
    set.insert(1, 10);
    set.insert(2, 20);
    set.insert(3, 30);
    set.remove(2);
    let mut collected: Vec<(usize, i32)> = set.iter().map(|(i, &v)| (i, v)).collect();
    collected.sort_by_key(|&(i, _)| i);
    assert_eq!(collected, vec![(1, 10), (3, 30)]);
}

#[test]
fn remove_last_element() {
    let mut set = SparseSet::new();
    set.insert(0, 1);
    assert_eq!(set.remove(0), Some(1));
    assert!(set.is_empty());
}

#[test]
fn remove_first_of_many_preserves_others() {
    let mut set = SparseSet::new();
    set.insert(0, "x");
    set.insert(1, "y");
    set.insert(2, "z");
    set.remove(0);
    assert!(!set.contains(0));
    assert_eq!(set.get(1), Some(&"y"));
    assert_eq!(set.get(2), Some(&"z"));
    assert_eq!(set.len(), 2);
}

#[test]
fn sparse_indices_with_gaps() {
    let mut set = SparseSet::new();
    set.insert(0, 'a');
    set.insert(1000, 'b');
    set.insert(500, 'c');
    assert_eq!(set.len(), 3);
    assert_eq!(set.get(0), Some(&'a'));
    assert_eq!(set.get(500), Some(&'c'));
    assert_eq!(set.get(1000), Some(&'b'));
    assert!(!set.contains(999));
}

#[test]
fn insert_remove_insert_same_index() {
    let mut set = SparseSet::new();
    set.insert(5, 100);
    assert_eq!(set.remove(5), Some(100));
    assert!(!set.contains(5));
    set.insert(5, 200);
    assert_eq!(set.get(5), Some(&200));
    assert_eq!(set.len(), 1);
}

#[test]
fn removal_moves_last_entry_into_the_gap() {
    let mut set = SparseSet::new();
    set.insert(4, 'p');
    set.insert(9, 'q');
    set.insert(2, 'r');
    set.remove(4);
    let order: Vec<(usize, char)> = set.iter().map(|(i, v)| (i, *v)).collect();
    assert_eq!(order, vec![(2, 'r'), (9, 'q')]);
}

#[test]
fn default_set_is_empty() {
    let set: SparseSet<u8> = SparseSet::default();
    assert!(set.is_empty());
}
