use mobx_rs::ids::ObservableId;
use mobx_rs::registry::IdRegistry;
use std::rc::{Rc, Weak};

#[test]
fn test_register_assigns_unique_ids() {
    let mut registry: IdRegistry<ObservableId, Weak<usize>> = IdRegistry::new();
    let value_a = Rc::new(1usize);
    let value_b = Rc::new(2usize);

    let id_a = registry.register(Rc::downgrade(&value_a));
    let id_b = registry.register(Rc::downgrade(&value_b));

    assert_ne!(id_a.get(), id_b.get());
    assert_eq!(registry.len(), 2);
    assert!(Rc::ptr_eq(&registry.get(id_a).unwrap().upgrade().unwrap(), &value_a));
    assert!(Rc::ptr_eq(&registry.get(id_b).unwrap().upgrade().unwrap(), &value_b));
}

#[test]
fn test_purge_removes_dropped_entries() {
    let mut registry: IdRegistry<ObservableId, Weak<usize>> = IdRegistry::new();
    let id_a;
    {
        let value_a = Rc::new(1usize);
        id_a = registry.register(Rc::downgrade(&value_a));
        assert!(registry.get(id_a).and_then(Weak::upgrade).is_some());
    }
    // Dropping value_a leaves only a stale weak reference.
    assert!(registry.get(id_a).and_then(Weak::upgrade).is_none());
    assert_eq!(registry.purge_stale(|weak: &Weak<usize>| weak.strong_count() > 0), 1);
    assert!(registry.is_empty());
}

#[test]
fn test_reserve_then_attach() {
    let mut registry: IdRegistry<ObservableId, Weak<usize>> = IdRegistry::new();
    let id = registry.reserve();
    let value = Rc::new(7usize);
    registry.attach(id, Rc::downgrade(&value));

    assert_eq!(registry.len(), 1);
    assert!(Rc::ptr_eq(&registry.get(id).unwrap().upgrade().unwrap(), &value));
}

#[test]
fn reserve_issues_increasing_ids_from_one() {
    let mut registry: IdRegistry<ObservableId, ()> = IdRegistry::new();
    assert_eq!(registry.issued(), 0);
    assert_eq!(registry.reserve().get(), 1);
    assert_eq!(registry.reserve().get(), 2);
    assert_eq!(registry.issued(), 2);
    assert!(registry.is_empty());
}

#[test]
fn remove_and_take_report_presence() {
    let mut registry: IdRegistry<ObservableId, &str> = IdRegistry::new();
    let id = registry.register("entry");
    assert!(registry.contains(id));
    assert_eq!(registry.take(id), Some("entry"));
    assert!(!registry.remove(id));
    let other = registry.register("other");
    assert!(registry.remove(other));
    assert!(registry.is_empty());
}

#[test]
fn purge_keeps_live_entries() {
    let mut registry: IdRegistry<ObservableId, u32> = IdRegistry::new();
    let even = registry.register(2);
    let odd = registry.register(3);
    assert_eq!(registry.purge_stale(|v: &u32| v % 2 == 0), 1);
    assert_eq!(registry.get(even), Some(&2));
    assert_eq!(registry.get(odd), None);
}

#[test]
fn reserved_id_has_no_entry_until_attached() {
    let mut registry: IdRegistry<ObservableId, usize> = IdRegistry::new();
    let first = registry.register(7);
    let reserved = registry.reserve();
    assert!(reserved.get() > first.get());
    assert!(registry.get(reserved).is_none());
    assert_eq!(registry.len(), 1);
    registry.attach(reserved, 9);
    assert_eq!(registry.get(reserved), Some(&9));
}
