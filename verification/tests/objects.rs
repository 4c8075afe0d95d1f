use std::collections::hash_map::DefaultHasher;
use std::hash::{Hash, Hasher};
use wayland_backend::object_id::{HashKey, InnerObjectId, ANONYMOUS_INTERFACE};
use wayland_backend::table::{ObjectTable, MAX_HANDLE};

fn hash_of(id: &InnerObjectId) -> u64 {
    let mut h = DefaultHasher::new();
    id.hash_key().hash(&mut h);
    h.finish()
}

#[test]
fn table_starts_empty() {
    let t: ObjectTable<&str> = ObjectTable::new(1);
    assert_eq!(t.upcoming_cell(), 1);
    assert_eq!(t.next_handle(), 1);
    assert!(t.has_room());
    assert!(t.lookup(1).is_none());
    assert!(t.lookup(0).is_none());
    assert_eq!(t.find(2), None);
}

#[test]
fn register_hands_out_lowest_handle_and_next_cell() {
    let mut t: ObjectTable<&str> = ObjectTable::new(1);
    let a = t.register(2, 1, 5, Some("a")).unwrap();
    let b = t.register(3, 4, 6, None).unwrap();
    assert_eq!(a, InnerObjectId { connection: 1, id: 2, ptr: 1, alive: Some(1), interface: 5 });
    assert_eq!((a.id, a.ptr, a.alive, a.interface), (2, 1, Some(1), 5));
    assert_eq!((b.id, b.ptr, b.alive, b.interface), (3, 2, Some(2), 6));
    assert_eq!(t.upcoming_cell(), 3);
    let e = t.lookup(2).unwrap();
    assert_eq!((e.id, e.version, e.alive, e.interface, e.data), (3, 4, 2, 6, None));
    assert_eq!(t.lookup(1).unwrap().data, Some("a"));
    assert_eq!(t.find(3), Some(2));
    assert!(t.is_alive(&a));
    assert!(t.is_alive(&b));
}

#[test]
fn register_refuses_number_zero_and_taken_numbers() {
    let mut t: ObjectTable<u8> = ObjectTable::new(1);
    assert!(t.register(0, 1, 1, None).is_none());
    assert!(t.register(7, 1, 1, None).is_some());
    assert!(t.register(7, 1, 1, None).is_none());
    assert_eq!(t.upcoming_cell(), 2);
    assert_eq!(t.next_handle(), 2);
}

#[test]
fn invalidate_removes_once() {
    let mut t: ObjectTable<&str> = ObjectTable::new(1);
    let a = t.register(2, 1, 5, Some("a")).unwrap();
    let gone = t.invalidate(a.ptr).unwrap();
    assert_eq!((gone.id, gone.alive, gone.data), (2, 1, Some("a")));
    assert!(!t.is_alive(&a));
    assert!(t.invalidate(a.ptr).is_none());
    assert!(t.invalidate(0).is_none());
    assert!(t.invalidate(77).is_none());
    assert_eq!(t.upcoming_cell(), 2);
}

#[test]
fn recycled_number_and_handle_make_another_object() {
    let mut t: ObjectTable<&str> = ObjectTable::new(1);
    let first = t.register(0xFF00_0000, 1, 5, Some("first")).unwrap();
    t.invalidate(first.ptr);
    let second = t.register(0xFF00_0000, 1, 5, Some("second")).unwrap();
    assert_eq!(second.id, first.id);
    assert_eq!(second.ptr, first.ptr);
    assert_eq!(second.interface, first.interface);
    assert_ne!(second.alive, first.alive);
    assert!(second != first);
    assert!(t.is_alive(&second));
    assert!(!t.is_alive(&first));
}

#[test]
fn freed_handle_in_the_middle_is_taken_first() {
    let mut t: ObjectTable<u8> = ObjectTable::new(1);
    let a = t.register(10, 1, 1, None).unwrap();
    let b = t.register(11, 1, 1, None).unwrap();
    let c = t.register(12, 1, 1, None).unwrap();
    assert_eq!((a.ptr, b.ptr, c.ptr), (1, 2, 3));
    t.invalidate(b.ptr);
    assert_eq!(t.next_handle(), 2);
    let d = t.register(13, 1, 1, None).unwrap();
    assert_eq!(d.ptr, 2);
    assert_eq!(d.alive, Some(4));
    assert_eq!(t.next_handle(), 4);
    assert!(MAX_HANDLE > 4);
}

#[test]
fn forged_identity_is_not_alive() {
    let mut t: ObjectTable<u8> = ObjectTable::new(1);
    let a = t.register(10, 1, 1, None).unwrap();
    assert!(!t.is_alive(&InnerObjectId { id: 11, ..a }));
    assert!(!t.is_alive(&InnerObjectId { connection: 2, ..a }));
    assert!(!t.is_alive(&InnerObjectId { interface: 2, ..a }));
    assert!(!t.is_alive(&InnerObjectId { alive: Some(9), ..a }));
    assert!(!t.is_alive(&InnerObjectId { alive: None, ..a }));
    assert!(!t.is_alive(&InnerObjectId { ptr: 2, ..a }));
}

#[test]
fn attach_replaces_the_handler() {
    let mut t: ObjectTable<&str> = ObjectTable::new(1);
    let a = t.register(10, 1, 1, None).unwrap();
    assert_eq!(t.attach(a.ptr, "one"), Ok(None));
    assert_eq!(t.attach(a.ptr, "two"), Ok(Some("one")));
    assert_eq!(t.lookup(a.ptr).unwrap().data, Some("two"));
    assert_eq!(t.attach(5, "lost"), Err("lost"));
    assert_eq!(t.attach(0, "lost"), Err("lost"));
    assert!(t.is_alive(&a));
}

#[test]
fn drain_hands_out_every_object_once() {
    let mut t: ObjectTable<&str> = ObjectTable::new(1);
    let a = t.register(10, 1, 1, Some("a")).unwrap();
    let b = t.register(11, 1, 1, None).unwrap();
    let c = t.register(12, 1, 1, Some("c")).unwrap();
    t.invalidate(b.ptr);
    let mut all = t.drain();
    all.sort_by_key(|(id, _)| id.ptr);
    assert_eq!(all, vec![(a, Some("a")), (c, Some("c"))]);
    assert!(t.drain().is_empty());
    assert!(!t.is_alive(&a));
    assert_eq!(t.upcoming_cell(), 4);
    assert_eq!(t.next_handle(), 1);
}

#[test]
fn managed_identities_compare_by_cell() {
    let a = InnerObjectId { connection: 1, id: 5, ptr: 1, alive: Some(3), interface: 2 };
    let same_cell = InnerObjectId { connection: 1, id: 6, ptr: 2, alive: Some(3), interface: 4 };
    let other_cell = InnerObjectId { connection: 1, id: 5, ptr: 1, alive: Some(4), interface: 2 };
    assert!(a == same_cell);
    assert!(a != other_cell);
    assert_eq!(a.hash_key(), HashKey::Managed { connection: 1, cell: 3 });
    assert_eq!(hash_of(&a), hash_of(&same_cell));
}

#[test]
fn foreign_identities_compare_by_fields() {
    let a = InnerObjectId { connection: 1, id: 5, ptr: 1, alive: None, interface: 2 };
    assert!(a == InnerObjectId { connection: 1, id: 5, ptr: 1, alive: None, interface: 2 });
    assert!(a != InnerObjectId { connection: 1, id: 6, ptr: 1, alive: None, interface: 2 });
    assert!(a != InnerObjectId { connection: 1, id: 5, ptr: 2, alive: None, interface: 2 });
    assert!(a != InnerObjectId { connection: 1, id: 5, ptr: 1, alive: None, interface: 3 });
    assert!(a != InnerObjectId { connection: 1, id: 5, ptr: 1, alive: Some(0), interface: 2 });
    assert!(InnerObjectId { connection: 1, id: 5, ptr: 1, alive: Some(0), interface: 2 } != a);
    assert_eq!(a.hash_key(), HashKey::Foreign { connection: 1, id: 5, ptr: 1 });
    assert_eq!(hash_of(&a), hash_of(&InnerObjectId { connection: 1, id: 5, ptr: 1, alive: None, interface: 2 }));
}

#[test]
fn getters_of_an_identity() {
    let a = InnerObjectId { connection: 1, id: 5, ptr: 9, alive: Some(3), interface: 2 };
    assert_eq!(a.protocol_id(), 5);
    assert_eq!(a.interface(), 2);
    assert!(!a.is_null());
    let null = InnerObjectId { connection: 0, id: 0, ptr: 0, alive: None, interface: ANONYMOUS_INTERFACE };
    assert!(null.is_null());
    assert_eq!(null.protocol_id(), 0);
    assert_eq!(null.interface(), 0);
}

#[test]
fn identities_of_different_connections_are_never_equal() {
    let a = InnerObjectId { connection: 1, id: 5, ptr: 1, alive: Some(3), interface: 2 };
    let b = InnerObjectId { connection: 2, id: 5, ptr: 1, alive: Some(3), interface: 2 };
    assert!(a != b);
    assert_ne!(a.hash_key(), b.hash_key());
    assert_ne!(hash_of(&a), hash_of(&b));
    let fa = InnerObjectId { connection: 1, id: 5, ptr: 1, alive: None, interface: 2 };
    let fb = InnerObjectId { connection: 2, id: 5, ptr: 1, alive: None, interface: 2 };
    assert!(fa != fb);
    assert_ne!(fa.hash_key(), fb.hash_key());
    assert_eq!(b.hash_key(), HashKey::Managed { connection: 2, cell: 3 });
    assert_eq!(fb.hash_key(), HashKey::Foreign { connection: 2, id: 5, ptr: 1 });
}

#[test]
fn first_objects_of_two_tables_are_different_objects() {
    let mut one: ObjectTable<u8> = ObjectTable::new(1);
    let mut two: ObjectTable<u8> = ObjectTable::new(2);
    assert_eq!(one.connection_number(), 1);
    assert_eq!(two.connection_number(), 2);
    let a = one.register(7, 1, 1, None).unwrap();
    let b = two.register(9, 1, 1, None).unwrap();
    assert_eq!((a.connection, a.ptr, a.alive), (1, 1, Some(1)));
    assert_eq!((b.connection, b.ptr, b.alive), (2, 1, Some(1)));
    assert!(a != b);
    assert_ne!(a.hash_key(), b.hash_key());
    let c = two.register(7, 1, 1, None).unwrap();
    assert!(a != c);
    assert!(!one.is_alive(&b));
    assert!(!two.is_alive(&a));
    assert!(one.is_alive(&a) && two.is_alive(&b) && two.is_alive(&c));
}
