use godot_rapier::lookup::{LookupEntries, LookupTable};
use godot_rapier::maps::{HandleToUidMap, UidToHandleMap};

#[test]
fn lookup_read_after_insert() {
    let mut t = LookupTable::new();
    t.insert("node-a".to_string(), (3, 1));
    assert_eq!(t.get_rapier_handle("node-a"), Some((3, 1)));
    assert_eq!(t.get_godot_uid(&(3, 1)), Some("node-a".to_string()));
    assert!(t.cuid_exists("node-a"));
    assert!(!t.cuid_exists("node-b"));
    assert_eq!(t.get_rapier_handle("node-b"), None);
    assert_eq!(t.get_godot_uid(&(3, 2)), None);
}

#[test]
fn lookup_insert_overwrites_identifier() {
    let mut t = LookupTable::new();
    t.insert("a".to_string(), (1, 0));
    t.insert("a".to_string(), (2, 0));
    assert_eq!(t.get_rapier_handle("a"), Some((2, 0)));
    // The old handle still names the identifier: the two maps disagree here.
    assert_eq!(t.get_godot_uid(&(1, 0)), Some("a".to_string()));
    assert_eq!(t.get_godot_uid(&(2, 0)), Some("a".to_string()));
}

#[test]
fn lookup_remove_by_uid_undoes_insert() {
    let mut t = LookupTable::new();
    t.insert("keep".to_string(), (7, 7));
    t.insert("gone".to_string(), (8, 0));
    assert_eq!(t.remove_by_uid("gone"), Some((8, 0)));
    assert_eq!(t.get_rapier_handle("gone"), None);
    assert_eq!(t.get_godot_uid(&(8, 0)), None);
    assert_eq!(t.get_rapier_handle("keep"), Some((7, 7)));
    assert_eq!(t.remove_by_uid("gone"), None);
}

#[test]
fn lookup_remove_by_handle_undoes_insert() {
    let mut t = LookupTable::new();
    t.insert("x".to_string(), (4, 2));
    assert_eq!(t.remove_by_handle(&(4, 2)), Some("x".to_string()));
    assert!(!t.cuid_exists("x"));
    assert_eq!(t.get_godot_uid(&(4, 2)), None);
    assert_eq!(t.remove_by_handle(&(4, 2)), None);
}

#[test]
fn lookup_snapshot_colliders_sorted() {
    let mut t = LookupTable::new();
    t.insert_snapshot_collider((5, 0));
    t.insert_snapshot_collider((1, 3));
    t.insert_snapshot_collider((5, 0));
    t.insert_snapshot_collider((1, 1));
    t.insert_snapshot_collider((9, 0));
    assert_eq!(t.snapshot_colliders, vec![(1, 1), (1, 3), (5, 0), (5, 0), (9, 0)]);
    t.remove_snapshot_collider(&(5, 0));
    assert_eq!(t.snapshot_colliders, vec![(1, 1), (1, 3), (9, 0)]);
    t.remove_snapshot_collider(&(2, 2));
    assert_eq!(t.snapshot_colliders, vec![(1, 1), (1, 3), (9, 0)]);
}

#[test]
fn lookup_snapshot_insert_then_remove() {
    let mut t = LookupTable::new();
    t.insert_snapshot_collider((2, 0));
    t.insert_snapshot_collider((3, 0));
    t.remove_snapshot_collider(&(3, 0));
    assert_eq!(t.snapshot_colliders, vec![(2, 0)]);
}

#[test]
fn uid_map_operations() {
    let mut m = UidToHandleMap::new();
    m.insert("a".to_string(), (1, 2));
    m.insert("b".to_string(), (3, 4));
    m.insert("a".to_string(), (5, 6));
    assert_eq!(m.get("a"), Some((5, 6)));
    assert!(m.contains_key("b"));
    let copy = m.duplicate();
    assert_eq!(m.swap_remove("a"), Some((5, 6)));
    assert!(!m.contains_key("a"));
    assert_eq!(m.swap_remove("a"), None);
    assert_eq!(copy.get("a"), Some((5, 6)));
}

#[test]
fn handle_map_operations() {
    let mut m = HandleToUidMap::new();
    m.insert((1, 1), "one".to_string());
    assert_eq!(m.get(&(1, 1)), Some("one".to_string()));
    assert!(!m.contains_key(&(1, 2)));
    let copy = m.duplicate();
    assert_eq!(m.swap_remove(&(1, 1)), Some("one".to_string()));
    assert_eq!(m.get(&(1, 1)), None);
    assert!(copy.contains_key(&(1, 1)));
}

#[test]
fn lookup_entries_round_trip() {
    let mut t = LookupTable::new();
    t.insert("a".to_string(), (1, 0));
    t.insert("b".to_string(), (2, 0));
    t.insert_snapshot_collider((2, 0));
    t.insert_snapshot_collider((1, 0));
    let e = t.to_entries();
    assert_eq!(e.godot_to_rapier.len(), 2);
    assert_eq!(e.rapier_to_godot.len(), 2);
    assert_eq!(e.snapshot_colliders, vec![(1, 0), (2, 0)]);
    let back = LookupTable::from_entries(e);
    assert_eq!(back.get_rapier_handle("a"), Some((1, 0)));
    assert_eq!(back.get_godot_uid(&(2, 0)), Some("b".to_string()));
    assert_eq!(back.snapshot_colliders, vec![(1, 0), (2, 0)]);
}

#[test]
fn lookup_entries_later_binding_wins() {
    let e = LookupEntries {
        godot_to_rapier: vec![("a".to_string(), (1, 0)), ("a".to_string(), (5, 0))],
        rapier_to_godot: vec![((5, 0), "a".to_string())],
        snapshot_colliders: vec![],
    };
    let t = LookupTable::from_entries(e);
    assert_eq!(t.get_rapier_handle("a"), Some((5, 0)));
}

#[test]
fn lookup_entries_unsorted_colliders_sorted() {
    let e = LookupEntries {
        godot_to_rapier: vec![],
        rapier_to_godot: vec![],
        snapshot_colliders: vec![(3, 0), (1, 0), (3, 0)],
    };
    assert_eq!(LookupTable::from_entries(e).snapshot_colliders, vec![(1, 0), (3, 0), (3, 0)]);
}

#[test]
fn snapshot_collider_list_sorted_when_unsorted() {
    let mut t = LookupTable::new();
    t.snapshot_colliders = vec![(9, 0), (2, 0), (5, 0)];
    t.insert_snapshot_collider((4, 0));
    assert_eq!(t.snapshot_colliders, vec![(2, 0), (4, 0), (5, 0), (9, 0)]);
    t.snapshot_colliders = vec![(9, 0), (2, 0), (5, 0)];
    t.remove_snapshot_collider(&(5, 0));
    assert_eq!(t.snapshot_colliders, vec![(2, 0), (9, 0)]);
}

#[test]
fn lookup_clone_is_independent() {
    let mut t = LookupTable::new();
    t.insert("a".to_string(), (1, 1));
    t.insert_snapshot_collider((4, 4));
    let c = t.clone();
    t.remove_by_uid("a");
    assert_eq!(c.get_rapier_handle("a"), Some((1, 1)));
    assert_eq!(c.snapshot_colliders, vec![(4, 4)]);
    assert_eq!(t.get_rapier_handle("a"), None);
}
