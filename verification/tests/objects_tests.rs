use godot_rapier::objects::{
    ColliderShapeType, Handle, HandleKind, ObjectBridge, ObjectKind, RollbackNodeClass,
};
use godot_rapier::queue::Actionable;

#[test]
fn handle_new_keeps_parts() {
    let h = Handle::new(HandleKind::ColliderHandle, [3, 7]);
    assert_eq!(h.kind, HandleKind::ColliderHandle);
    assert_eq!(h.raw, [3, 7]);
}

#[test]
fn handle_invalid_is_max_parts() {
    let h = Handle::invalid();
    assert_eq!(h.kind, HandleKind::Invalid);
    assert_eq!(h.raw, [u32::MAX, u32::MAX]);
}

#[test]
fn handle_from_raw_is_invalid_kind() {
    let h = Handle::from([5u32, 9u32]);
    assert_eq!(h.kind, HandleKind::Invalid);
    assert_eq!(h.raw, [5, 9]);
}

#[test]
fn handle_to_string_lists_parts() {
    assert_eq!(Handle::new(HandleKind::RigidBodyHandle, [0, 1]).to_string(), "[0, 1]");
    assert_eq!(Handle::new(HandleKind::RigidBodyHandle, [120, 4294967295]).to_string(), "[120, 4294967295]");
}

#[test]
fn handle_from_actionable() {
    let h = Handle::from(Actionable::RigidBodyHandle([1, 2]));
    assert_eq!(h, Handle::new(HandleKind::RigidBodyHandle, [1, 2]));
    let h = Handle::from(Actionable::ColliderHandle([4, 0]));
    assert_eq!(h, Handle::new(HandleKind::ColliderHandle, [4, 0]));
    assert_eq!(Handle::from(Actionable::Step), Handle::invalid());
    assert_eq!(Handle::from(Actionable::RigidBody), Handle::invalid());
}

#[test]
fn handle_actionable_round_trip() {
    for h in [
        Handle::new(HandleKind::RigidBodyHandle, [8, 1]),
        Handle::new(HandleKind::ColliderHandle, [2, 3]),
    ] {
        assert_eq!(Handle::from(Actionable::from(h.clone())), h);
    }
    let invalid_kind = Handle::new(HandleKind::Invalid, [1, 1]);
    assert_eq!(Handle::from(Actionable::from(invalid_kind)), Handle::invalid());
}

#[test]
fn handle_kind_from_object_kind() {
    assert_eq!(HandleKind::from(ObjectKind::RigidBody), HandleKind::RigidBodyHandle);
    assert_eq!(HandleKind::from(ObjectKind::Character), HandleKind::RigidBodyHandle);
    assert_eq!(HandleKind::from(&ObjectKind::Collider), HandleKind::ColliderHandle);
    assert_eq!(HandleKind::from(&ObjectKind::Invalid), HandleKind::Invalid);
}

#[test]
fn object_kind_from_handle_kind_round_trip() {
    for h in [HandleKind::RigidBodyHandle, HandleKind::ColliderHandle, HandleKind::Invalid] {
        assert_eq!(HandleKind::from(ObjectKind::from(h)), h);
    }
    assert_eq!(ObjectKind::from(HandleKind::from(ObjectKind::Character)), ObjectKind::RigidBody);
}

#[test]
fn object_kind_from_names() {
    assert_eq!(ObjectKind::from("RigidBody"), ObjectKind::RigidBody);
    assert_eq!(ObjectKind::from("RapierRigidBody3D"), ObjectKind::RigidBody);
    assert_eq!(ObjectKind::from("Collider"), ObjectKind::Collider);
    assert_eq!(ObjectKind::from("RapierCollider3D"), ObjectKind::Collider);
    assert_eq!(ObjectKind::from("Character"), ObjectKind::Character);
    assert_eq!(ObjectKind::from("RapierCharacterBody3D"), ObjectKind::Character);
    assert_eq!(ObjectKind::from("rigidbody"), ObjectKind::Invalid);
    assert_eq!(ObjectKind::from(""), ObjectKind::Invalid);
}

#[test]
fn object_kind_name_round_trip() {
    for k in [ObjectKind::RigidBody, ObjectKind::Collider, ObjectKind::Character, ObjectKind::Invalid] {
        let name = k.to_string();
        assert_eq!(ObjectKind::from(name.as_str()), k);
    }
    assert_eq!(ObjectKind::Character.to_string(), "Character");
}

#[test]
fn object_kind_from_actionable() {
    assert_eq!(ObjectKind::from(&Actionable::RigidBodyHandle([0, 0])), ObjectKind::RigidBody);
    assert_eq!(ObjectKind::from(&Actionable::ColliderShape), ObjectKind::Collider);
    assert_eq!(
        ObjectKind::from(&Actionable::ColliderIDWithParentID("c".to_string(), None)),
        ObjectKind::Collider
    );
    assert_eq!(ObjectKind::from(&Actionable::NodePos(ObjectKind::Character)), ObjectKind::Character);
    assert_eq!(
        ObjectKind::from(&Actionable::MoveCharacter { cuid2: "x".to_string() }),
        ObjectKind::Character
    );
    assert_eq!(ObjectKind::from(&Actionable::Step), ObjectKind::Invalid);
}

#[test]
fn object_bridge_kinds_agree() {
    let b = ObjectBridge::from(ObjectKind::Character);
    assert_eq!(b.handle_kind, HandleKind::RigidBodyHandle);
    assert_eq!(b.object_kind, ObjectKind::Character);
    let b = ObjectBridge::from(HandleKind::ColliderHandle);
    assert_eq!(b.object_kind, ObjectKind::Collider);
    assert_eq!(b.handle_kind, HandleKind::ColliderHandle);
    let b = ObjectBridge::from(&Actionable::Step);
    assert_eq!(b.object_kind, ObjectKind::Invalid);
    assert_eq!(b.handle_kind, HandleKind::Invalid);
    let b = ObjectBridge::invalid();
    assert_eq!(b.object_kind, ObjectKind::Invalid);
    let b = ObjectBridge::from(&Actionable::NodePos(ObjectKind::Collider));
    assert_eq!(b.handle_kind, HandleKind::ColliderHandle);
}

#[test]
fn rollback_node_class_names() {
    assert_eq!(
        RollbackNodeClass::try_from("RollbackRigidBody3D"),
        Ok(RollbackNodeClass::RollbackRigidBody3D)
    );
    assert_eq!(
        RollbackNodeClass::try_from("RollbackPIDCharacter3D"),
        Ok(RollbackNodeClass::RollbackPIDCharacter3D)
    );
    assert_eq!(RollbackNodeClass::try_from("Node3D"), Err("Unknown RollbackNode class"));
}

#[test]
fn collider_shape_type_names() {
    assert_eq!(ColliderShapeType::from_class_name("RapierBoxShape3D"), Ok(ColliderShapeType::Box));
    assert_eq!(ColliderShapeType::from_class_name("RapierSphereShape3D"), Ok(ColliderShapeType::Sphere));
    assert_eq!(
        ColliderShapeType::from_class_name("BoxShape3D"),
        Err("Unknown shape type BoxShape3D".to_string())
    );
}
