use godot_rapier::lookup::LookupTable;
use godot_rapier::nodes::{
    pid_axes, plan_move, plan_teleport, ColliderParenting, Configuration, MovePlan, NodeClass, ParentDecision,
    ParentNode, PidAxes, TeleportPlan,
};
use godot_rapier::objects::{HandleKind, ObjectKind};

fn table() -> LookupTable {
    let mut t = LookupTable::new();
    t.insert("kin".to_string(), (1, 0));
    t.insert("pid".to_string(), (2, 0));
    t.insert("rb".to_string(), (3, 0));
    t
}

#[test]
fn class_names() {
    assert_eq!(NodeClass::from_class_name("RapierArea3D"), Some(NodeClass::Area));
    assert_eq!(NodeClass::from_class_name("RapierCollisionShape3D"), Some(NodeClass::CollisionShape));
    assert_eq!(NodeClass::from_class_name("RapierKinematicCharacter3D"), Some(NodeClass::KinematicCharacter));
    assert_eq!(NodeClass::from_class_name("RapierPIDCharacter3D"), Some(NodeClass::PidCharacter));
    assert_eq!(NodeClass::from_class_name("RapierRigidBody3D"), Some(NodeClass::RigidBody));
    assert_eq!(NodeClass::from_class_name("RapierStaticBody3D"), Some(NodeClass::StaticBody));
    assert_eq!(NodeClass::from_class_name("Node3D"), None);
}

#[test]
fn configurations() {
    assert_eq!(NodeClass::KinematicCharacter.configuration(), Configuration::KinematicController);
    assert_eq!(NodeClass::PidCharacter.configuration(), Configuration::PidController);
    assert_eq!(NodeClass::Area.configuration(), Configuration::Nothing);
    assert!(NodeClass::RigidBody.is_movable());
    assert!(!NodeClass::StaticBody.is_movable());
}

#[test]
fn handles_accepted() {
    assert!(ObjectKind::RigidBody.accepts_handle(HandleKind::RigidBodyHandle));
    assert!(ObjectKind::Character.accepts_handle(HandleKind::RigidBodyHandle));
    assert!(!ObjectKind::Collider.accepts_handle(HandleKind::RigidBodyHandle));
    assert!(ObjectKind::Collider.accepts_handle(HandleKind::ColliderHandle));
    assert!(ObjectKind::Invalid.accepts_handle(HandleKind::Invalid));
    assert!(!ObjectKind::Invalid.accepts_handle(HandleKind::ColliderHandle));
}

#[test]
fn pid_axes_choice() {
    assert_eq!(pid_axes(false, true), PidAxes::Angular);
    assert_eq!(pid_axes(true, false), PidAxes::AngularAndHorizontal);
    assert_eq!(pid_axes(true, true), PidAxes::All);
}

#[test]
fn move_plans() {
    let t = table();
    assert_eq!(plan_move(&t, "RapierKinematicCharacter3D", "kin", true, false), MovePlan::Kinematic((1, 0)));
    assert_eq!(
        plan_move(&t, "RapierPIDCharacter3D", "pid", true, true),
        MovePlan::Pid { handle: (2, 0), axes: PidAxes::All }
    );
    assert_eq!(plan_move(&t, "RapierRigidBody3D", "rb", false, false), MovePlan::RigidBody((3, 0)));
    assert_eq!(plan_move(&t, "RapierRigidBody3D", "unknown", true, false), MovePlan::NotRegistered);
    assert_eq!(plan_move(&t, "RapierStaticBody3D", "rb", true, false), MovePlan::Unsupported);
    assert_eq!(plan_move(&t, "Camera3D", "rb", true, false), MovePlan::Unsupported);
}

#[test]
fn teleport_plans() {
    let t = table();
    assert_eq!(plan_teleport(&t, "RapierPIDCharacter3D", "pid"), TeleportPlan::Teleport((2, 0)));
    assert_eq!(plan_teleport(&t, "RapierKinematicCharacter3D", "rb"), TeleportPlan::Teleport((3, 0)));
    assert_eq!(plan_teleport(&t, "RapierRigidBody3D", "none"), TeleportPlan::NotRegistered);
    assert_eq!(plan_teleport(&t, "RapierArea3D", "kin"), TeleportPlan::Unsupported);
}

#[test]
fn collider_parenting_flow() {
    let mut p = ColliderParenting::new();
    assert!(p.on_parented());
    assert!(!p.notify_parent);
    assert!(!p.on_parented());
    let d = p.on_deferred_parented(true, ParentNode::RigidBody { handle: (4, 1), registered: true });
    assert_eq!(d, ParentDecision::Reparent((4, 1)));
    assert_eq!(p.parent, Some((4, 1)));
    assert!(p.notify_parent);
    assert!(p.on_parented());
    let d = p.on_deferred_parented(true, ParentNode::RigidBody { handle: (4, 1), registered: true });
    assert_eq!(d, ParentDecision::Unchanged);
    assert!(!p.notify_parent);
}

#[test]
fn collider_parenting_edges() {
    let mut p = ColliderParenting::new();
    let d = p.on_deferred_parented(true, ParentNode::RigidBody { handle: (9, 9), registered: false });
    assert_eq!(d, ParentDecision::InvalidParent);
    assert_eq!(p.parent, None);
    assert_eq!(p.on_deferred_parented(false, ParentNode::Missing), ParentDecision::NoEngine);
    assert!(p.notify_parent);
    p.parent = Some((1, 1));
    assert_eq!(p.on_deferred_parented(true, ParentNode::NotRigidBody), ParentDecision::ClearParent);
    assert_eq!(p.parent, None);
    p.parent = Some((2, 2));
    assert!(!p.on_unparented(false));
    assert_eq!(p.parent, Some((2, 2)));
    assert!(p.on_unparented(true));
    assert_eq!(p.parent, None);
}
