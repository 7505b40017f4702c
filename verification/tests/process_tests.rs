use godot_rapier::lookup::LookupTable;
use godot_rapier::objects::{Handle, HandleKind, ObjectKind};
use godot_rapier::process::{
    cuid2, ensure_unique_cuid2, insertion_target, plan_insert, removal_target, resolve_parent_action,
    resolve_sim_action, resolve_sync_action, InsertTarget, ParentLink, QueueError, RemovalTarget, SimRequest,
    SyncTarget,
};
use godot_rapier::queue::{Action, Actionable};

fn act(cuid: &str, data: Actionable) -> Action<u32> {
    Action { inner_cuid: cuid.to_string(), inner_iid: 0, data, payload: None }
}

fn table() -> LookupTable {
    let mut t = LookupTable::new();
    t.insert("body".to_string(), (1, 0));
    t.insert("col".to_string(), (2, 5));
    t
}

#[test]
fn fresh_identifiers_differ() {
    let a = cuid2();
    let b = cuid2();
    assert!(!a.is_empty());
    assert_ne!(a, b);
}

#[test]
fn unique_identifier_kept_or_replaced() {
    let t = table();
    assert_eq!(ensure_unique_cuid2("free".to_string(), &t), "free");
    let replaced = ensure_unique_cuid2("body".to_string(), &t);
    assert_ne!(replaced, "body");
    assert!(!t.cuid_exists(&replaced));
}

#[test]
fn insertion_targets() {
    assert_eq!(insertion_target(&Actionable::RigidBody), Ok(InsertTarget::RigidBody));
    assert_eq!(insertion_target(&Actionable::Collider), Ok(InsertTarget::Collider));
    assert_eq!(
        insertion_target(&Actionable::ColliderWithParent([3, 4])),
        Ok(InsertTarget::ColliderWithParent([3, 4]))
    );
    assert_eq!(insertion_target(&Actionable::Step), Err(QueueError::CannotInsert));
}

#[test]
fn insert_plan() {
    let t = table();
    let plan = plan_insert(&act("new", Actionable::Collider), &t).unwrap();
    assert_eq!(plan.cuid2, "new");
    assert_eq!(plan.object_kind, ObjectKind::Collider);
    assert_eq!(plan.target, InsertTarget::Collider);
    let plan = plan_insert(&act("body", Actionable::RigidBody), &t).unwrap();
    assert_ne!(plan.cuid2, "body");
    assert_eq!(plan.object_kind, ObjectKind::RigidBody);
    assert!(matches!(plan_insert(&act("x", Actionable::Character), &t), Err(QueueError::CannotInsert)));
}

#[test]
fn removal_targets() {
    assert_eq!(removal_target(&Actionable::RigidBodyHandle([1, 2])), Ok(Some(RemovalTarget::RigidBody([1, 2]))));
    assert_eq!(removal_target(&Actionable::ColliderHandle([3, 4])), Ok(Some(RemovalTarget::Collider([3, 4]))));
    assert_eq!(removal_target(&Actionable::Invalid), Ok(None));
    assert_eq!(removal_target(&Actionable::Collider), Err(QueueError::CannotRemove));
}

#[test]
fn parent_actions() {
    let t = table();
    let link = resolve_parent_action(
        &Actionable::ColliderIDWithParentID("col".to_string(), Some("body".to_string())),
        &t,
    );
    assert_eq!(link, Ok(ParentLink { collider: (2, 5), parent: Some((1, 0)) }));
    let detach = resolve_parent_action(&Actionable::ColliderIDWithParentID("col".to_string(), None), &t);
    assert_eq!(detach, Ok(ParentLink { collider: (2, 5), parent: None }));
    assert_eq!(
        resolve_parent_action(&Actionable::ColliderIDWithParentID("nope".to_string(), None), &t),
        Err(QueueError::ColliderNotFound("nope".to_string()))
    );
    assert_eq!(
        resolve_parent_action(
            &Actionable::ColliderIDWithParentID("col".to_string(), Some("ghost".to_string())),
            &t
        ),
        Err(QueueError::ParentNotFound("ghost".to_string()))
    );
    assert_eq!(resolve_parent_action(&Actionable::Collider, &t), Err(QueueError::NotParentAction));
}

#[test]
fn sync_actions() {
    let t = table();
    assert_eq!(
        resolve_sync_action(&act("body", Actionable::NodePos(ObjectKind::RigidBody)), &t),
        Ok(SyncTarget::Position(Handle::new(HandleKind::RigidBodyHandle, [1, 0])))
    );
    assert_eq!(
        resolve_sync_action(&act("col", Actionable::ColliderShape), &t),
        Ok(SyncTarget::Shape(Handle::new(HandleKind::ColliderHandle, [2, 5])))
    );
    assert_eq!(
        resolve_sync_action(&act("missing", Actionable::ColliderShape), &t),
        Err(QueueError::HandleNotFound)
    );
    assert_eq!(resolve_sync_action(&act("col", Actionable::Step), &t), Err(QueueError::InvalidActionable));
}

#[test]
fn sim_actions() {
    let t = table();
    assert_eq!(resolve_sim_action(&act("s", Actionable::Step), &t), Ok(SimRequest::Step));
    assert_eq!(
        resolve_sim_action(&act("s", Actionable::MoveCharacter { cuid2: "body".to_string() }), &t),
        Ok(SimRequest::MoveCharacter((1, 0)))
    );
    assert_eq!(
        resolve_sim_action(&act("s", Actionable::MoveCharacter { cuid2: "who".to_string() }), &t),
        Err(QueueError::CharacterNotFound("who".to_string()))
    );
    assert_eq!(resolve_sim_action(&act("s", Actionable::RigidBody), &t), Err(QueueError::InvalidActionable));
}

#[test]
fn fresh_identifier_shape() {
    for _ in 0..20 {
        let id = cuid2();
        assert!(id.len() >= 2 && id.len() <= 24);
        let mut chars = id.chars();
        assert!(chars.next().unwrap().is_ascii_lowercase());
        assert!(chars.all(|c| c.is_ascii_digit() || c.is_ascii_lowercase()));
    }
    let t = table();
    let replaced = ensure_unique_cuid2("body".to_string(), &t);
    assert!(replaced.chars().next().unwrap().is_ascii_lowercase());
}
