use godot_rapier::objects::ObjectKind;
use godot_rapier::queue::{debug_queue, sort_queue, Action, ActionQueue, Actionable, QueueName};
use std::cmp::Ordering;

fn act(cuid: &str, data: Actionable) -> Action<u32> {
    Action { inner_cuid: cuid.to_string(), inner_iid: 0, data, payload: None }
}

fn cuids(v: &Vec<Action<u32>>) -> Vec<String> {
    v.iter().map(|a| a.inner_cuid.clone()).collect()
}

#[test]
fn actionable_order_table() {
    assert_eq!(Actionable::RigidBody.cmp(&Actionable::Collider), Ordering::Less);
    assert_eq!(Actionable::Collider.cmp(&Actionable::Character), Ordering::Greater);
    assert_eq!(Actionable::Character.cmp(&Actionable::ColliderWithParent([0, 0])), Ordering::Less);
    assert_eq!(
        Actionable::NodePos(ObjectKind::Character).cmp(&Actionable::NodePos(ObjectKind::Collider)),
        Ordering::Less
    );
    assert_eq!(Actionable::Step.cmp(&Actionable::Step), Ordering::Greater);
    assert_eq!(Actionable::Invalid.cmp(&Actionable::Step), Ordering::Less);
    assert_eq!(Actionable::RigidBody.cmp(&Actionable::RigidBodyHandle([1, 1])), Ordering::Equal);
    assert_eq!(Actionable::RigidBody.partial_cmp(&Actionable::Collider), Some(Ordering::Less));
    assert_eq!(Actionable::RigidBody.partial_cmp(&Actionable::RigidBody), None);
}

#[test]
fn actionable_equality() {
    assert!(Actionable::RigidBodyHandle([1, 2]) == Actionable::RigidBodyHandle([3, 4]));
    assert!(Actionable::NodePos(ObjectKind::Collider) == Actionable::NodePos(ObjectKind::Collider));
    assert!(Actionable::NodePos(ObjectKind::Character) != Actionable::NodePos(ObjectKind::Character));
    assert!(Actionable::Step != Actionable::Step);
    assert!(Actionable::Collider != Actionable::RigidBody);
}

#[test]
fn actionable_names() {
    assert_eq!(Actionable::Step.to_string(), "Actionable::Step");
    assert_eq!(Actionable::ColliderHandle([0, 0]).to_string(), "Actionable::ColliderHandle");
}

#[test]
fn action_order_ties_break_by_cuid() {
    let a = act("a", Actionable::Collider);
    let b = act("b", Actionable::Collider);
    assert_eq!(a.cmp(&b), Ordering::Less);
    assert_eq!(b.cmp(&a), Ordering::Greater);
    let c = act("z", Actionable::RigidBody);
    assert_eq!(c.cmp(&a), Ordering::Less);
    assert!(a == act("a", Actionable::RigidBody));
}

#[test]
fn step_action_fields() {
    let s: Action<u32> = Action::step();
    assert_eq!(s.inner_cuid, "step");
    assert_eq!(s.inner_iid, 0);
    assert!(matches!(s.data, Actionable::Step));
    assert!(s.payload.is_none());
}

#[test]
fn sort_puts_bodies_before_colliders() {
    let mut v = vec![
        act("c2", Actionable::Collider),
        act("b1", Actionable::RigidBody),
        act("c1", Actionable::ColliderWithParent([0, 0])),
        act("k", Actionable::Character),
        act("a", Actionable::ColliderIDWithParentID("a".to_string(), None)),
    ];
    sort_queue(&mut v);
    assert_eq!(cuids(&v), vec!["b1", "k", "a", "c1", "c2"]);
}

#[test]
fn sort_positions_bodies_first() {
    let mut v = vec![
        act("x", Actionable::NodePos(ObjectKind::Collider)),
        act("y", Actionable::NodePos(ObjectKind::RigidBody)),
        act("w", Actionable::NodePos(ObjectKind::Collider)),
    ];
    sort_queue(&mut v);
    assert_eq!(cuids(&v), vec!["y", "w", "x"]);
}

#[test]
fn sort_keeps_every_action_and_is_stable() {
    let mut v = vec![
        act("same", Actionable::ColliderHandle([1, 0])),
        act("same", Actionable::RigidBodyHandle([2, 0])),
        act("other", Actionable::Invalid),
    ];
    sort_queue(&mut v);
    assert_eq!(v.len(), 3);
    assert_eq!(cuids(&v), vec!["other", "same", "same"]);
    assert!(matches!(v[1].data, Actionable::ColliderHandle([1, 0])));
    assert!(matches!(v[2].data, Actionable::RigidBodyHandle([2, 0])));
}

#[test]
fn sort_empty_queue() {
    let mut v: Vec<Action<u32>> = Vec::new();
    sort_queue(&mut v);
    assert!(v.is_empty());
}

#[test]
fn queue_add_and_step() {
    let mut q: ActionQueue<u32> = ActionQueue::new();
    q.add_action(act("r", Actionable::RigidBody), &QueueName::Insert);
    q.push_step_action();
    assert_eq!(q.queue(&QueueName::Insert).len(), 1);
    assert_eq!(q.queue(&QueueName::Sim).len(), 1);
    assert!(matches!(q.queue(&QueueName::Sim)[0].data, Actionable::Step));
    assert!(q.queue(&QueueName::Remove).is_empty());
}

#[test]
fn queue_sort_orders_sim_too() {
    let mut q: ActionQueue<u32> = ActionQueue::new();
    q.push_step_action();
    q.add_action(act("m2", Actionable::MoveCharacter { cuid2: "m2".to_string() }), &QueueName::Sim);
    q.add_action(act("m1", Actionable::MoveCharacter { cuid2: "m1".to_string() }), &QueueName::Sim);
    q.add_action(act("c", Actionable::Collider), &QueueName::Insert);
    q.add_action(act("b", Actionable::RigidBody), &QueueName::Insert);
    q.sort();
    assert_eq!(cuids(q.queue(&QueueName::Sim)), vec!["m1", "m2", "step"]);
    assert_eq!(cuids(q.queue(&QueueName::Insert)), vec!["b", "c"]);
}

#[test]
fn drain_orders_batches_and_empties() {
    let mut q: ActionQueue<u32> = ActionQueue::new();
    q.add_action(act("c", Actionable::Collider), &QueueName::Insert);
    q.add_action(act("b", Actionable::RigidBody), &QueueName::Insert);
    q.add_action(act("h", Actionable::ColliderHandle([0, 0])), &QueueName::Remove);
    q.add_action(act("p", Actionable::ColliderIDWithParentID("p".to_string(), Some("b".to_string()))), &QueueName::Parent);
    q.add_action(act("n", Actionable::NodePos(ObjectKind::RigidBody)), &QueueName::Sync);
    q.push_step_action();
    let batches = q.drain_for_processing();
    let names: Vec<QueueName> = batches.iter().map(|(n, _)| *n).collect();
    assert_eq!(names, vec![QueueName::Remove, QueueName::Insert, QueueName::Parent, QueueName::Sync, QueueName::Sim]);
    assert_eq!(cuids(&batches[1].1), vec!["b", "c"]);
    assert_eq!(cuids(&batches[0].1), vec!["h"]);
    assert_eq!(cuids(&batches[4].1), vec!["step"]);
    for n in [QueueName::Insert, QueueName::Remove, QueueName::Parent, QueueName::Sync, QueueName::Sim] {
        assert!(q.queue(&n).is_empty());
    }
}

#[test]
fn queue_listing() {
    let actions = vec![act("n1", Actionable::Collider), act("n2", Actionable::Step)];
    assert_eq!(
        debug_queue(&actions),
        vec!["Collider, n1, Actionable::Collider".to_string(), "Invalid, n2, Actionable::Step".to_string()]
    );
}
