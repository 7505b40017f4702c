use godot_rapier::buffer::{Action, BufferStep, Operation, RollbackError, WorldBuffer};

fn state_hash(bytes: Vec<u8>) -> u64 {
    BufferStep::<u32>::new(0, Some(bytes), Vec::new(), None).physics_hash.unwrap()
}

fn act(cuid: &str, op: Operation, tag: u32) -> Action<u32> {
    Action::new(cuid.to_string(), None, op, tag)
}

fn ids(b: &WorldBuffer<u32>) -> Vec<usize> {
    b.buffer.iter().map(|s| s.timestep_id).collect()
}

#[test]
fn operation_ranks() {
    assert_eq!(Operation::AddNode.rank(), 0);
    assert_eq!(Operation::ConfigureNode.rank(), 1);
    assert_eq!(Operation::RemoveNode.rank(), 2);
    assert_eq!(Operation::MoveNode.rank(), 3);
    assert_eq!(Operation::TeleportNode.rank(), 4);
    assert!(Operation::AddNode < Operation::TeleportNode);
}

#[test]
fn buffer_step_groups_actions_by_node() {
    let actions = vec![
        act("b", Operation::MoveNode, 1),
        act("a", Operation::AddNode, 2),
        act("b", Operation::TeleportNode, 3),
    ];
    let step = BufferStep::new(4, Some(vec![1, 2, 3]), actions, None);
    assert_eq!(step.timestep_id, 4);
    assert_eq!(step.actions.len(), 2);
    assert_eq!(step.actions[0].cuid, "b");
    assert_eq!(step.actions[0].actions.iter().map(|a| a.payload).collect::<Vec<_>>(), vec![1, 3]);
    assert_eq!(step.actions[1].cuid, "a");
    assert_eq!(step.physics_hash, Some(state_hash(vec![1, 2, 3])));
    let empty: BufferStep<u32> = BufferStep::new(0, None, Vec::new(), None);
    assert_eq!(empty.physics_hash, None);
}

#[test]
fn state_hash_depends_on_bytes() {
    assert_eq!(state_hash(vec![1, 2, 3]), state_hash(vec![1, 2, 3]));
    assert_ne!(state_hash(vec![1, 2, 3]), state_hash(vec![1, 2, 4]));
}

#[test]
fn world_buffer_default_capacity() {
    let b: WorldBuffer<u32> = WorldBuffer::default();
    assert_eq!(b.max_len, 1000);
    assert!(b.buffer.is_empty());
}

#[test]
fn state_read_after_step() {
    let mut b: WorldBuffer<u32> = WorldBuffer::new(10);
    b.on_world_stepped(1, Some(vec![9, 9]));
    assert_eq!(b.get_physics_state(1), Some(vec![9, 9]));
    assert_eq!(b.get_state_hash(1), Some(state_hash(vec![9, 9])));
    assert_eq!(b.get_physics_state(2), None);
    b.on_world_stepped(1, Some(vec![7]));
    assert_eq!(b.get_physics_state(1), Some(vec![7]));
    b.on_world_stepped(2, None);
    assert_eq!(ids(&b), vec![1, 2]);
    assert_eq!(b.get_physics_state(2), None);
    assert!(b.actions_in_order(2).is_empty());
    b.insert_action(act("n", Operation::MoveNode, 5), 3);
    b.on_world_stepped(3, None);
    assert_eq!(b.actions_in_order(3).len(), 1);
}

#[test]
fn evicts_oldest_beyond_limit() {
    let mut b: WorldBuffer<u32> = WorldBuffer::new(3);
    for t in 1..=5usize {
        b.on_world_stepped(t, Some(vec![t as u8]));
    }
    assert_eq!(ids(&b), vec![3, 4, 5]);
    assert!(b.get_step(2).is_none());
    assert_eq!(b.get_step(4).map(|s| s.timestep_id), Some(4));
}

#[test]
fn steps_stay_in_order() {
    let mut b: WorldBuffer<u32> = WorldBuffer::new(10);
    b.insert_action(act("n", Operation::MoveNode, 0), 5);
    b.on_world_stepped(2, Some(vec![2]));
    b.insert_action(act("n", Operation::MoveNode, 0), 3);
    assert_eq!(ids(&b), vec![2, 3, 5]);
}

#[test]
fn insert_action_once_per_operation() {
    let mut b: WorldBuffer<u32> = WorldBuffer::new(10);
    b.insert_action(act("n", Operation::MoveNode, 1), 0);
    b.insert_action(act("n", Operation::MoveNode, 2), 0);
    b.insert_action(act("n", Operation::AddNode, 3), 0);
    b.insert_action(act("m", Operation::MoveNode, 4), 0);
    let step = b.get_step(0).unwrap();
    assert_eq!(step.actions.len(), 2);
    assert_eq!(step.actions[0].actions.iter().map(|a| a.payload).collect::<Vec<_>>(), vec![1, 3]);
    assert_eq!(step.actions[1].actions.len(), 1);
}

#[test]
fn actions_applied_by_node_then_operation() {
    let mut b: WorldBuffer<u32> = WorldBuffer::new(10);
    b.insert_action(act("zeta", Operation::TeleportNode, 1), 3);
    b.insert_action(act("alpha", Operation::MoveNode, 2), 3);
    b.insert_action(act("zeta", Operation::AddNode, 3), 3);
    b.insert_action(act("alpha", Operation::ConfigureNode, 4), 3);
    let order: Vec<u32> = b.actions_in_order(3).iter().map(|a| a.payload).collect();
    assert_eq!(order, vec![4, 2, 3, 1]);
    assert!(b.actions_in_order(4).is_empty());
}

#[test]
fn stale_after_forgets_later_steps() {
    let mut b: WorldBuffer<u32> = WorldBuffer::new(10);
    for t in 1..=4usize {
        b.on_world_stepped(t, Some(vec![t as u8]));
        b.insert_action(act("n", Operation::MoveNode, t as u32), t);
    }
    b.mark_physics_stale_after(2);
    assert_eq!(b.get_physics_state(2), Some(vec![2]));
    assert_eq!(b.get_physics_state(3), None);
    assert_eq!(b.get_state_hash(4), None);
    assert_eq!(b.actions_in_order(4).len(), 1);
    b.mark_actions_stale_after(3);
    assert_eq!(b.actions_in_order(3).len(), 1);
    assert!(b.actions_in_order(4).is_empty());
    assert_eq!(ids(&b), vec![1, 2, 3, 4]);
}

#[test]
fn rollback_refusals() {
    let mut b: WorldBuffer<u32> = WorldBuffer::new(3);
    let t: BufferStep<u32> = BufferStep::new(5, Some(vec![1]), Vec::new(), None);
    assert_eq!(b.corrective_rollback(5, t).err(), Some(RollbackError::NotInPast));
    let t: BufferStep<u32> = BufferStep::new(1, Some(vec![1]), Vec::new(), None);
    assert_eq!(b.corrective_rollback(5, t).err(), Some(RollbackError::BeyondBuffer));
    let t: BufferStep<u32> = BufferStep::new(3, None, Vec::new(), None);
    assert_eq!(b.corrective_rollback(5, t).err(), Some(RollbackError::MissingState));
}

#[test]
fn rollback_plan() {
    let mut b: WorldBuffer<u32> = WorldBuffer::new(10);
    for t in 1..=6usize {
        b.on_world_stepped(t, Some(vec![t as u8]));
    }
    let target: BufferStep<u32> = BufferStep::new(3, Some(vec![3]), Vec::new(), None);
    let plan = b.corrective_rollback(6, target).ok().unwrap();
    assert_eq!(plan.timestep_id, 3);
    assert_eq!(plan.physics_state, vec![3]);
    assert_eq!(plan.steps_to_resim, 3);
    assert_eq!(b.get_physics_state(3), Some(vec![3]));
    assert_eq!(b.get_physics_state(4), None);
    assert_eq!(b.get_physics_state(6), None);
}

#[test]
fn encoded_actions_recorded_with_hash() {
    let mut b: WorldBuffer<u32> = WorldBuffer::new(10);
    b.insert_action(act("n", Operation::MoveNode, 1), 4);
    b.record_serialized_actions(4, vec![1, 2, 3]);
    let step = b.get_step(4).unwrap();
    assert_eq!(step.ser_actions, Some(vec![1, 2, 3]));
    assert_eq!(step.actions_hash, Some(state_hash(vec![1, 2, 3])));
    b.record_serialized_actions(5, vec![9]);
    assert!(b.get_step(5).is_none());
    let built = BufferStep::new(7, None, vec![act("m", Operation::AddNode, 2)], Some(vec![4]));
    assert_eq!(built.actions_hash, Some(state_hash(vec![4])));
    b.mark_actions_stale_after(3);
    assert_eq!(b.get_step(4).unwrap().ser_actions, None);
    assert_eq!(b.get_step(4).unwrap().actions_hash, None);
}

#[test]
fn step_changed_in_place() {
    let mut b: WorldBuffer<u32> = WorldBuffer::new(10);
    b.on_world_stepped(2, Some(vec![5]));
    match b.get_step_mut(2) {
        Some(step) => step.actions.clear(),
        None => panic!("step 2 missing"),
    }
    assert!(b.get_step_mut(3).is_none());
    assert_eq!(b.get_physics_state(2), Some(vec![5]));
}

#[test]
fn application_order_independent_of_recording_order() {
    let mut a: WorldBuffer<u32> = WorldBuffer::new(10);
    let mut b: WorldBuffer<u32> = WorldBuffer::new(10);
    a.insert_action(act("y", Operation::MoveNode, 1), 0);
    a.insert_action(act("x", Operation::TeleportNode, 2), 0);
    a.insert_action(act("x", Operation::AddNode, 3), 0);
    b.insert_action(act("x", Operation::AddNode, 3), 0);
    b.insert_action(act("y", Operation::MoveNode, 1), 0);
    b.insert_action(act("x", Operation::TeleportNode, 2), 0);
    let oa: Vec<u32> = a.actions_in_order(0).iter().map(|x| x.payload).collect();
    let ob: Vec<u32> = b.actions_in_order(0).iter().map(|x| x.payload).collect();
    assert_eq!(oa, vec![3, 2, 1]);
    assert_eq!(oa, ob);
}

#[test]
fn action_replicate_flag() {
    let a: Action<u32> = Action::new("n".to_string(), Some((1, 2)), Operation::MoveNode, 0);
    assert!(!a.replicate);
    let b: Action<u32> = Action::new_full("n".to_string(), None, Operation::AddNode, 7, true);
    assert!(b.replicate);
    assert_eq!(b.payload, 7);
    assert_eq!(b.handle, None);
}
