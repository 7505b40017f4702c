use godot_rapier::buffer::{BufferStep, WorldBuffer};
use godot_rapier::maps::{tick_hash_map_from_entries, tick_hashes_in_order, TickHashMap};
use godot_rapier::sync::{
    create_update_message_for_peer, get_state_hashes_for_peer, Advantage, LifecycleError, Peer, SyncState,
    UpdateMessage,
};

fn state_hash(bytes: Vec<u8>) -> u64 {
    BufferStep::<u32>::new(0, Some(bytes), Vec::new(), None).physics_hash.unwrap()
}

fn state_with_peers(ids: &[i64]) -> SyncState {
    let mut s = SyncState::new();
    for id in ids {
        s.peers.push(Peer::new(*id));
    }
    s
}

#[test]
fn new_peer_defaults() {
    let p = Peer::new(42);
    assert_eq!(p.peer_id, 42);
    assert!(!p.is_spectator);
    assert_eq!(p.next_local_input_tick_requested, 1);
    assert_eq!(p.next_local_hash_tick_requested, 1);
    assert_eq!(p.calculated_advantage, Advantage { total: 0, samples: 0 });
    assert!(p.advantage_list.is_empty());
}

#[test]
fn advantage_averaged_after_enough_ticks() {
    let mut p = Peer::new(1);
    p.local_lag = 5;
    p.remote_lag = 2;
    p.record_advantage(3, false);
    p.record_advantage(3, false);
    assert_eq!(p.advantage_list, vec![3, 3]);
    assert_eq!(p.calculated_advantage, Advantage { total: 0, samples: 0 });
    p.local_lag = 0;
    p.record_advantage(3, false);
    assert_eq!(p.calculated_advantage, Advantage { total: 4, samples: 3 });
    assert!(p.advantage_list.is_empty());
}

#[test]
fn advantage_forced() {
    let mut p = Peer::new(1);
    p.local_lag = -4;
    p.record_advantage(100, true);
    assert_eq!(p.calculated_advantage, Advantage { total: -4, samples: 1 });
    p.clear_advantage();
    assert_eq!(p.calculated_advantage, Advantage { total: 0, samples: 0 });
}

#[test]
fn peer_clear_keeps_identity() {
    let mut p = Peer::new(9);
    p.is_spectator = true;
    p.rtt = 30;
    p.local_lag = 2;
    p.next_local_hash_tick_requested = 17;
    p.clear();
    assert_eq!(p.peer_id, 9);
    assert!(p.is_spectator);
    assert_eq!(p.rtt, 0);
    assert_eq!(p.local_lag, 0);
    assert_eq!(p.next_local_hash_tick_requested, 0);
}

#[test]
fn host_start_errors() {
    let mut s = state_with_peers(&[2]);
    assert_eq!(s.begin_host_start(None).err(), Some(LifecycleError::NoNetworkAdapter));
    assert_eq!(s.begin_host_start(Some(false)).err(), Some(LifecycleError::NotNetworkHost));
    assert!(s.begin_host_start(Some(true)).is_ok());
    assert_eq!(s.begin_host_start(Some(true)).err(), Some(LifecycleError::AlreadyStarted));
    s.finish_host_start();
    s.on_received_remote_start();
    assert_eq!(s.begin_host_start(Some(true)).err(), Some(LifecycleError::AlreadyStarted));
}

#[test]
fn host_start_waits_for_slowest_peer() {
    let mut s = state_with_peers(&[2, 3, 4]);
    s.peers[0].rtt = 40;
    s.peers[1].rtt = 120;
    s.peers[2].rtt = 80;
    let plan = s.begin_host_start(Some(true)).ok().unwrap();
    assert_eq!(plan.notify, vec![2, 3, 4]);
    assert_eq!(plan.delay_ms, 120);
    assert!(s.host_starting);
    assert!(!s.started);
}

#[test]
fn stop_targets_and_stop() {
    let mut s = state_with_peers(&[5, 6]);
    assert_eq!(s.stop_targets(None).err(), Some(LifecycleError::NoNetworkAdapter));
    assert_eq!(s.stop_targets(Some(false)).err(), Some(LifecycleError::NotNetworkHost));
    assert_eq!(s.stop_targets(Some(true)).ok(), Some(vec![5, 6]));
    assert!(!s.on_received_remote_stop());
    s.peers[1].rtt = 10;
    s.on_received_remote_start();
    assert!(s.on_received_remote_stop());
    assert!(!s.started);
    assert_eq!(s.peers[1].rtt, 0);
    assert_eq!(s.peers[1].peer_id, 6);
}

#[test]
fn ping_skips_self() {
    let s = state_with_peers(&[1, 2, 3]);
    assert_eq!(s.ping_targets(2), vec![1, 3]);
    assert_eq!(s.ping_targets(7), vec![1, 2, 3]);
}

#[test]
fn rtt_recorded() {
    let mut s = state_with_peers(&[1, 2]);
    assert_eq!(s.record_rtt(2, 1500, 1420), 80);
    assert_eq!(s.peers[1].rtt, 80);
    assert_eq!(s.peers[1].last_ping_received, 1500);
    assert_eq!(s.peers[0].rtt, 0);
}

#[test]
fn all_advantages_recorded() {
    let mut s = state_with_peers(&[1, 2]);
    s.peers[0].local_lag = 3;
    s.peers[1].remote_lag = 1;
    s.record_all_advantages(1, false);
    assert_eq!(s.peers[0].calculated_advantage, Advantage { total: 3, samples: 1 });
    assert_eq!(s.peers[1].calculated_advantage, Advantage { total: -1, samples: 1 });
}

fn message(tick: u64, next_action: u64, next_hash: u64) -> UpdateMessage {
    UpdateMessage {
        tick,
        actions: Vec::new(),
        state_hashes: TickHashMap::new(),
        next_action_tick_requested: next_action,
        next_hash_tick_requested: next_hash,
    }
}

#[test]
fn tick_data_from_known_and_unknown_peers() {
    let mut s = state_with_peers(&[1, 2]);
    assert!(s.record_peer_tick_data(2, &message(30, 25, 26)));
    assert_eq!(s.peers[1].last_remote_input_tick_received, 30);
    assert_eq!(s.peers[1].last_remote_hash_tick_received, 30);
    assert_eq!(s.peers[1].next_local_input_tick_requested, 25);
    assert_eq!(s.peers[1].next_local_hash_tick_requested, 26);
    assert!(!s.record_peer_tick_data(9, &message(31, 1, 1)));
    assert_eq!(s.peers[0].last_remote_input_tick_received, 0);
}

#[test]
fn state_hashes_for_requested_ticks() {
    let mut b: WorldBuffer<u32> = WorldBuffer::new(100);
    for t in 1..=6usize {
        b.on_world_stepped(t, Some(vec![t as u8, 1]));
    }
    b.mark_physics_stale_after(3);
    let mut p = Peer::new(1);
    p.next_local_hash_tick_requested = 2;
    let hashes = get_state_hashes_for_peer(&p, &b, 6);
    assert_eq!(tick_hashes_in_order(&hashes), vec![(2, state_hash(vec![2, 1])), (3, state_hash(vec![3, 1]))]);
    p.next_local_hash_tick_requested = 5;
    assert!(tick_hashes_in_order(&get_state_hashes_for_peer(&p, &b, 6)).is_empty());
}

#[test]
fn update_message_for_peer() {
    let mut b: WorldBuffer<u32> = WorldBuffer::new(100);
    b.on_world_stepped(1, Some(vec![1]));
    b.on_world_stepped(2, Some(vec![2]));
    let p = Peer::new(3);
    assert!(create_update_message_for_peer(&p, &b, 2, 11, 12).is_none());
    b.record_serialized_actions(2, vec![7, 7]);
    let m = create_update_message_for_peer(&p, &b, 2, 11, 12).unwrap();
    assert_eq!(m.tick, 2);
    assert_eq!(m.actions, vec![7, 7]);
    assert_eq!(m.next_action_tick_requested, 11);
    assert_eq!(m.next_hash_tick_requested, 12);
    assert!(tick_hashes_in_order(&m.state_hashes).is_empty());
    assert!(create_update_message_for_peer(&p, &b, 3, 11, 12).is_none());
    assert!(create_update_message_for_peer(&p, &b, 0, 11, 12).is_none());
}

#[test]
fn tick_hash_map_last_entry_wins() {
    let m = tick_hash_map_from_entries(&vec![(1, 10), (2, 20), (1, 11)]);
    assert_eq!(tick_hashes_in_order(&m), vec![(1, 11), (2, 20)]);
}

#[test]
fn tick_hashes_listed_in_tick_order() {
    let m = tick_hash_map_from_entries(&vec![(9, 90), (3, 30), (7, 70), (3, 31)]);
    assert_eq!(tick_hashes_in_order(&m), vec![(3, 31), (7, 70), (9, 90)]);
    assert!(tick_hashes_in_order(&TickHashMap::new()).is_empty());
}
