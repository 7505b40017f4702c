//! Synchronisation with remote peers: the state kept per peer, the start /
//! stop lifecycle of a session, pings, and the tick messages peers exchange.

use crate::buffer::{lookup_step, StepView, WorldBuffer};
use crate::maps::{tick_hash_contents, TickHashMap};
use crate::queue::int_of;
use vstd::prelude::*;

verus! {

/// The sum of a sequence of lags.
pub open spec fn lag_sum(s: Seq<i64>) -> int
    decreases s.len(),
{
    if s.len() == 0 {
        0
    } else {
        lag_sum(s.drop_last()) + s.last()
    }
}

/// A frame advantage as an exact fraction: `total / samples` ticks, and zero
/// when there are no samples.
#[derive(Debug, Clone, Copy, PartialEq, Eq, Structural)]
pub struct Advantage {
    pub total: i128,
    pub samples: usize,
}

/// A connected network entity: a player or a spectator.
#[derive(Debug, Clone)]
pub struct Peer {
    pub peer_id: i64,
    pub is_spectator: bool,
    pub rtt: u128,
    pub last_ping_received: u128,
    pub last_remote_input_tick_received: u64,
    pub next_local_input_tick_requested: u64,
    pub last_remote_hash_tick_received: u64,
    pub next_local_hash_tick_requested: u64,
    pub remote_lag: i64,
    pub local_lag: i64,
    pub calculated_advantage: Advantage,
    pub advantage_list: Vec<i64>,
}

proof fn lemma_lag_sum_bounds(s: Seq<i64>)
    ensures
        s.len() * (i64::MIN as int) <= lag_sum(s) <= s.len() * (i64::MAX as int),
    decreases s.len(),
{
    if s.len() > 0 {
        lemma_lag_sum_bounds(s.drop_last());
        assert((s.len() - 1) * (i64::MIN as int) + (i64::MIN as int) == s.len() * (i64::MIN as int)) by (nonlinear_arith);
        assert((s.len() - 1) * (i64::MAX as int) + (i64::MAX as int) == s.len() * (i64::MAX as int)) by (nonlinear_arith);
    }
}

proof fn lemma_lag_sum_fits(s: Seq<i64>)
    requires
        s.len() <= usize::MAX,
    ensures
        i128::MIN <= lag_sum(s) <= i128::MAX,
{
    lemma_lag_sum_bounds(s);
    assert(s.len() * (i64::MIN as int) >= (usize::MAX as int) * (i64::MIN as int)) by (nonlinear_arith)
        requires s.len() <= usize::MAX;
    assert(s.len() * (i64::MAX as int) <= (usize::MAX as int) * (i64::MAX as int)) by (nonlinear_arith)
        requires s.len() <= usize::MAX;
    assert((usize::MAX as int) * (i64::MIN as int) >= i128::MIN) by (nonlinear_arith)
        requires usize::MAX <= 0xffff_ffff_ffff_ffff;
    assert((usize::MAX as int) * (i64::MAX as int) <= i128::MAX) by (nonlinear_arith)
        requires usize::MAX <= 0xffff_ffff_ffff_ffff;
}

/// The sum of the lags, exactly.
fn sum_lags(list: &Vec<i64>) -> (total: i128)
    ensures
        total == lag_sum(list@),
{
    let n = list.len();
    let mut total: i128 = 0;
    let mut i: usize = 0;
    while i < n
        invariant
            n == list@.len(),
            i <= n,
            total == lag_sum(list@.take(i as int)),
        decreases n - i,
    {
        proof {
            assert(list@.take(i + 1).drop_last() =~= list@.take(i as int));
            lemma_lag_sum_fits(list@.take(i + 1));
        }
        total = total + list[i] as i128;
        i = i + 1;
    }
    assert(list@.take(n as int) =~= list@);
    total
}

impl Peer {
    /// A peer that has not been heard from yet.
    pub fn new(peer_id: i64) -> (p: Self)
        ensures
            p.peer_id == peer_id,
            !p.is_spectator,
            p.rtt == 0,
            p.last_ping_received == 0,
            p.last_remote_input_tick_received == 0,
            p.next_local_input_tick_requested == 1,
            p.last_remote_hash_tick_received == 0,
            p.next_local_hash_tick_requested == 1,
            p.remote_lag == 0,
            p.local_lag == 0,
            p.calculated_advantage == (Advantage { total: 0, samples: 0 }),
            p.advantage_list@ == Seq::<i64>::empty(),
    {
        Peer {
            peer_id,
            is_spectator: false,
            rtt: 0,
            last_ping_received: 0,
            last_remote_input_tick_received: 0,
            next_local_input_tick_requested: 1,
            last_remote_hash_tick_received: 0,
            next_local_hash_tick_requested: 1,
            remote_lag: 0,
            local_lag: 0,
            calculated_advantage: Advantage { total: 0, samples: 0 },
            advantage_list: Vec::new(),
        }
    }

    /// Records this tick's advantage (local lag minus remote lag).  Once
    /// `ticks_to_calculate_advantage` samples are in, or when forced, the
    /// advantage becomes their mean and the samples are dropped.
    pub fn record_advantage(&mut self, ticks_to_calculate_advantage: i64, force_recalculate: bool)
        requires
            i64::MIN <= old(self).local_lag - old(self).remote_lag <= i64::MAX,
            old(self).advantage_list@.len() < usize::MAX,
        ensures
            ({
                let list = old(self).advantage_list@.push((old(self).local_lag - old(self).remote_lag) as i64);
                if force_recalculate || list.len() >= ticks_to_calculate_advantage as usize {
                    &&& final(self).calculated_advantage == (Advantage { total: lag_sum(list) as i128, samples: list.len() as usize })
                    &&& final(self).advantage_list@ == Seq::<i64>::empty()
                } else {
                    &&& final(self).calculated_advantage == old(self).calculated_advantage
                    &&& final(self).advantage_list@ == list
                }
            }),
            final(self).peer_id == old(self).peer_id,
            final(self).local_lag == old(self).local_lag,
            final(self).remote_lag == old(self).remote_lag,
    {
        let lag = self.local_lag - self.remote_lag;
        self.advantage_list.push(lag);
        if force_recalculate || (self.advantage_list.len() >= ticks_to_calculate_advantage as usize) {
            let total = sum_lags(&self.advantage_list);
            self.calculated_advantage = Advantage { total, samples: self.advantage_list.len() };
            self.advantage_list.clear();
        }
    }

    /// Forgets the advantage and its samples.
    pub fn clear_advantage(&mut self)
        ensures
            final(self).calculated_advantage == (Advantage { total: 0, samples: 0 }),
            final(self).advantage_list@ == Seq::<i64>::empty(),
            final(self).peer_id == old(self).peer_id,
            final(self).is_spectator == old(self).is_spectator,
            final(self).rtt == old(self).rtt,
            final(self).last_ping_received == old(self).last_ping_received,
            final(self).last_remote_input_tick_received == old(self).last_remote_input_tick_received,
            final(self).next_local_input_tick_requested == old(self).next_local_input_tick_requested,
            final(self).last_remote_hash_tick_received == old(self).last_remote_hash_tick_received,
            final(self).next_local_hash_tick_requested == old(self).next_local_hash_tick_requested,
            final(self).remote_lag == old(self).remote_lag,
            final(self).local_lag == old(self).local_lag,
    {
        self.calculated_advantage = Advantage { total: 0, samples: 0 };
        self.advantage_list.clear();
    }

    /// Resets everything learned about the peer; it keeps its id and role.
    pub fn clear(&mut self)
        ensures
            peer_cleared(*old(self), *final(self)),
            final(self).peer_id == old(self).peer_id,
            final(self).is_spectator == old(self).is_spectator,
            final(self).rtt == 0,
            final(self).last_ping_received == 0,
            final(self).last_remote_input_tick_received == 0,
            final(self).next_local_input_tick_requested == 0,
            final(self).last_remote_hash_tick_received == 0,
            final(self).next_local_hash_tick_requested == 0,
            final(self).remote_lag == 0,
            final(self).local_lag == 0,
            final(self).calculated_advantage.total == 0,
            final(self).calculated_advantage.samples == 0,
            final(self).advantage_list@.len() == 0,
    {
        self.rtt = 0;
        self.last_ping_received = 0;
        self.last_remote_input_tick_received = 0;
        self.next_local_input_tick_requested = 0;
        self.last_remote_hash_tick_received = 0;
        self.next_local_hash_tick_requested = 0;
        self.remote_lag = 0;
        self.local_lag = 0;
        self.clear_advantage();
    }
}

/// `after` is `before` with everything learned about the peer reset.
pub open spec fn peer_cleared(before: Peer, after: Peer) -> bool {
    &&& after.peer_id == before.peer_id
    &&& after.is_spectator == before.is_spectator
    &&& after.rtt == 0
    &&& after.last_ping_received == 0
    &&& after.last_remote_input_tick_received == 0
    &&& after.next_local_input_tick_requested == 0
    &&& after.last_remote_hash_tick_received == 0
    &&& after.next_local_hash_tick_requested == 0
    &&& after.remote_lag == 0
    &&& after.local_lag == 0
    &&& after.calculated_advantage == (Advantage { total: 0, samples: 0 })
    &&& after.advantage_list@ == Seq::<i64>::empty()
}


/// A cleared peer has forgotten everything learned in the session: it reads
/// as a peer just met (`Peer::new` of its id), except that it asks for tick
/// 0 rather than 1 next and keeps its role.  Stopping a session leaves every
/// peer so.
pub proof fn lemma_cleared_peer_forgets_session(before: Peer, after: Peer)
    requires
        peer_cleared(before, after),
    ensures
        after.peer_id == before.peer_id,
        after.is_spectator == before.is_spectator,
        after.rtt == 0 && after.last_ping_received == 0,
        after.last_remote_input_tick_received == 0 && after.last_remote_hash_tick_received == 0,
        after.next_local_input_tick_requested == 0 && after.next_local_hash_tick_requested == 0,
        after.remote_lag == 0 && after.local_lag == 0,
        after.calculated_advantage.total == 0 && after.calculated_advantage.samples == 0,
        after.advantage_list@.len() == 0,
{
}

/// Why a session could not be started or stopped.
#[derive(Debug, Clone, Copy, PartialEq, Eq, Structural)]
pub enum LifecycleError {
    /// No network adapter is attached.
    NoNetworkAdapter,
    /// Only the network host may start or stop the session.
    NotNetworkHost,
    /// The session is already starting or started.
    AlreadyStarted,
}

/// How the host starts a session: tell these peers to start, wait for the
/// slowest of them (`delay_ms`), then start locally.
#[derive(Debug, Clone)]
pub struct HostStart {
    pub notify: Vec<i64>,
    pub delay_ms: u128,
}

/// The ids of a sequence of peers.
pub open spec fn peer_ids(peers: Seq<Peer>) -> Seq<i64> {
    peers.map_values(|p: Peer| p.peer_id)
}

/// The largest round trip time among the peers, or zero.
pub open spec fn max_rtt(peers: Seq<Peer>) -> u128
    decreases peers.len(),
{
    if peers.len() == 0 {
        0
    } else if max_rtt(peers.drop_last()) < peers.last().rtt {
        peers.last().rtt
    } else {
        max_rtt(peers.drop_last())
    }
}

/// The host's start delay is the round trip time of the slowest peer: no
/// peer's round trip is longer, some peer's is exactly that long, and with
/// no peers there is no delay.
pub proof fn lemma_max_rtt_is_slowest(peers: Seq<Peer>)
    ensures
        forall|i: int| 0 <= i < peers.len() ==> (#[trigger] peers[i]).rtt <= max_rtt(peers),
        peers.len() > 0 ==> exists|i: int| 0 <= i < peers.len() && (#[trigger] peers[i]).rtt == max_rtt(peers),
        peers.len() == 0 ==> max_rtt(peers) == 0,
    decreases peers.len(),
{
    if peers.len() > 0 {
        let d = peers.drop_last();
        lemma_max_rtt_is_slowest(d);
        assert forall|i: int| 0 <= i < peers.len() implies (#[trigger] peers[i]).rtt <= max_rtt(peers) by {
            if i < d.len() {
                assert(peers[i] == d[i]);
            }
        }
        if max_rtt(d) < peers.last().rtt || d.len() == 0 {
            assert(peers[peers.len() - 1].rtt == max_rtt(peers) || d.len() == 0);
            if d.len() == 0 {
                assert(peers[0].rtt >= max_rtt(peers));
                assert(peers[0].rtt == max_rtt(peers));
            }
        } else {
            let k = choose|k: int| 0 <= k < d.len() && (#[trigger] d[k]).rtt == max_rtt(d);
            assert(peers[k] == d[k]);
        }
    }
}

/// The index of the first peer with the given id, or -1.
pub open spec fn peer_index(peers: Seq<Peer>, peer_id: i64) -> int
    decreases peers.len(),
{
    if peers.len() == 0 {
        -1
    } else if peers[0].peer_id == peer_id {
        0
    } else if peer_index(peers.drop_first(), peer_id) < 0 {
        -1
    } else {
        peer_index(peers.drop_first(), peer_id) + 1
    }
}

proof fn lemma_peer_index_bounds(peers: Seq<Peer>, peer_id: i64)
    ensures
        -1 <= peer_index(peers, peer_id) < peers.len(),
        peer_index(peers, peer_id) >= 0 ==> peers[peer_index(peers, peer_id)].peer_id == peer_id,
        peer_index(peers, peer_id) < 0 ==> forall|i: int| 0 <= i < peers.len() ==> (#[trigger] peers[i]).peer_id != peer_id,
    decreases peers.len(),
{
    if peers.len() > 0 && peers[0].peer_id != peer_id {
        lemma_peer_index_bounds(peers.drop_first(), peer_id);
        if peer_index(peers, peer_id) < 0 {
            assert forall|i: int| 0 <= i < peers.len() implies (#[trigger] peers[i]).peer_id != peer_id by {
                if i > 0 {
                    assert(peers[i] == peers.drop_first()[i - 1]);
                }
            }
        }
    }
}

proof fn lemma_peer_index_first(peers: Seq<Peer>, peer_id: i64, i: int)
    requires
        0 <= i < peers.len(),
        peers[i].peer_id == peer_id,
        forall|k: int| 0 <= k < i ==> (#[trigger] peers[k]).peer_id != peer_id,
    ensures
        peer_index(peers, peer_id) == i,
    decreases i,
{
    if i > 0 {
        let d = peers.drop_first();
        assert forall|k: int| 0 <= k < i - 1 implies (#[trigger] d[k]).peer_id != peer_id by {
            assert(d[k] == peers[k + 1]);
        }
        lemma_peer_index_first(d, peer_id, i - 1);
    }
}

/// Finds the first peer with the given id.
fn find_peer(peers: &Vec<Peer>, peer_id: i64) -> (r: Option<usize>)
    ensures
        r is None <==> peer_index(peers@, peer_id) < 0,
        r matches Some(i) ==> int_of(i) == peer_index(peers@, peer_id) && i < peers@.len(),
{
    proof {
        lemma_peer_index_bounds(peers@, peer_id);
    }
    let n = peers.len();
    let mut i: usize = 0;
    while i < n
        invariant
            n == peers@.len(),
            i <= n,
            forall|k: int| 0 <= k < i ==> (#[trigger] peers@[k]).peer_id != peer_id,
        decreases n - i,
    {
        if peers[i].peer_id == peer_id {
            proof {
                lemma_peer_index_first(peers@, peer_id, int_of(i));
            }
            return Some(i);
        }
        i = i + 1;
    }
    proof {
        if peer_index(peers@, peer_id) >= 0 {
            assert(peers@[peer_index(peers@, peer_id)].peer_id == peer_id);
        }
    }
    None
}

/// The state of a synchronisation session.
pub struct SyncState {
    pub started: bool,
    pub host_starting: bool,
    pub peers: Vec<Peer>,
}

impl SyncState {
    /// A session that has not started, with no peers.
    pub fn new() -> (s: Self)
        ensures
            !s.started,
            !s.host_starting,
            s.peers@ == Seq::<Peer>::empty(),
    {
        SyncState { started: false, host_starting: false, peers: Vec::new() }
    }

    /// The host begins to start the session.  `adapter_is_host` is whether
    /// the attached network adapter is the network host (`None`: no adapter).
    pub fn begin_host_start(&mut self, adapter_is_host: Option<bool>) -> (r: Result<HostStart, LifecycleError>)
        ensures
            adapter_is_host is None ==> r == Err::<HostStart, LifecycleError>(LifecycleError::NoNetworkAdapter),
            adapter_is_host == Some(false) ==> r == Err::<HostStart, LifecycleError>(LifecycleError::NotNetworkHost),
            adapter_is_host == Some(true) && (old(self).started || old(self).host_starting)
                ==> r == Err::<HostStart, LifecycleError>(LifecycleError::AlreadyStarted),
            adapter_is_host == Some(true) && !old(self).started && !old(self).host_starting ==> r is Ok,
            r is Err ==> final(self).host_starting == old(self).host_starting,
            r matches Ok(plan) ==> {
                &&& adapter_is_host == Some(true)
                &&& !old(self).started && !old(self).host_starting
                &&& final(self).host_starting
                &&& plan.notify@ == peer_ids(old(self).peers@)
                &&& plan.notify@.len() == old(self).peers@.len()
                &&& forall|i: int| 0 <= i < old(self).peers@.len() ==> plan.notify@[i] == (#[trigger] old(self).peers@[i]).peer_id
                &&& plan.delay_ms == max_rtt(old(self).peers@)
                &&& forall|i: int| 0 <= i < old(self).peers@.len() ==> (#[trigger] old(self).peers@[i]).rtt <= plan.delay_ms
                &&& old(self).peers@.len() > 0 ==> exists|i: int| 0 <= i < old(self).peers@.len()
                    && (#[trigger] old(self).peers@[i]).rtt == plan.delay_ms
                &&& old(self).peers@.len() == 0 ==> plan.delay_ms == 0
            },
            final(self).started == old(self).started,
            final(self).peers@ == old(self).peers@,
    {
        match adapter_is_host {
            None => Err(LifecycleError::NoNetworkAdapter),
            Some(false) => Err(LifecycleError::NotNetworkHost),
            Some(true) => {
                if self.started || self.host_starting {
                    return Err(LifecycleError::AlreadyStarted);
                }
                self.host_starting = true;
                let n = self.peers.len();
                let mut notify: Vec<i64> = Vec::new();
                let mut delay_ms: u128 = 0;
                let mut i: usize = 0;
                assert(peer_ids(self.peers@.take(0)) =~= Seq::<i64>::empty());
                while i < n
                    invariant
                        n == self.peers@.len(),
                        i <= n,
                        notify@ == peer_ids(self.peers@.take(i as int)),
                        delay_ms == max_rtt(self.peers@.take(i as int)),
                    decreases n - i,
                {
                    proof {
                        assert(self.peers@.take(i + 1).drop_last() =~= self.peers@.take(i as int));
                        assert(peer_ids(self.peers@.take(i + 1)) =~= peer_ids(self.peers@.take(i as int)).push(self.peers@[i as int].peer_id));
                    }
                    notify.push(self.peers[i].peer_id);
                    if delay_ms < self.peers[i].rtt {
                        delay_ms = self.peers[i].rtt;
                    }
                    i = i + 1;
                }
                assert(self.peers@.take(n as int) =~= self.peers@);
                proof {
                    assert(self.peers@.take(n as int) =~= self.peers@);
                    lemma_max_rtt_is_slowest(self.peers@);
                }
                Ok(HostStart { notify, delay_ms })
            },
        }
    }

    /// The host has started locally; it is no longer starting.
    pub fn finish_host_start(&mut self)
        ensures
            !final(self).host_starting,
            final(self).started == old(self).started,
            final(self).peers@ == old(self).peers@,
    {
        self.host_starting = false;
    }

    /// The peers the host tells to stop.  `adapter_is_host` is whether the
    /// attached network adapter is the network host (`None`: no adapter).
    pub fn stop_targets(&self, adapter_is_host: Option<bool>) -> (r: Result<Vec<i64>, LifecycleError>)
        ensures
            adapter_is_host is None ==> r is Err && r->Err_0 == LifecycleError::NoNetworkAdapter,
            adapter_is_host == Some(false) ==> r is Err && r->Err_0 == LifecycleError::NotNetworkHost,
            adapter_is_host == Some(true) ==> r is Ok && r->Ok_0@ == peer_ids(self.peers@),
    {
        match adapter_is_host {
            None => Err(LifecycleError::NoNetworkAdapter),
            Some(false) => Err(LifecycleError::NotNetworkHost),
            Some(true) => {
                let n = self.peers.len();
                let mut ids: Vec<i64> = Vec::new();
                let mut i: usize = 0;
                assert(peer_ids(self.peers@.take(0)) =~= Seq::<i64>::empty());
                while i < n
                    invariant
                        n == self.peers@.len(),
                        i <= n,
                        ids@ == peer_ids(self.peers@.take(i as int)),
                    decreases n - i,
                {
                    proof {
                        assert(peer_ids(self.peers@.take(i + 1)) =~= peer_ids(self.peers@.take(i as int)).push(self.peers@[i as int].peer_id));
                    }
                    ids.push(self.peers[i].peer_id);
                    i = i + 1;
                }
                assert(self.peers@.take(n as int) =~= self.peers@);
                Ok(ids)
            },
        }
    }

    /// A start message arrived (or the host starts): the session runs.
    pub fn on_received_remote_start(&mut self)
        ensures
            final(self).started,
            final(self).host_starting == old(self).host_starting,
            final(self).peers@ == old(self).peers@,
    {
        self.started = true;
    }

    /// A stop message arrived (or the host stops).  A session that is
    /// neither started nor starting is left alone (`false`); otherwise it
    /// stops and every peer is cleared (`true`).
    pub fn on_received_remote_stop(&mut self) -> (stopped: bool)
        ensures
            stopped == (old(self).started || old(self).host_starting),
            !stopped ==> final(self).started == old(self).started && final(self).host_starting == old(self).host_starting
                && final(self).peers@ == old(self).peers@,
            stopped ==> !final(self).started && !final(self).host_starting,
            stopped ==> final(self).peers@.len() == old(self).peers@.len()
                && forall|i: int| 0 <= i < old(self).peers@.len() ==> peer_cleared(#[trigger] old(self).peers@[i], final(self).peers@[i]),
            stopped ==> forall|i: int| 0 <= i < final(self).peers@.len() ==> {
                let p = #[trigger] final(self).peers@[i];
                &&& p.peer_id == old(self).peers@[i].peer_id
                &&& p.rtt == 0 && p.last_ping_received == 0
                &&& p.last_remote_input_tick_received == 0 && p.last_remote_hash_tick_received == 0
                &&& p.next_local_input_tick_requested == 0 && p.next_local_hash_tick_requested == 0
                &&& p.remote_lag == 0 && p.local_lag == 0
                &&& p.advantage_list@.len() == 0
            },
    {
        if !(self.started || self.host_starting) {
            return false;
        }
        self.started = false;
        self.host_starting = false;
        let n = self.peers.len();
        let mut i: usize = 0;
        while i < n
            invariant
                n == self.peers@.len(),
                n == old(self).peers@.len(),
                i <= n,
                !self.started,
                !self.host_starting,
                forall|k: int| 0 <= k < i ==> peer_cleared(#[trigger] old(self).peers@[k], self.peers@[k]),
                forall|k: int| i <= k < n ==> #[trigger] self.peers@[k] == old(self).peers@[k],
            decreases n - i,
        {
            let mut peer = self.peers.remove(i);
            peer.clear();
            self.peers.insert(i, peer);
            i = i + 1;
        }
        proof {
            assert forall|k: int| 0 <= k < self.peers@.len() implies {
                let p = #[trigger] self.peers@[k];
                &&& p.peer_id == old(self).peers@[k].peer_id
                &&& p.rtt == 0 && p.last_ping_received == 0
                &&& p.last_remote_input_tick_received == 0 && p.last_remote_hash_tick_received == 0
                &&& p.next_local_input_tick_requested == 0 && p.next_local_hash_tick_requested == 0
                &&& p.remote_lag == 0 && p.local_lag == 0
                &&& p.advantage_list@.len() == 0
            } by {
                lemma_cleared_peer_forgets_session(old(self).peers@[k], self.peers@[k]);
            }
        }
        true
    }

    /// The peers to ping: every peer but ourselves.
    pub fn ping_targets(&self, own_id: i64) -> (r: Vec<i64>)
        ensures
            r@ == peer_ids(self.peers@).filter(|id: i64| id != own_id),
    {
        let ghost keep = |id: i64| id != own_id;
        let ghost ids = peer_ids(self.peers@);
        let n = self.peers.len();
        let mut r: Vec<i64> = Vec::new();
        let mut i: usize = 0;
        assert(ids.take(0).filter(keep) =~= Seq::<i64>::empty());
        while i < n
            invariant
                n == self.peers@.len(),
                ids == peer_ids(self.peers@),
                keep == (|id: i64| id != own_id),
                i <= n,
                r@ == ids.take(i as int).filter(keep),
            decreases n - i,
        {
            let id = self.peers[i].peer_id;
            if id != own_id {
                r.push(id);
            }
            proof {
                assert(ids[i as int] == id);
                ids.take(i as int).lemma_filter_push(id, keep);
                assert(ids.take(i as int).push(id) =~= ids.take(i + 1));
            }
            i = i + 1;
        }
        assert(ids.take(n as int) =~= ids);
        r
    }

    /// Records a ping answer from a peer at local time `system_time`: when it
    /// arrived and the round trip time.  Returns the round trip time.
    pub fn record_rtt(&mut self, peer_id: i64, system_time: u128, remote_time: u128) -> (rtt: u128)
        requires
            peer_index(old(self).peers@, peer_id) >= 0,
            system_time >= remote_time,
        ensures
            rtt == system_time - remote_time,
            final(self).peers@ == old(self).peers@.update(
                peer_index(old(self).peers@, peer_id),
                Peer {
                    last_ping_received: system_time,
                    rtt: rtt,
                    ..old(self).peers@[peer_index(old(self).peers@, peer_id)]
                },
            ),
            final(self).started == old(self).started,
            final(self).host_starting == old(self).host_starting,
    {
        let i = match find_peer(&self.peers, peer_id) {
            Some(i) => i,
            None => {
                assert(false);
                0
            },
        };
        let mut peer = self.peers.remove(i);
        peer.last_ping_received = system_time;
        peer.rtt = system_time - remote_time;
        let rtt = peer.rtt;
        self.peers.insert(i, peer);
        assert(self.peers@ =~= old(self).peers@.update(int_of(i), self.peers@[int_of(i)]));
        rtt
    }

    /// Records this tick's advantage for every peer.
    pub fn record_all_advantages(&mut self, ticks_to_calculate_advantage: i64, force_recalculate: bool)
        requires
            forall|i: int| 0 <= i < old(self).peers@.len() ==>
                i64::MIN <= (#[trigger] old(self).peers@[i]).local_lag - old(self).peers@[i].remote_lag <= i64::MAX
                && old(self).peers@[i].advantage_list@.len() < usize::MAX,
        ensures
            final(self).peers@.len() == old(self).peers@.len(),
            forall|i: int| 0 <= i < old(self).peers@.len() ==>
                advantage_recorded(#[trigger] old(self).peers@[i], final(self).peers@[i], ticks_to_calculate_advantage, force_recalculate),
            final(self).started == old(self).started,
            final(self).host_starting == old(self).host_starting,
    {
        let n = self.peers.len();
        let mut i: usize = 0;
        while i < n
            invariant
                n == self.peers@.len(),
                n == old(self).peers@.len(),
                i <= n,
                self.started == old(self).started,
                self.host_starting == old(self).host_starting,
                forall|k: int| 0 <= k < i ==> advantage_recorded(#[trigger] old(self).peers@[k], self.peers@[k], ticks_to_calculate_advantage, force_recalculate),
                forall|k: int| i <= k < n ==> #[trigger] self.peers@[k] == old(self).peers@[k],
                forall|k: int| 0 <= k < n ==>
                    i64::MIN <= (#[trigger] old(self).peers@[k]).local_lag - old(self).peers@[k].remote_lag <= i64::MAX
                    && old(self).peers@[k].advantage_list@.len() < usize::MAX,
            decreases n - i,
        {
            let mut peer = self.peers.remove(i);
            assert(peer == old(self).peers@[i as int]);
            peer.record_advantage(ticks_to_calculate_advantage, force_recalculate);
            self.peers.insert(i, peer);
            i = i + 1;
        }
    }

    /// Records what a peer told us in a tick message: which ticks it wants
    /// next from us, and the tick it sent.  Returns whether the sender is a
    /// known peer; messages from unknown peers change nothing.
    pub fn record_peer_tick_data(&mut self, sender_peer_id: i64, message: &UpdateMessage) -> (known: bool)
        ensures
            known == (peer_index(old(self).peers@, sender_peer_id) >= 0),
            !known ==> final(self).peers@ == old(self).peers@,
            known ==> final(self).peers@ == old(self).peers@.update(
                peer_index(old(self).peers@, sender_peer_id),
                Peer {
                    next_local_input_tick_requested: message.next_action_tick_requested,
                    next_local_hash_tick_requested: message.next_hash_tick_requested,
                    last_remote_input_tick_received: message.tick,
                    last_remote_hash_tick_received: message.tick,
                    ..old(self).peers@[peer_index(old(self).peers@, sender_peer_id)]
                },
            ),
            final(self).started == old(self).started,
            final(self).host_starting == old(self).host_starting,
    {
        match find_peer(&self.peers, sender_peer_id) {
            Some(i) => {
                let mut peer = self.peers.remove(i);
                peer.next_local_input_tick_requested = message.next_action_tick_requested;
                peer.next_local_hash_tick_requested = message.next_hash_tick_requested;
                peer.last_remote_input_tick_received = message.tick;
                peer.last_remote_hash_tick_received = message.tick;
                self.peers.insert(i, peer);
                assert(self.peers@ =~= old(self).peers@.update(int_of(i), self.peers@[int_of(i)]));
                true
            },
            None => false,
        }
    }
}

/// `after` is `before` once this tick's advantage is recorded.
pub open spec fn advantage_recorded(before: Peer, after: Peer, ticks: i64, force: bool) -> bool {
    let list = before.advantage_list@.push((before.local_lag - before.remote_lag) as i64);
    &&& after.peer_id == before.peer_id
    &&& after.local_lag == before.local_lag
    &&& after.remote_lag == before.remote_lag
    &&& if force || list.len() >= ticks as usize {
        &&& after.calculated_advantage == (Advantage { total: lag_sum(list) as i128, samples: list.len() as usize })
        &&& after.advantage_list@ == Seq::<i64>::empty()
    } else {
        &&& after.calculated_advantage == before.calculated_advantage
        &&& after.advantage_list@ == list
    }
}

/// The message sent to each peer every tick.
pub struct UpdateMessage {
    /// The timestep that the data belongs to.
    pub tick: u64,
    /// The encoded actions the sender knows for that tick.
    pub actions: Vec<u8>,
    /// State hashes of the ticks the receiver asked for.
    pub state_hashes: TickHashMap,
    /// The next action tick the sender wants from the receiver.
    pub next_action_tick_requested: u64,
    /// The next hash tick the sender wants from the receiver.
    pub next_hash_tick_requested: u64,
}

/// The state hashes a peer gets: for each tick from the one it asked for up
/// to (not including) the tick before `current`, the hash recorded for it.
pub open spec fn state_hashes_for<P>(steps: Seq<StepView<P>>, requested: u64, current: usize) -> Map<u64, u64> {
    Map::new(
        |k: u64| requested <= k < current - 1 && hash_recorded(steps, k),
        |k: u64| recorded_hash(steps, k),
    )
}

/// Whether the buffer holds a state hash for tick `k`.
pub open spec fn hash_recorded<P>(steps: Seq<StepView<P>>, k: u64) -> bool {
    k <= usize::MAX && (match lookup_step(steps, k as usize) {
        Some(st) => st.physics_hash is Some,
        None => false,
    })
}

/// The state hash the buffer holds for tick `k`.
pub open spec fn recorded_hash<P>(steps: Seq<StepView<P>>, k: u64) -> u64 {
    match lookup_step(steps, k as usize) {
        Some(st) => st.physics_hash->0,
        None => 0,
    }
}

/// The state hashes to send a peer (see `state_hashes_for`).
pub fn get_state_hashes_for_peer<P>(peer: &Peer, buffer: &WorldBuffer<P>, current_timestep: usize) -> (r: TickHashMap)
    requires
        buffer.wf(),
        current_timestep >= 1,
    ensures
        tick_hash_contents(r) == state_hashes_for(buffer.steps(), peer.next_local_hash_tick_requested, current_timestep),
{
    let mut state_hashes = TickHashMap::new();
    let requested_tick = peer.next_local_hash_tick_requested;
    let last = (current_timestep - 1) as u64;
    let ghost target = state_hashes_for(buffer.steps(), requested_tick, current_timestep);
    if requested_tick >= last {
        assert(tick_hash_contents(state_hashes) =~= target);
        return state_hashes;
    }
    let mut idx = requested_tick;
    while idx < last
        invariant
            requested_tick <= idx <= last,
            last == current_timestep - 1,
            buffer.wf(),
            target == state_hashes_for(buffer.steps(), requested_tick, current_timestep),
            forall|k: u64| #[trigger] tick_hash_contents(state_hashes).contains_key(k) <==> requested_tick <= k < idx && hash_recorded(buffer.steps(), k),
            forall|k: u64| #[trigger] tick_hash_contents(state_hashes).contains_key(k) ==> tick_hash_contents(state_hashes)[k] == recorded_hash(buffer.steps(), k),
        decreases last - idx,
    {
        match buffer.get_state_hash(idx as usize) {
            Some(hash) => {
                state_hashes.insert(idx, hash);
            },
            None => {},
        }
        idx = idx + 1;
    }
    assert(tick_hash_contents(state_hashes) =~= target);
    state_hashes
}

/// The tick message for one peer: `None` when the buffer does not hold the
/// current timestep or holds no encoding of its actions.
pub fn create_update_message_for_peer<P>(
    peer: &Peer,
    buffer: &WorldBuffer<P>,
    current_timestep: usize,
    next_action_tick_requested: u64,
    next_hash_tick_requested: u64,
) -> (r: Option<UpdateMessage>)
    requires
        buffer.wf(),
        (lookup_step(buffer.steps(), current_timestep) matches Some(st) && st.ser_actions is Some) ==> current_timestep >= 1,
    ensures
        r is Some <==> (lookup_step(buffer.steps(), current_timestep) matches Some(st) && st.ser_actions is Some),
        r matches Some(m) ==> {
            &&& m.tick == current_timestep
            &&& Some(m.actions@) == lookup_step(buffer.steps(), current_timestep)->0.ser_actions
            &&& tick_hash_contents(m.state_hashes) == state_hashes_for(buffer.steps(), peer.next_local_hash_tick_requested, current_timestep)
            &&& m.next_action_tick_requested == next_action_tick_requested
            &&& m.next_hash_tick_requested == next_hash_tick_requested
        },
{
    match buffer.get_step(current_timestep) {
        None => None,
        Some(step) => match &step.ser_actions {
            None => None,
            Some(actions) => Some(UpdateMessage {
                tick: current_timestep as u64,
                actions: actions.clone(),
                state_hashes: get_state_hashes_for_peer(peer, buffer, current_timestep),
                next_action_tick_requested,
                next_hash_tick_requested,
            }),
        },
    }
}

} // verus!
