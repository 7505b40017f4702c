//! The rollback buffer: for each timestep, the physics state at its start
//! and the actions that nodes asked for during it.

use crate::hashing::{byte_hash, hash_bytes};
use crate::queue::int_of;
use crate::text::{compare_str, lemma_lex_order_flip, lemma_lex_order_transitive, lex_order};
use std::cmp::Ordering;
use vstd::multiset::Multiset;
use vstd::prelude::*;

verus! {

/// What an action asks of a node.  The order of the variants is the order
/// in which a node's actions of one timestep are applied.
#[derive(Debug, Clone, Copy, PartialEq, Eq, PartialOrd, Ord, Hash, Structural)]
pub enum Operation {
    AddNode,
    ConfigureNode,
    RemoveNode,
    MoveNode,
    TeleportNode,
}

/// The position of an operation in the order of operations.
pub open spec fn operation_rank(op: Operation) -> int {
    match op {
        Operation::AddNode => 0,
        Operation::ConfigureNode => 1,
        Operation::RemoveNode => 2,
        Operation::MoveNode => 3,
        Operation::TeleportNode => 4,
    }
}

impl Operation {
    /// The position of this operation in the order of operations.
    pub fn rank(&self) -> (r: u8)
        ensures
            r == operation_rank(*self),
    {
        match self {
            Operation::AddNode => 0,
            Operation::ConfigureNode => 1,
            Operation::RemoveNode => 2,
            Operation::MoveNode => 3,
            Operation::TeleportNode => 4,
        }
    }
}

/// An action stored in the buffer: the identifier and physics handle of its
/// node, the operation, and what the node passed along (the node itself and
/// its data).
#[derive(Debug, Clone)]
pub struct Action<P> {
    pub cuid: String,
    pub handle: Option<(u32, u32)>,
    pub operation: Operation,
    pub payload: P,
    /// Whether rollbacks copy the action forward to predict later timesteps.
    pub replicate: bool,
}

impl<P> Action<P> {
    /// An action of a node on the physics world, not copied forward during
    /// rollbacks.
    pub fn new(cuid: String, handle: Option<(u32, u32)>, operation: Operation, payload: P) -> (a: Self)
        ensures
            a.cuid == cuid,
            a.handle == handle,
            a.operation == operation,
            a.payload == payload,
            !a.replicate,
    {
        Action { cuid, handle, operation, payload, replicate: false }
    }

    /// An action of a node on the physics world, saying whether rollbacks
    /// copy it forward.
    pub fn new_full(
        cuid: String,
        handle: Option<(u32, u32)>,
        operation: Operation,
        payload: P,
        replicate: bool,
    ) -> (a: Self)
        ensures
            a.cuid == cuid,
            a.handle == handle,
            a.operation == operation,
            a.payload == payload,
            a.replicate == replicate,
    {
        Action { cuid, handle, operation, payload, replicate }
    }
}

/// The actions of one node during one timestep.
pub struct ActionGroup<P> {
    pub cuid: String,
    pub actions: Vec<Action<P>>,
}

/// The actions of a timestep, grouped by node, as a sequence of
/// (identifier, actions) pairs in the order the nodes first acted.
pub open spec fn groups_view<P>(groups: Seq<ActionGroup<P>>) -> Seq<(Seq<char>, Seq<Action<P>>)> {
    groups.map_values(|g: ActionGroup<P>| (g.cuid@, g.actions@))
}

/// One timestep of the buffer.
pub struct BufferStep<P> {
    pub timestep_id: usize,
    pub physics_state: Option<Vec<u8>>,
    pub physics_hash: Option<u64>,
    pub actions: Vec<ActionGroup<P>>,
    /// The timestep's actions as sent to peers, when they could be encoded.
    pub ser_actions: Option<Vec<u8>>,
    pub actions_hash: Option<u64>,
}

/// A timestep seen as plain values.
pub struct StepView<P> {
    pub timestep_id: usize,
    pub physics_state: Option<Seq<u8>>,
    pub physics_hash: Option<u64>,
    pub actions: Seq<(Seq<char>, Seq<Action<P>>)>,
    pub ser_actions: Option<Seq<u8>>,
    pub actions_hash: Option<u64>,
}

/// The bytes of an optional byte vector.
pub open spec fn bytes_view(o: Option<Vec<u8>>) -> Option<Seq<u8>> {
    match o {
        Some(v) => Some(v@),
        None => None,
    }
}

/// The hash of optional bytes.
pub open spec fn hash_of(o: Option<Seq<u8>>) -> Option<u64> {
    match o {
        Some(b) => Some(byte_hash(b)),
        None => None,
    }
}

impl<P> View for BufferStep<P> {
    type V = StepView<P>;

    open spec fn view(&self) -> StepView<P> {
        StepView {
            timestep_id: self.timestep_id,
            physics_state: bytes_view(self.physics_state),
            physics_hash: self.physics_hash,
            actions: groups_view(self.actions@),
            ser_actions: bytes_view(self.ser_actions),
            actions_hash: self.actions_hash,
        }
    }
}

/// The index of the group of a node, or -1.
pub open spec fn group_index<P>(groups: Seq<(Seq<char>, Seq<Action<P>>)>, cuid: Seq<char>) -> int
    decreases groups.len(),
{
    if groups.len() == 0 {
        -1
    } else if groups[0].0 == cuid {
        0
    } else if group_index(groups.drop_first(), cuid) < 0 {
        -1
    } else {
        group_index(groups.drop_first(), cuid) + 1
    }
}

/// Adds an action to the group of its node, opening the group if needed.
pub open spec fn groups_append<P>(groups: Seq<(Seq<char>, Seq<Action<P>>)>, a: Action<P>) -> Seq<
    (Seq<char>, Seq<Action<P>>),
> {
    let i = group_index(groups, a.cuid@);
    if i < 0 {
        groups.push((a.cuid@, seq![a]))
    } else {
        groups.update(i, (groups[i].0, groups[i].1.push(a)))
    }
}

/// Groups a list of actions by node, in the order the nodes first act.
pub open spec fn group_actions<P>(actions: Seq<Action<P>>) -> Seq<(Seq<char>, Seq<Action<P>>)>
    decreases actions.len(),
{
    if actions.len() == 0 {
        Seq::empty()
    } else {
        groups_append(group_actions(actions.drop_last()), actions.last())
    }
}

/// A timestep as `BufferStep::new` builds it without encoded actions.
pub open spec fn new_step<P>(timestep_id: usize, physics_state: Option<Seq<u8>>, actions: Seq<Action<P>>) -> StepView<P> {
    new_step_encoded(timestep_id, physics_state, actions, None)
}

/// A timestep as `BufferStep::new` builds it from its state, its actions and
/// their encoding, with the hashes of both.
pub open spec fn new_step_encoded<P>(
    timestep_id: usize,
    physics_state: Option<Seq<u8>>,
    actions: Seq<Action<P>>,
    ser_actions: Option<Seq<u8>>,
) -> StepView<P> {
    StepView {
        timestep_id,
        physics_state,
        physics_hash: hash_of(physics_state),
        actions: group_actions(actions),
        ser_actions,
        actions_hash: hash_of(ser_actions),
    }
}

proof fn lemma_group_index_bounds<P>(groups: Seq<(Seq<char>, Seq<Action<P>>)>, cuid: Seq<char>)
    ensures
        -1 <= group_index(groups, cuid) < groups.len(),
        group_index(groups, cuid) >= 0 ==> groups[group_index(groups, cuid)].0 == cuid,
        group_index(groups, cuid) < 0 ==> forall|i: int| 0 <= i < groups.len() ==> (#[trigger] groups[i]).0 != cuid,
    decreases groups.len(),
{
    if groups.len() > 0 && groups[0].0 != cuid {
        lemma_group_index_bounds(groups.drop_first(), cuid);
        if group_index(groups, cuid) < 0 {
            assert forall|i: int| 0 <= i < groups.len() implies (#[trigger] groups[i]).0 != cuid by {
                if i > 0 {
                    assert(groups[i] == groups.drop_first()[i - 1]);
                }
            }
        }
    }
}

/// Finds the group of a node.
fn find_group<P>(groups: &Vec<ActionGroup<P>>, cuid: &str) -> (r: Option<usize>)
    ensures
        r is None <==> group_index(groups_view(groups@), cuid@) < 0,
        r matches Some(i) ==> int_of(i) == group_index(groups_view(groups@), cuid@),
{
    let ghost gv = groups_view(groups@);
    proof {
        lemma_group_index_bounds(gv, cuid@);
    }
    let n = groups.len();
    let mut i: usize = 0;
    while i < n
        invariant
            n == groups@.len(),
            gv == groups_view(groups@),
            i <= n,
            forall|k: int| 0 <= k < i ==> (#[trigger] gv[k]).0 != cuid@,
        decreases n - i,
    {
        if crate::text::str_equal(groups[i].cuid.as_str(), cuid) {
            proof {
                lemma_group_index_first(gv, cuid@, int_of(i));
            }
            return Some(i);
        }
        i = i + 1;
    }
    proof {
        if group_index(gv, cuid@) >= 0 {
            let g = group_index(gv, cuid@);
            assert(gv[g].0 == cuid@);
        }
    }
    None
}

proof fn lemma_group_index_first<P>(groups: Seq<(Seq<char>, Seq<Action<P>>)>, cuid: Seq<char>, i: int)
    requires
        0 <= i < groups.len(),
        groups[i].0 == cuid,
        forall|k: int| 0 <= k < i ==> (#[trigger] groups[k]).0 != cuid,
    ensures
        group_index(groups, cuid) == i,
    decreases i,
{
    if i > 0 {
        let d = groups.drop_first();
        assert forall|k: int| 0 <= k < i - 1 implies (#[trigger] d[k]).0 != cuid by {
            assert(d[k] == groups[k + 1]);
        }
        lemma_group_index_first(d, cuid, i - 1);
    }
}

/// Adds an action to the group of its node, opening the group if needed.
/// Whether a node's actions hold one with the given operation.
fn holds_operation<P>(actions: &Vec<Action<P>>, op: Operation) -> (r: bool)
    ensures
        r == has_operation(actions@, op),
{
    let n = actions.len();
    let mut i: usize = 0;
    while i < n
        invariant
            n == actions@.len(),
            i <= n,
            forall|k: int| 0 <= k < i ==> (#[trigger] actions@[k]).operation != op,
        decreases n - i,
    {
        if actions[i].operation == op {
            return true;
        }
        i = i + 1;
    }
    false
}

/// Adds an action to the group of its node unless the node already asked
/// for the same operation.
fn add_to_group_unique<P>(groups: &mut Vec<ActionGroup<P>>, action: Action<P>)
    ensures
        groups_view(final(groups)@) == groups_add_unique(groups_view(old(groups)@), action),
{
    let ghost gv = groups_view(groups@);
    proof {
        lemma_group_index_bounds(gv, action.cuid@);
        assert(gv.len() == groups@.len());
    }
    match find_group(groups, action.cuid.as_str()) {
        Some(i) => {
            let mut group = groups.remove(i);
            if !holds_operation(&group.actions, action.operation) {
                group.actions.push(action);
            }
            groups.insert(i, group);
            proof {
                assert(groups_view(groups@) =~= groups_add_unique(gv, action));
            }
        },
        None => {
            let cuid = action.cuid.clone();
            let mut actions = Vec::new();
            actions.push(action);
            groups.push(ActionGroup { cuid, actions });
            proof {
                assert(groups_view(groups@) =~= groups_add_unique(gv, action));
            }
        },
    }
}

fn append_to_group<P>(groups: &mut Vec<ActionGroup<P>>, action: Action<P>)
    ensures
        groups_view(final(groups)@) == groups_append(groups_view(old(groups)@), action),
{
    let ghost gv = groups_view(groups@);
    proof {
        lemma_group_index_bounds(gv, action.cuid@);
        assert(gv.len() == groups@.len());
    }
    match find_group(groups, action.cuid.as_str()) {
        Some(i) => {
            let mut group = groups.remove(i);
            group.actions.push(action);
            groups.insert(i, group);
            proof {
                assert(groups_view(groups@) =~= groups_append(gv, action));
            }
        },
        None => {
            let cuid = action.cuid.clone();
            let mut actions = Vec::new();
            actions.push(action);
            groups.push(ActionGroup { cuid, actions });
            proof {
                assert(groups_view(groups@) =~= groups_append(gv, action));
            }
        },
    }
}

impl<P> BufferStep<P> {
    /// A timestep with the given state and actions, grouped by node, and
    /// the encoding of those actions; each with its hash.
    pub fn new(
        timestep_id: usize,
        physics_state: Option<Vec<u8>>,
        actions: Vec<Action<P>>,
        ser_actions: Option<Vec<u8>>,
    ) -> (s: Self)
        ensures
            s@ == new_step_encoded(timestep_id, bytes_view(physics_state), actions@, bytes_view(ser_actions)),
    {
        let physics_hash = match &physics_state {
            Some(state) => Some(hash_bytes(state)),
            None => None,
        };
        let actions_hash = match &ser_actions {
            Some(bytes) => Some(hash_bytes(bytes)),
            None => None,
        };
        let mut groups: Vec<ActionGroup<P>> = Vec::new();
        let mut rest = actions;
        let ghost orig = rest@;
        let ghost mut done: int = 0;
        assert(groups_view(groups@) =~= group_actions(orig.take(0)));
        while rest.len() > 0
            invariant
                0 <= done <= orig.len(),
                groups_view(groups@) == group_actions(orig.take(done)),
                rest@ == orig.skip(done),
            decreases rest.len(),
        {
            let a = rest.remove(0);
            proof {
                assert(orig.take(done + 1).drop_last() =~= orig.take(done));
                assert(orig.take(done + 1).last() == a);
            }
            append_to_group(&mut groups, a);
            proof {
                assert(rest@ =~= orig.skip(done + 1));
                done = done + 1;
            }
        }
        assert(orig.take(done) =~= orig);
        BufferStep { timestep_id, physics_state, physics_hash, actions: groups, ser_actions, actions_hash }
    }
}


/// Whether a node's actions hold one with the given operation.
pub open spec fn has_operation<P>(actions: Seq<Action<P>>, op: Operation) -> bool {
    exists|i: int| 0 <= i < actions.len() && (#[trigger] actions[i]).operation == op
}

/// Adds an action to the group of its node unless the node already asked
/// for the same operation in this timestep.
pub open spec fn groups_add_unique<P>(groups: Seq<(Seq<char>, Seq<Action<P>>)>, a: Action<P>) -> Seq<
    (Seq<char>, Seq<Action<P>>),
> {
    let i = group_index(groups, a.cuid@);
    if i < 0 {
        groups.push((a.cuid@, seq![a]))
    } else if has_operation(groups[i].1, a.operation) {
        groups
    } else {
        groups.update(i, (groups[i].0, groups[i].1.push(a)))
    }
}

/// The actions of a timestep, node after node.
pub open spec fn flatten_groups<P>(groups: Seq<(Seq<char>, Seq<Action<P>>)>) -> Seq<Action<P>>
    decreases groups.len(),
{
    if groups.len() == 0 {
        Seq::empty()
    } else {
        flatten_groups(groups.drop_last()) + groups.last().1
    }
}

/// Whether action `a` is applied before action `b`: by node identifier,
/// then by operation.
pub open spec fn applied_before<P>(a: Action<P>, b: Action<P>) -> bool {
    lex_order(a.cuid@, b.cuid@) == Ordering::Less || (lex_order(a.cuid@, b.cuid@) == Ordering::Equal
        && operation_rank(a.operation) < operation_rank(b.operation))
}

/// Places `x` behind the last action that it is not applied before.
pub open spec fn insert_by_application<P>(s: Seq<Action<P>>, x: Action<P>) -> Seq<Action<P>>
    decreases s.len(),
{
    if s.len() == 0 {
        seq![x]
    } else if applied_before(x, s.last()) {
        insert_by_application(s.drop_last(), x).push(s.last())
    } else {
        s.push(x)
    }
}

/// The actions in the order they are applied (a stable insertion sort by
/// node identifier, then operation).
pub open spec fn application_order<P>(s: Seq<Action<P>>) -> Seq<Action<P>>
    decreases s.len(),
{
    if s.len() == 0 {
        s
    } else {
        insert_by_application(application_order(s.drop_last()), s.last())
    }
}

/// The actions of timestep `t` in the order they are applied; none if the
/// buffer does not hold `t`.
pub open spec fn actions_to_apply<P>(s: Seq<StepView<P>>, t: usize) -> Seq<Action<P>> {
    match lookup_step(s, t) {
        Some(st) => application_order(flatten_groups(st.actions)),
        None => Seq::empty(),
    }
}

/// The actions behind a sequence of references.
pub open spec fn deref_actions<P>(s: Seq<&Action<P>>) -> Seq<Action<P>> {
    s.map_values(|a: &Action<P>| *a)
}

fn is_applied_before<P>(a: &Action<P>, b: &Action<P>) -> (r: bool)
    ensures
        r == applied_before(*a, *b),
{
    match compare_str(a.cuid.as_str(), b.cuid.as_str()) {
        Ordering::Less => true,
        Ordering::Greater => false,
        Ordering::Equal => a.operation.rank() < b.operation.rank(),
    }
}

proof fn lemma_insert_by_application_at<P>(s: Seq<Action<P>>, x: Action<P>, p: int)
    requires
        0 <= p <= s.len(),
        forall|k: int| p <= k < s.len() ==> applied_before(x, #[trigger] s[k]),
        p == 0 || !applied_before(x, s[p - 1]),
    ensures
        insert_by_application(s, x) == s.insert(p, x),
    decreases s.len(),
{
    if s.len() == 0 {
        assert(s.insert(p, x) =~= seq![x]);
    } else if p == s.len() {
        assert(s.insert(p, x) =~= s.push(x));
    } else {
        assert(applied_before(x, s[s.len() - 1]));
        let d = s.drop_last();
        assert forall|k: int| p <= k < d.len() implies applied_before(x, #[trigger] d[k]) by {
            assert(d[k] == s[k]);
        }
        lemma_insert_by_application_at(d, x, p);
        assert(d.insert(p, x).push(s.last()) =~= s.insert(p, x));
    }
}

fn insert_applied<'a, P>(v: &mut Vec<&'a Action<P>>, x: &'a Action<P>)
    ensures
        deref_actions(final(v)@) == insert_by_application(deref_actions(old(v)@), *x),
{
    let ghost d0 = deref_actions(v@);
    let mut p = v.len();
    while p > 0 && is_applied_before(x, v[p - 1])
        invariant
            p <= v.len(),
            v@ == old(v)@,
            d0 == deref_actions(v@),
            forall|k: int| int_of(p) <= k < v.len() ==> applied_before(*x, #[trigger] d0[k]),
        decreases p,
    {
        p = p - 1;
    }
    proof {
        lemma_insert_by_application_at(d0, *x, int_of(p));
    }
    v.insert(p, x);
    assert(deref_actions(v@) =~= d0.insert(int_of(p), *x));
}

/// Timesteps in strictly ascending order.
pub open spec fn timesteps_increasing<P>(s: Seq<StepView<P>>) -> bool {
    forall|i: int, j: int| 0 <= i < j < s.len() ==> (#[trigger] s[i]).timestep_id < (#[trigger] s[j]).timestep_id
}

/// The hashes of a timestep are the hashes of its state and of its
/// encoded actions.
pub open spec fn step_wf<P>(s: StepView<P>) -> bool {
    &&& s.physics_hash == hash_of(s.physics_state)
    &&& s.actions_hash == hash_of(s.ser_actions)
}

/// How many timesteps come before timestep `t`: where `t` stands, or would stand.
pub open spec fn count_before<P>(s: Seq<StepView<P>>, t: usize) -> int
    decreases s.len(),
{
    if s.len() == 0 {
        0
    } else if s.last().timestep_id < t {
        count_before(s.drop_last(), t) + 1
    } else {
        count_before(s.drop_last(), t)
    }
}

/// Whether the buffer holds timestep `t`.
pub open spec fn has_step<P>(s: Seq<StepView<P>>, t: usize) -> bool {
    0 <= count_before(s, t) < s.len() && s[count_before(s, t)].timestep_id == t
}

/// Timestep `t` of the buffer, if it holds it.
pub open spec fn lookup_step<P>(s: Seq<StepView<P>>, t: usize) -> Option<StepView<P>> {
    if has_step(s, t) {
        Some(s[count_before(s, t)])
    } else {
        None
    }
}

/// Records the state at the start of timestep `t`, opening the timestep if needed.
pub open spec fn buffer_set_state<P>(s: Seq<StepView<P>>, t: usize, state: Seq<u8>) -> Seq<StepView<P>> {
    let p = count_before(s, t);
    if has_step(s, t) {
        s.update(p, StepView { physics_state: Some(state), physics_hash: Some(byte_hash(state)), ..s[p] })
    } else {
        s.insert(p, new_step(t, Some(state), Seq::empty()))
    }
}

/// Opens timestep `t` with no state and no actions, unless the buffer holds it.
pub open spec fn buffer_open_step<P>(s: Seq<StepView<P>>, t: usize) -> Seq<StepView<P>> {
    if has_step(s, t) {
        s
    } else {
        s.insert(count_before(s, t), new_step(t, None, Seq::empty()))
    }
}

/// Records the encoding of timestep `t`'s actions, with its hash, if the
/// buffer holds `t`.
pub open spec fn buffer_record_encoding<P>(s: Seq<StepView<P>>, t: usize, bytes: Seq<u8>) -> Seq<StepView<P>> {
    if has_step(s, t) {
        let p = count_before(s, t);
        s.update(p, StepView { ser_actions: Some(bytes), actions_hash: Some(byte_hash(bytes)), ..s[p] })
    } else {
        s
    }
}

/// The buffer with the next timestep opened, and its state recorded if
/// there is one.
pub open spec fn buffer_with_next_step<P>(s: Seq<StepView<P>>, t: usize, state: Option<Seq<u8>>) -> Seq<StepView<P>> {
    match state {
        Some(st) => buffer_set_state(s, t, st),
        None => buffer_open_step(s, t),
    }
}

/// The buffer once the world has stepped to timestep `t` with the resulting
/// state, if any: the timestep opened and its state recorded, then the
/// oldest timesteps dropped beyond `max_len`.
pub open spec fn buffer_after_step<P>(s: Seq<StepView<P>>, t: usize, state: Option<Seq<u8>>, max_len: usize) -> Seq<StepView<P>> {
    buffer_evict(buffer_with_next_step(s, t, state), max_len)
}

/// Drops the oldest timesteps until at most `max_len` remain.
pub open spec fn buffer_evict<P>(s: Seq<StepView<P>>, max_len: usize) -> Seq<StepView<P>> {
    if s.len() > max_len {
        s.skip(s.len() - max_len)
    } else {
        s
    }
}

/// Adds an action at timestep `t` (see `groups_add_unique`), opening the timestep if needed.
pub open spec fn buffer_insert_action<P>(s: Seq<StepView<P>>, t: usize, a: Action<P>) -> Seq<StepView<P>> {
    let p = count_before(s, t);
    if has_step(s, t) {
        s.update(p, StepView { actions: groups_add_unique(s[p].actions, a), ..s[p] })
    } else {
        s.insert(p, new_step(t, None, seq![a]))
    }
}

/// Forgets the physics states of the timesteps after `t`.
pub open spec fn buffer_mark_physics_stale<P>(s: Seq<StepView<P>>, t: usize) -> Seq<StepView<P>> {
    s.map_values(
        |st: StepView<P>|
            if st.timestep_id > t {
                StepView { physics_state: None, physics_hash: None, ..st }
            } else {
                st
            },
    )
}

/// Forgets the actions of the timesteps after `t`, with their encoding.
pub open spec fn buffer_mark_actions_stale<P>(s: Seq<StepView<P>>, t: usize) -> Seq<StepView<P>> {
    s.map_values(
        |st: StepView<P>|
            if st.timestep_id > t {
                StepView { actions: Seq::empty(), ser_actions: None, actions_hash: None, ..st }
            } else {
                st
            },
    )
}

/// The timesteps of a buffer as plain values.
pub open spec fn steps_view<P>(steps: Seq<BufferStep<P>>) -> Seq<StepView<P>> {
    steps.map_values(|s: BufferStep<P>| s@)
}

/// Timesteps ascend, and each hash is the hash of its state.
pub open spec fn steps_wf<P>(s: Seq<StepView<P>>) -> bool {
    &&& timesteps_increasing(s)
    &&& forall|i: int| 0 <= i < s.len() ==> step_wf(#[trigger] s[i])
}

/// Opening a timestep the buffer does not hold, where it belongs, keeps the
/// buffer well formed.
proof fn lemma_insert_step_wf<P>(s: Seq<StepView<P>>, st: StepView<P>)
    requires
        steps_wf(s),
        !has_step(s, st.timestep_id),
        step_wf(st),
    ensures
        steps_wf(s.insert(count_before(s, st.timestep_id), st)),
{
    let t = st.timestep_id;
    lemma_count_before(s, t);
    let p = count_before(s, t);
    let u = s.insert(p, st);
    assert forall|i: int, j: int| 0 <= i < j < u.len() implies (#[trigger] u[i]).timestep_id < (#[trigger] u[j]).timestep_id by {
        if j < p {
            assert(u[i] == s[i] && u[j] == s[j]);
        } else if j == p {
            assert(u[i] == s[i]);
        } else if i < p {
            assert(u[i] == s[i] && u[j] == s[j - 1]);
            assert(s[j - 1].timestep_id >= t);
            assert(s[p].timestep_id != t);
            assert(s[p].timestep_id <= s[j - 1].timestep_id || p == j - 1);
        } else if i == p {
            assert(u[j] == s[j - 1]);
            assert(s[p].timestep_id != t);
            assert(s[p].timestep_id <= s[j - 1].timestep_id || p == j - 1);
        } else {
            assert(u[i] == s[i - 1] && u[j] == s[j - 1]);
        }
    }
    assert forall|i: int| 0 <= i < u.len() implies step_wf(#[trigger] u[i]) by {
        if i < p {
            assert(u[i] == s[i]);
        } else if i > p {
            assert(u[i] == s[i - 1]);
        }
    }
}

/// Replacing a timestep by a well-formed one with the same id keeps the
/// buffer well formed.
proof fn lemma_update_step_wf<P>(s: Seq<StepView<P>>, p: int, st: StepView<P>)
    requires
        steps_wf(s),
        0 <= p < s.len(),
        st.timestep_id == s[p].timestep_id,
        step_wf(st),
    ensures
        steps_wf(s.update(p, st)),
{
    let u = s.update(p, st);
    assert forall|i: int, j: int| 0 <= i < j < u.len() implies (#[trigger] u[i]).timestep_id < (#[trigger] u[j]).timestep_id by {
        assert(u[i].timestep_id == s[i].timestep_id);
        assert(u[j].timestep_id == s[j].timestep_id);
    }
    assert forall|i: int| 0 <= i < u.len() implies step_wf(#[trigger] u[i]) by {
        if i != p {
            assert(u[i] == s[i]);
        }
    }
}

/// Well-formed timesteps with the ids of a well-formed buffer, in the same
/// order, form a well-formed buffer.
proof fn lemma_same_ids_wf<P>(a: Seq<StepView<P>>, b: Seq<StepView<P>>)
    requires
        steps_wf(a),
        a.len() == b.len(),
        forall|i: int| 0 <= i < a.len() ==> (#[trigger] b[i]).timestep_id == a[i].timestep_id,
        forall|i: int| 0 <= i < b.len() ==> step_wf(#[trigger] b[i]),
    ensures
        steps_wf(b),
{
    assert forall|i: int, j: int| 0 <= i < j < b.len() implies (#[trigger] b[i]).timestep_id < (#[trigger] b[j]).timestep_id by {
        assert(b[i].timestep_id == a[i].timestep_id);
        assert(b[j].timestep_id == a[j].timestep_id);
    }
}

proof fn lemma_count_before<P>(s: Seq<StepView<P>>, t: usize)
    requires
        timesteps_increasing(s),
    ensures
        0 <= count_before(s, t) <= s.len(),
        forall|k: int| 0 <= k < count_before(s, t) ==> (#[trigger] s[k]).timestep_id < t,
        forall|k: int| count_before(s, t) <= k < s.len() ==> (#[trigger] s[k]).timestep_id >= t,
    decreases s.len(),
{
    if s.len() > 0 {
        let d = s.drop_last();
        assert forall|i: int, j: int| 0 <= i < j < d.len() implies (#[trigger] d[i]).timestep_id < (#[trigger] d[j]).timestep_id by {
            assert(d[i] == s[i]);
            assert(d[j] == s[j]);
        }
        lemma_count_before(d, t);
        assert forall|k: int| 0 <= k < count_before(s, t) implies (#[trigger] s[k]).timestep_id < t by {
            if k < d.len() {
                assert(s[k] == d[k]);
                if count_before(s, t) == count_before(d, t) + 1 {
                    if k >= count_before(d, t) {
                        assert(s[k].timestep_id < s[s.len() - 1].timestep_id || k == s.len() - 1);
                    }
                }
            }
        }
        assert forall|k: int| count_before(s, t) <= k < s.len() implies (#[trigger] s[k]).timestep_id >= t by {
            if k < d.len() {
                assert(s[k] == d[k]);
            }
        }
    }
}

proof fn lemma_count_before_at<P>(s: Seq<StepView<P>>, t: usize, p: int)
    requires
        timesteps_increasing(s),
        0 <= p <= s.len(),
        forall|k: int| 0 <= k < p ==> (#[trigger] s[k]).timestep_id < t,
        p == s.len() || s[p].timestep_id >= t,
    ensures
        count_before(s, t) == p,
{
    lemma_count_before(s, t);
    let c = count_before(s, t);
    if c < p {
        assert(s[c].timestep_id < t);
    } else if c > p {
        assert(s[p].timestep_id < t);
    }
}

/// Finds where timestep `t` stands, or would stand, in a buffer.
fn position_of<P>(steps: &Vec<BufferStep<P>>, t: usize) -> (p: usize)
    requires
        timesteps_increasing(steps_view(steps@)),
    ensures
        int_of(p) == count_before(steps_view(steps@), t),
        p <= steps@.len(),
{
    let ghost sv = steps_view(steps@);
    let n = steps.len();
    let mut p: usize = 0;
    while p < n && steps[p].timestep_id < t
        invariant
            n == steps@.len(),
            sv == steps_view(steps@),
            p <= n,
            forall|k: int| 0 <= k < p ==> (#[trigger] sv[k]).timestep_id < t,
        decreases n - p,
    {
        assert(sv[p as int] == steps@[p as int]@);
        p = p + 1;
    }
    proof {
        if p < n {
            assert(sv[p as int] == steps@[p as int]@);
        }
        lemma_count_before_at(sv, t, int_of(p));
    }
    p
}

/// Why a corrective rollback was refused.
#[derive(Debug, Clone, Copy, PartialEq, Eq, Structural)]
pub enum RollbackError {
    /// The target timestep is not before the current one.
    NotInPast,
    /// The target lies further back than the buffer reaches.
    BeyondBuffer,
    /// The target timestep has no recorded physics state.
    MissingState,
}

/// How to roll the world back: restore `physics_state` as the state of
/// timestep `timestep_id`, then step the world `steps_to_resim` times.
#[derive(Debug, Clone)]
pub struct RollbackPlan {
    pub timestep_id: usize,
    pub physics_state: Vec<u8>,
    pub steps_to_resim: usize,
}

/// The buffer of timesteps for rollback: timesteps in ascending order, at
/// most `max_len` of them once the world has stepped.
pub struct WorldBuffer<P> {
    pub buffer: Vec<BufferStep<P>>,
    pub max_len: usize,
}

impl<P> WorldBuffer<P> {
    /// The timesteps as plain values.
    pub open spec fn steps(&self) -> Seq<StepView<P>> {
        steps_view(self.buffer@)
    }

    /// Timesteps ascend, and each hash is the hash of its state.
    pub open spec fn wf(&self) -> bool {
        steps_wf(self.steps())
    }

    /// An empty buffer that keeps at most `max_len` timesteps.
    pub fn new(max_len: usize) -> (b: Self)
        ensures
            b.wf(),
            b.steps() == Seq::<StepView<P>>::empty(),
            b.max_len == max_len,
    {
        let b = WorldBuffer { buffer: Vec::new(), max_len };
        assert(b.steps() =~= Seq::<StepView<P>>::empty());
        b
    }

    /// An empty buffer that keeps at most 1000 timesteps.
    pub fn default() -> (b: Self)
        ensures
            b.wf(),
            b.steps() == Seq::<StepView<P>>::empty(),
            b.max_len == 1000,
    {
        Self::new(1000)
    }

    /// The timestep `timestep_id`, if the buffer holds it.
    pub fn get_step(&self, timestep_id: usize) -> (r: Option<&BufferStep<P>>)
        requires
            self.wf(),
        ensures
            r is Some <==> has_step(self.steps(), timestep_id),
            r matches Some(st) ==> Some(st@) == lookup_step(self.steps(), timestep_id),
    {
        let p = position_of(&self.buffer, timestep_id);
        if p < self.buffer.len() && self.buffer[p].timestep_id == timestep_id {
            assert(self.steps()[p as int] == self.buffer@[p as int]@);
            Some(&self.buffer[p])
        } else {
            proof {
                if p < self.buffer.len() {
                    assert(self.steps()[p as int] == self.buffer@[p as int]@);
                }
            }
            None
        }
    }

    /// The timestep `timestep_id` for changing in place, if the buffer holds
    /// it.  The buffer then holds whatever the caller leaves in that step; a
    /// caller that keeps the step's id and hashes keeps the buffer well formed.
    pub fn get_step_mut(&mut self, timestep_id: usize) -> (r: Option<&mut BufferStep<P>>)
        requires
            old(self).wf(),
        ensures
            r is Some <==> has_step(old(self).steps(), timestep_id),
            r is None ==> *final(self) == *old(self),
            r matches Some(st) ==> {
                &&& Some(st@) == lookup_step(old(self).steps(), timestep_id)
                &&& final(self).max_len == old(self).max_len
                &&& final(self).steps() == old(self).steps().update(count_before(old(self).steps(), timestep_id), (*final(st))@)
            },
    {
        let p = position_of(&self.buffer, timestep_id);
        if p < self.buffer.len() && self.buffer[p].timestep_id == timestep_id {
            assert(self.steps()[p as int] == self.buffer@[p as int]@);
            Some(&mut self.buffer[p])
        } else {
            proof {
                if p < self.buffer.len() {
                    assert(self.steps()[p as int] == self.buffer@[p as int]@);
                }
            }
            None
        }
    }

    /// Records the state at the start of timestep `timestep_id`, opening the
    /// timestep if the buffer does not hold it.
    fn set_step_state(&mut self, timestep_id: usize, state: Vec<u8>)
        requires
            old(self).wf(),
        ensures
            final(self).wf(),
            final(self).steps() == buffer_set_state(old(self).steps(), timestep_id, state@),
            final(self).max_len == old(self).max_len,
    {
        let ghost s0 = self.steps();
        proof {
            lemma_count_before(s0, timestep_id);
        }
        let p = position_of(&self.buffer, timestep_id);
        if p < self.buffer.len() && self.buffer[p].timestep_id == timestep_id {
            assert(s0[p as int] == self.buffer@[p as int]@);
            let mut step = self.buffer.remove(p);
            let h = hash_bytes(&state);
            step.physics_state = Some(state);
            step.physics_hash = Some(h);
            self.buffer.insert(p, step);
            proof {
                assert(self.steps() =~= buffer_set_state(s0, timestep_id, state@));
                lemma_update_step_wf(s0, p as int, self.steps()[p as int]);
            }
        } else {
            proof {
                if p < self.buffer.len() {
                    assert(s0[p as int] == self.buffer@[p as int]@);
                }
            }
            let step = BufferStep::new(timestep_id, Some(state), Vec::new(), None);
            self.buffer.insert(p, step);
            proof {
                assert(Seq::<(Seq<char>, Seq<Action<P>>)>::empty() =~= group_actions(Seq::<Action<P>>::empty()));
                assert(self.steps() =~= buffer_set_state(s0, timestep_id, state@));
                lemma_insert_step_wf(s0, new_step(timestep_id, Some(state@), Seq::empty()));
            }
        }
    }

    /// Opens timestep `timestep_id` with no state and no actions, unless the
    /// buffer holds it already.
    fn open_step(&mut self, timestep_id: usize)
        requires
            old(self).wf(),
        ensures
            final(self).wf(),
            final(self).steps() == buffer_open_step(old(self).steps(), timestep_id),
            final(self).max_len == old(self).max_len,
    {
        let ghost s0 = self.steps();
        let p = position_of(&self.buffer, timestep_id);
        if p < self.buffer.len() && self.buffer[p].timestep_id == timestep_id {
            assert(s0[p as int] == self.buffer@[p as int]@);
        } else {
            proof {
                if p < self.buffer.len() {
                    assert(s0[p as int] == self.buffer@[p as int]@);
                }
            }
            let step = BufferStep::new(timestep_id, None, Vec::new(), None);
            self.buffer.insert(p, step);
            proof {
                assert(Seq::<(Seq<char>, Seq<Action<P>>)>::empty() =~= group_actions(Seq::<Action<P>>::empty()));
                assert(self.steps() =~= buffer_open_step(s0, timestep_id));
                lemma_insert_step_wf(s0, new_step(timestep_id, None, Seq::empty()));
            }
        }
    }

    /// Removes the oldest timestep; an empty buffer stays empty.
    fn remove_oldest(&mut self)
        requires
            old(self).wf(),
        ensures
            final(self).wf(),
            final(self).steps() == (if old(self).steps().len() == 0 {
                old(self).steps()
            } else {
                old(self).steps().drop_first()
            }),
            final(self).max_len == old(self).max_len,
    {
        if self.buffer.len() == 0 {
            self.buffer.clear();
            assert(self.steps() =~= old(self).steps());
        } else {
            self.buffer.remove(0);
            proof {
                let s0 = old(self).steps();
                assert(self.steps() =~= s0.drop_first());
                assert forall|i: int, j: int| 0 <= i < j < self.steps().len() implies
                    (#[trigger] self.steps()[i]).timestep_id < (#[trigger] self.steps()[j]).timestep_id by {
                    assert(self.steps()[i] == s0[i + 1]);
                    assert(self.steps()[j] == s0[j + 1]);
                }
                assert forall|i: int| 0 <= i < self.steps().len() implies step_wf(#[trigger] self.steps()[i]) by {
                    assert(self.steps()[i] == s0[i + 1]);
                }
            }
        }
    }

    /// Called whenever the world steps: opens the next timestep (with no
    /// actions) and records the resulting state, if any, as the state at its
    /// start; then drops the oldest timesteps while more than `max_len`
    /// remain.
    pub fn on_world_stepped(&mut self, next_timestep_id: usize, resulting_state: Option<Vec<u8>>)
        requires
            old(self).wf(),
        ensures
            final(self).wf(),
            final(self).max_len == old(self).max_len,
            final(self).steps().len() <= final(self).max_len,
            final(self).steps() == buffer_after_step(
                old(self).steps(),
                next_timestep_id,
                bytes_view(resulting_state),
                old(self).max_len,
            ),
    {
        match resulting_state {
            Some(st) => self.set_step_state(next_timestep_id, st),
            None => self.open_step(next_timestep_id),
        }
        let ghost mid = self.steps();
        while self.buffer.len() > self.max_len
            invariant
                self.wf(),
                self.max_len == old(self).max_len,
                mid.len() > self.max_len ==> self.steps() == mid.skip(mid.len() - self.steps().len()),
                mid.len() > self.max_len ==> self.steps().len() >= self.max_len,
                self.steps().len() <= mid.len(),
                mid.len() <= self.max_len ==> self.steps() == mid,
            decreases self.buffer.len(),
        {
            let ghost before = self.steps();
            assert(before.len() == self.buffer@.len());
            self.remove_oldest();
            proof {
                assert(self.steps().len() == before.len() - 1);
                if mid.len() > self.max_len {
                    assert(mid.skip(mid.len() - before.len()).drop_first() =~= mid.skip(mid.len() - self.steps().len()));
                }
            }
        }
        proof {
            if mid.len() > self.max_len {
                assert(self.steps().len() == self.max_len);
            }
        }
    }

    /// Forgets the physics states of every timestep after `timestep_id`.
    pub fn mark_physics_stale_after(&mut self, timestep_id: usize)
        requires
            old(self).wf(),
        ensures
            final(self).wf(),
            final(self).max_len == old(self).max_len,
            final(self).steps() == buffer_mark_physics_stale(old(self).steps(), timestep_id),
    {
        let ghost s0 = self.steps();
        let n = self.buffer.len();
        let mut i: usize = 0;
        while i < n
            invariant
                n == self.buffer@.len(),
                n == s0.len(),
                i <= n,
                self.max_len == old(self).max_len,
                forall|k: int| 0 <= k < i ==> #[trigger] self.steps()[k] == buffer_mark_physics_stale(s0, timestep_id)[k],
                forall|k: int| i <= k < n ==> #[trigger] self.steps()[k] == s0[k],
            decreases n - i,
        {
            let ghost before = self.buffer@;
            let ghost sb = self.steps();
            assert(sb[i as int] == s0[i as int]);
            assert(sb[i as int] == before[i as int]@);
            if self.buffer[i].timestep_id > timestep_id {
                let mut step = self.buffer.remove(i);
                step.physics_state = None;
                step.physics_hash = None;
                self.buffer.insert(i, step);
            }
            proof {
                assert(self.buffer@ =~= before.update(i as int, self.buffer@[i as int]));
                assert forall|k: int| 0 <= k < i + 1 implies #[trigger] self.steps()[k] == buffer_mark_physics_stale(s0, timestep_id)[k] by {
                    assert(self.steps()[k] == self.buffer@[k]@);
                    assert(sb[k] == before[k]@);
                    if k < i {
                        assert(self.buffer@[k] == before[k]);
                        assert(sb[k] == buffer_mark_physics_stale(s0, timestep_id)[k]);
                    }
                }
                assert forall|k: int| i + 1 <= k < n implies #[trigger] self.steps()[k] == s0[k] by {
                    assert(self.steps()[k] == self.buffer@[k]@);
                    assert(sb[k] == before[k]@);
                    assert(sb[k] == s0[k]);
                    assert(self.buffer@[k] == before[k]);
                }
            }
            i = i + 1;
        }
        proof {
            assert(self.steps() =~= buffer_mark_physics_stale(s0, timestep_id));
            assert forall|a: int| 0 <= a < s0.len() implies (#[trigger] self.steps()[a]).timestep_id == s0[a].timestep_id
                && step_wf(self.steps()[a]) by {
                assert(step_wf(s0[a]));
            }
            lemma_same_ids_wf(s0, self.steps());
        }
    }

    /// Forgets the actions of every timestep after `timestep_id`, with their
    /// encoding.
    pub fn mark_actions_stale_after(&mut self, timestep_id: usize)
        requires
            old(self).wf(),
        ensures
            final(self).wf(),
            final(self).max_len == old(self).max_len,
            final(self).steps() == buffer_mark_actions_stale(old(self).steps(), timestep_id),
    {
        let ghost s0 = self.steps();
        let n = self.buffer.len();
        let mut i: usize = 0;
        while i < n
            invariant
                n == self.buffer@.len(),
                n == s0.len(),
                i <= n,
                self.max_len == old(self).max_len,
                forall|k: int| 0 <= k < i ==> #[trigger] self.steps()[k] == buffer_mark_actions_stale(s0, timestep_id)[k],
                forall|k: int| i <= k < n ==> #[trigger] self.steps()[k] == s0[k],
            decreases n - i,
        {
            let ghost before = self.buffer@;
            let ghost sb = self.steps();
            assert(sb[i as int] == s0[i as int]);
            assert(sb[i as int] == before[i as int]@);
            if self.buffer[i].timestep_id > timestep_id {
                let mut step = self.buffer.remove(i);
                step.actions = Vec::new();
                step.ser_actions = None;
                step.actions_hash = None;
                self.buffer.insert(i, step);
                proof {
                    assert(groups_view(self.buffer@[i as int].actions@) =~= Seq::<(Seq<char>, Seq<Action<P>>)>::empty());
                }
            }
            proof {
                assert(self.buffer@ =~= before.update(i as int, self.buffer@[i as int]));
                assert forall|k: int| 0 <= k < i + 1 implies #[trigger] self.steps()[k] == buffer_mark_actions_stale(s0, timestep_id)[k] by {
                    assert(self.steps()[k] == self.buffer@[k]@);
                    assert(sb[k] == before[k]@);
                    if k < i {
                        assert(self.buffer@[k] == before[k]);
                        assert(sb[k] == buffer_mark_actions_stale(s0, timestep_id)[k]);
                    }
                }
                assert forall|k: int| i + 1 <= k < n implies #[trigger] self.steps()[k] == s0[k] by {
                    assert(self.steps()[k] == self.buffer@[k]@);
                    assert(sb[k] == before[k]@);
                    assert(sb[k] == s0[k]);
                    assert(self.buffer@[k] == before[k]);
                }
            }
            i = i + 1;
        }
        proof {
            assert(self.steps() =~= buffer_mark_actions_stale(s0, timestep_id));
            assert forall|a: int| 0 <= a < s0.len() implies (#[trigger] self.steps()[a]).timestep_id == s0[a].timestep_id
                && step_wf(self.steps()[a]) by {
                assert(step_wf(s0[a]));
            }
            lemma_same_ids_wf(s0, self.steps());
        }
    }

    /// Adds an action at timestep `timestep_id`, opening the timestep if
    /// needed.  A node gets at most one action of each operation per timestep:
    /// a second one is not added.
    pub fn insert_action(&mut self, action: Action<P>, timestep_id: usize)
        requires
            old(self).wf(),
        ensures
            final(self).wf(),
            final(self).max_len == old(self).max_len,
            final(self).steps() == buffer_insert_action(old(self).steps(), timestep_id, action),
    {
        let ghost s0 = self.steps();
        proof {
            lemma_count_before(s0, timestep_id);
        }
        let p = position_of(&self.buffer, timestep_id);
        if p < self.buffer.len() && self.buffer[p].timestep_id == timestep_id {
            assert(s0[p as int] == self.buffer@[p as int]@);
            let mut step = self.buffer.remove(p);
            add_to_group_unique(&mut step.actions, action);
            self.buffer.insert(p, step);
            proof {
                assert(self.steps() =~= buffer_insert_action(s0, timestep_id, action));
                lemma_update_step_wf(s0, p as int, self.steps()[p as int]);
            }
        } else {
            proof {
                if p < self.buffer.len() {
                    assert(s0[p as int] == self.buffer@[p as int]@);
                }
            }
            let mut actions = Vec::new();
            actions.push(action);
            let step = BufferStep::new(timestep_id, None, actions, None);
            self.buffer.insert(p, step);
            proof {
                assert(actions@ =~= seq![action]);
                assert(self.steps() =~= buffer_insert_action(s0, timestep_id, action));
                lemma_insert_step_wf(s0, new_step(timestep_id, None, seq![action]));
            }
        }
    }

    /// Records the encoding of timestep `timestep_id`'s actions as sent to
    /// peers, with its hash; a timestep the buffer does not hold is left out.
    pub fn record_serialized_actions(&mut self, timestep_id: usize, ser_actions: Vec<u8>)
        requires
            old(self).wf(),
        ensures
            final(self).wf(),
            final(self).max_len == old(self).max_len,
            final(self).steps() == buffer_record_encoding(old(self).steps(), timestep_id, ser_actions@),
    {
        let ghost s0 = self.steps();
        let p = position_of(&self.buffer, timestep_id);
        if p < self.buffer.len() && self.buffer[p].timestep_id == timestep_id {
            assert(s0[p as int] == self.buffer@[p as int]@);
            let mut step = self.buffer.remove(p);
            let h = hash_bytes(&ser_actions);
            step.ser_actions = Some(ser_actions);
            step.actions_hash = Some(h);
            self.buffer.insert(p, step);
            proof {
                assert(self.steps() =~= buffer_record_encoding(s0, timestep_id, ser_actions@));
                lemma_update_step_wf(s0, p as int, self.steps()[p as int]);
            }
        } else {
            proof {
                if p < self.buffer.len() {
                    assert(s0[p as int] == self.buffer@[p as int]@);
                }
            }
        }
    }

    /// Rolls back to the target timestep: refuses targets that are not in the
    /// past, lie beyond the buffer or have no recorded state; otherwise forgets
    /// the physics states after the target and says what to restore and how
    /// many steps to simulate again.
    pub fn corrective_rollback(&mut self, current_timestep: usize, target: BufferStep<P>) -> (r: Result<
        RollbackPlan,
        RollbackError,
    >)
        requires
            old(self).wf(),
        ensures
            final(self).wf(),
            final(self).max_len == old(self).max_len,
            target.timestep_id >= current_timestep ==> r == Err::<RollbackPlan, RollbackError>(RollbackError::NotInPast),
            target.timestep_id < current_timestep && current_timestep - target.timestep_id > old(self).max_len
                ==> r == Err::<RollbackPlan, RollbackError>(RollbackError::BeyondBuffer),
            target.timestep_id < current_timestep && current_timestep - target.timestep_id <= old(self).max_len
                && target.physics_state is None ==> r == Err::<RollbackPlan, RollbackError>(RollbackError::MissingState),
            target.timestep_id < current_timestep && current_timestep - target.timestep_id <= old(self).max_len
                && target.physics_state is Some ==> r is Ok,
            r is Err ==> final(self).steps() == old(self).steps(),
            r matches Ok(plan) ==> {
                &&& target.timestep_id < current_timestep
                &&& current_timestep - target.timestep_id <= old(self).max_len
                &&& bytes_view(target.physics_state) == Some(plan.physics_state@)
                &&& plan.timestep_id == target.timestep_id
                &&& plan.steps_to_resim == current_timestep - target.timestep_id
                &&& final(self).steps() == buffer_mark_physics_stale(old(self).steps(), target.timestep_id)
            },
    {
        if target.timestep_id >= current_timestep {
            return Err(RollbackError::NotInPast);
        }
        let steps_to_resim = current_timestep - target.timestep_id;
        if steps_to_resim > self.max_len {
            return Err(RollbackError::BeyondBuffer);
        }
        match target.physics_state {
            Some(physics_state) => {
                self.mark_physics_stale_after(target.timestep_id);
                Ok(RollbackPlan { timestep_id: target.timestep_id, physics_state, steps_to_resim })
            },
            None => Err(RollbackError::MissingState),
        }
    }

    /// The actions of timestep `timestep_id` in the order in which they are
    /// applied: by node identifier, then by operation.
    pub fn actions_in_order(&self, timestep_id: usize) -> (r: Vec<&Action<P>>)
        requires
            self.wf(),
        ensures
            deref_actions(r@) == actions_to_apply(self.steps(), timestep_id),
            forall|i: int, j: int| 0 <= i < j < r@.len() ==> {
                let x = *(#[trigger] r@[i]);
                let y = *(#[trigger] r@[j]);
                &&& lex_order(y.cuid@, x.cuid@) != Ordering::Less
                &&& (y.cuid@ == x.cuid@ ==> !(x.operation == Operation::TeleportNode && y.operation != Operation::TeleportNode))
                &&& (y.cuid@ == x.cuid@ && y.operation == Operation::AddNode ==> x.operation == Operation::AddNode)
                &&& (y.cuid@ == x.cuid@ && x.operation == Operation::MoveNode ==> y.operation == Operation::MoveNode
                    || y.operation == Operation::TeleportNode)
            },
    {
        let mut r: Vec<&Action<P>> = Vec::new();
        match self.get_step(timestep_id) {
            None => {
                assert(deref_actions(r@) =~= Seq::<Action<P>>::empty());
            },
            Some(step) => {
                let groups = &step.actions;
                let ghost gv = groups_view(groups@);
                let ng = groups.len();
                let mut gi: usize = 0;
                assert(deref_actions(r@) =~= application_order(flatten_groups(gv.take(0))));
                while gi < ng
                    invariant
                        ng == groups@.len(),
                        gv == groups_view(groups@),
                        gi <= ng,
                        deref_actions(r@) == application_order(flatten_groups(gv.take(int_of(gi)))),
                    decreases ng - gi,
                {
                    let group = &groups[gi];
                    let na = group.actions.len();
                    let mut ai: usize = 0;
                    let ghost prefix = flatten_groups(gv.take(int_of(gi)));
                    assert(gv[int_of(gi)].1 == group.actions@);
                    assert(prefix + group.actions@.take(0) =~= prefix);
                    while ai < na
                        invariant
                            na == group.actions@.len(),
                            ai <= na,
                            deref_actions(r@) == application_order(prefix + group.actions@.take(int_of(ai))),
                        decreases na - ai,
                    {
                        let a = &group.actions[ai];
                        proof {
                            let t = prefix + group.actions@.take(int_of(ai) + 1);
                            assert(t.drop_last() =~= prefix + group.actions@.take(int_of(ai)));
                            assert(t.last() == *a);
                        }
                        insert_applied(&mut r, a);
                        ai = ai + 1;
                    }
                    proof {
                        assert(gv.take(int_of(gi) + 1).drop_last() =~= gv.take(int_of(gi)));
                        assert(gv.take(int_of(gi) + 1).last() == gv[int_of(gi)]);
                        assert(group.actions@.take(int_of(na)) =~= group.actions@);
                    }
                    gi = gi + 1;
                }
                assert(gv.take(int_of(ng)) =~= gv);
            },
        }
        proof {
            let seq_r = deref_actions(r@);
            lemma_application_order_by_node_then_operation(match lookup_step(self.steps(), timestep_id) {
                Some(st) => flatten_groups(st.actions),
                None => Seq::<Action<P>>::empty(),
            });
            assert forall|i: int, j: int| 0 <= i < j < r@.len() implies {
                let x = *(#[trigger] r@[i]);
                let y = *(#[trigger] r@[j]);
                &&& lex_order(y.cuid@, x.cuid@) != Ordering::Less
                &&& (y.cuid@ == x.cuid@ ==> !(x.operation == Operation::TeleportNode && y.operation != Operation::TeleportNode))
                &&& (y.cuid@ == x.cuid@ && y.operation == Operation::AddNode ==> x.operation == Operation::AddNode)
                &&& (y.cuid@ == x.cuid@ && x.operation == Operation::MoveNode ==> y.operation == Operation::MoveNode
                    || y.operation == Operation::TeleportNode)
            } by {
                assert(seq_r[i] == *r@[i] && seq_r[j] == *r@[j]);
            }
        }
        r
    }

    /// The physics state at the start of timestep `timestep_id`, if recorded.
    pub fn get_physics_state(&self, timestep_id: usize) -> (r: Option<Vec<u8>>)
        requires
            self.wf(),
        ensures
            bytes_view(r) == (match lookup_step(self.steps(), timestep_id) {
                Some(st) => st.physics_state,
                None => None,
            }),
    {
        match self.get_step(timestep_id) {
            Some(step) => match &step.physics_state {
                Some(state) => Some(state.clone()),
                None => None,
            },
            None => None,
        }
    }

    /// The hash of the physics state at the start of timestep `timestep_id`, if recorded.
    pub fn get_state_hash(&self, timestep_id: usize) -> (r: Option<u64>)
        requires
            self.wf(),
        ensures
            r == (match lookup_step(self.steps(), timestep_id) {
                Some(st) => st.physics_hash,
                None => None,
            }),
    {
        match self.get_step(timestep_id) {
            Some(step) => step.physics_hash,
            None => None,
        }
    }
}


proof fn lemma_count_before_same_ids<P>(a: Seq<StepView<P>>, b: Seq<StepView<P>>, t: usize)
    requires
        a.len() == b.len(),
        forall|i: int| 0 <= i < a.len() ==> (#[trigger] a[i]).timestep_id == b[i].timestep_id,
    ensures
        count_before(a, t) == count_before(b, t),
    decreases a.len(),
{
    if a.len() > 0 {
        let da = a.drop_last();
        let db = b.drop_last();
        assert forall|i: int| 0 <= i < da.len() implies (#[trigger] da[i]).timestep_id == db[i].timestep_id by {
            assert(da[i] == a[i]);
            assert(db[i] == b[i]);
        }
        lemma_count_before_same_ids(da, db, t);
        assert(a.last().timestep_id == b.last().timestep_id);
    }
}

/// No action is applied after one that it should precede.
pub open spec fn applied_in_order<P>(s: Seq<Action<P>>) -> bool {
    forall|i: int, j: int| 0 <= i < j < s.len() ==> !applied_before(#[trigger] s[j], #[trigger] s[i])
}

/// "Applied before" is a strict order whose complement is transitive.
proof fn lemma_applied_before_order<P>(x: Action<P>, y: Action<P>, z: Action<P>)
    ensures
        applied_before(x, y) ==> !applied_before(y, x),
        !applied_before(y, x) && !applied_before(z, y) ==> !applied_before(z, x),
{
    lemma_lex_order_flip(x.cuid@, y.cuid@);
    lemma_lex_order_flip(y.cuid@, z.cuid@);
    lemma_lex_order_flip(x.cuid@, z.cuid@);
    lemma_lex_order_transitive(x.cuid@, y.cuid@, z.cuid@);
    lemma_lex_order_transitive(z.cuid@, y.cuid@, x.cuid@);
}

proof fn lemma_insert_by_application_sorted<P>(s: Seq<Action<P>>, x: Action<P>)
    requires
        applied_in_order(s),
    ensures
        applied_in_order(insert_by_application(s, x)),
        insert_by_application(s, x).to_multiset() == s.to_multiset().insert(x),
    decreases s.len(),
{
    broadcast use vstd::seq_lib::group_to_multiset_ensures;
    if s.len() == 0 {
        assert(seq![x] =~= s.push(x));
    } else if applied_before(x, s.last()) {
        let d = s.drop_last();
        assert forall|i: int, j: int| 0 <= i < j < d.len() implies !applied_before(#[trigger] d[j], #[trigger] d[i]) by {
            assert(d[i] == s[i] && d[j] == s[j]);
        }
        lemma_insert_by_application_sorted(d, x);
        let r = insert_by_application(d, x);
        let t = r.push(s.last());
        assert(d.push(s.last()) =~= s);
        assert forall|i: int, j: int| 0 <= i < j < t.len() implies !applied_before(#[trigger] t[j], #[trigger] t[i]) by {
            if j < r.len() {
                assert(t[i] == r[i] && t[j] == r[j]);
            } else {
                assert(t[j] == s.last());
                assert(t[i] == r[i]);
                assert(r.contains(r[i]));
                vstd::seq_lib::to_multiset_contains(r, r[i]);
                vstd::seq_lib::to_multiset_contains(d, r[i]);
                if r[i] == x {
                    lemma_applied_before_order(x, s.last(), x);
                } else {
                    assert(d.contains(r[i]));
                    let k = choose|k: int| 0 <= k < d.len() && d[k] == r[i];
                    assert(s[k] == d[k]);
                    assert(!applied_before(s[s.len() - 1], s[k]));
                }
            }
        }
        assert(t.to_multiset() =~= s.to_multiset().insert(x));
    } else {
        let t = s.push(x);
        assert forall|i: int, j: int| 0 <= i < j < t.len() implies !applied_before(#[trigger] t[j], #[trigger] t[i]) by {
            if j < s.len() {
                assert(t[i] == s[i] && t[j] == s[j]);
            } else {
                assert(t[i] == s[i]);
                if i < s.len() - 1 {
                    assert(!applied_before(s[s.len() - 1], s[i]));
                }
                lemma_applied_before_order(s[i], s.last(), x);
            }
        }
    }
}

/// Actions of different nodes are applied in the lexicographic order of the
/// node identifiers; the actions of one node are applied in the order
/// AddNode, ConfigureNode, RemoveNode, MoveNode, TeleportNode (a teleport
/// lands after a move of the same timestep), and two actions of one node
/// with the same operation are applied in neither order.
pub proof fn lemma_applied_before_is_node_then_operation<P>(a: Action<P>, b: Action<P>)
    ensures
        a.cuid@ != b.cuid@ ==> (applied_before(a, b) <==> lex_order(a.cuid@, b.cuid@) == Ordering::Less),
        a.cuid@ == b.cuid@ ==> (applied_before(a, b) <==> (
            (a.operation == Operation::AddNode && b.operation != Operation::AddNode)
            || (a.operation == Operation::ConfigureNode && (b.operation == Operation::RemoveNode
                || b.operation == Operation::MoveNode || b.operation == Operation::TeleportNode))
            || (a.operation == Operation::RemoveNode && (b.operation == Operation::MoveNode
                || b.operation == Operation::TeleportNode))
            || (a.operation == Operation::MoveNode && b.operation == Operation::TeleportNode)
        )),
{
    lemma_lex_order_flip(a.cuid@, b.cuid@);
}

/// In the order a timestep's actions are applied, no action of a node comes
/// after an action of the same node with a later operation (so a node's
/// move comes before its teleport), and no node's action comes after that
/// of a node whose identifier is lexicographically greater.
pub proof fn lemma_application_order_by_node_then_operation<P>(s: Seq<Action<P>>)
    ensures
        forall|i: int, j: int| 0 <= i < j < application_order(s).len() ==> {
            let x = #[trigger] application_order(s)[i];
            let y = #[trigger] application_order(s)[j];
            &&& lex_order(y.cuid@, x.cuid@) != Ordering::Less
            &&& (y.cuid@ == x.cuid@ ==> !(x.operation == Operation::TeleportNode && y.operation != Operation::TeleportNode))
            &&& (y.cuid@ == x.cuid@ && y.operation == Operation::AddNode ==> x.operation == Operation::AddNode)
            &&& (y.cuid@ == x.cuid@ && x.operation == Operation::MoveNode ==> y.operation == Operation::MoveNode
                || y.operation == Operation::TeleportNode)
        },
{
    lemma_application_order_sorted(s);
    let r = application_order(s);
    assert forall|i: int, j: int| 0 <= i < j < r.len() implies {
        let x = #[trigger] r[i];
        let y = #[trigger] r[j];
        &&& lex_order(y.cuid@, x.cuid@) != Ordering::Less
        &&& (y.cuid@ == x.cuid@ ==> !(x.operation == Operation::TeleportNode && y.operation != Operation::TeleportNode))
        &&& (y.cuid@ == x.cuid@ && y.operation == Operation::AddNode ==> x.operation == Operation::AddNode)
        &&& (y.cuid@ == x.cuid@ && x.operation == Operation::MoveNode ==> y.operation == Operation::MoveNode
            || y.operation == Operation::TeleportNode)
    } by {
        assert(!applied_before(r[j], r[i]));
        lemma_applied_before_is_node_then_operation(r[j], r[i]);
        lemma_lex_order_flip(r[j].cuid@, r[i].cuid@);
    }
}

/// The actions of a timestep are applied in order of node identifier, then
/// operation; each action as often as it was recorded.
pub proof fn lemma_application_order_sorted<P>(s: Seq<Action<P>>)
    ensures
        applied_in_order(application_order(s)),
        application_order(s).to_multiset() == s.to_multiset(),
    decreases s.len(),
{
    broadcast use vstd::seq_lib::group_to_multiset_ensures;
    if s.len() > 0 {
        lemma_application_order_sorted(s.drop_last());
        lemma_insert_by_application_sorted(application_order(s.drop_last()), s.last());
        assert(s.drop_last().push(s.last()) =~= s);
    }
}

/// Each action occurs once, and no two actions share both their node and
/// their operation.
pub open spec fn one_per_node_and_operation<P>(m: Multiset<Action<P>>) -> bool {
    forall|x: Action<P>, y: Action<P>|
        #![trigger m.count(x), m.count(y)]
        m.count(x) > 0 && m.count(y) > 0 && x.cuid@ == y.cuid@ && x.operation == y.operation
            ==> x == y && m.count(x) == 1
}

proof fn lemma_applied_before_total<P>(x: Action<P>, y: Action<P>)
    ensures
        (x.cuid@ == y.cuid@ && x.operation == y.operation) || applied_before(x, y) || applied_before(y, x),
{
    lemma_lex_order_flip(x.cuid@, y.cuid@);
}

proof fn lemma_sorted_unique<P>(r1: Seq<Action<P>>, r2: Seq<Action<P>>)
    requires
        applied_in_order(r1),
        applied_in_order(r2),
        r1.to_multiset() == r2.to_multiset(),
        one_per_node_and_operation(r1.to_multiset()),
    ensures
        r1 == r2,
    decreases r1.len(),
{
    broadcast use vstd::seq_lib::group_to_multiset_ensures;
    broadcast use vstd::multiset::group_multiset_axioms;
    assert(r1.len() == r1.to_multiset().len());
    assert(r2.len() == r2.to_multiset().len());
    if r1.len() == 0 {
        assert(r1 =~= r2);
    } else {
        let n = r1.len() - 1;
        let x1 = r1.last();
        let x2 = r2.last();
        let m = r1.to_multiset();
        assert(r1.contains(x1) && r2.contains(x2));
        vstd::seq_lib::to_multiset_contains(r1, x1);
        vstd::seq_lib::to_multiset_contains(r2, x1);
        vstd::seq_lib::to_multiset_contains(r1, x2);
        vstd::seq_lib::to_multiset_contains(r2, x2);
        assert(m.count(x1) > 0 && m.count(x2) > 0);
        if x1 != x2 {
            lemma_applied_before_total(x1, x2);
            let k = choose|k: int| 0 <= k < r2.len() && r2[k] == x1;
            let l = choose|l: int| 0 <= l < r1.len() && r1[l] == x2;
            assert(k != n);
            assert(l != n);
            assert(!applied_before(r2[n], r2[k]));
            assert(!applied_before(r1[n], r1[l]));
            assert(false);
        }
        let d1 = r1.drop_last();
        let d2 = r2.drop_last();
        assert(d1.push(x1) =~= r1);
        assert(d2.push(x2) =~= r2);
        assert(d1.to_multiset() =~= m.remove(x1));
        assert(d2.to_multiset() =~= m.remove(x1));
        assert forall|i: int, j: int| 0 <= i < j < d1.len() implies !applied_before(#[trigger] d1[j], #[trigger] d1[i]) by {
            assert(d1[i] == r1[i] && d1[j] == r1[j]);
        }
        assert forall|i: int, j: int| 0 <= i < j < d2.len() implies !applied_before(#[trigger] d2[j], #[trigger] d2[i]) by {
            assert(d2[i] == r2[i] && d2[j] == r2[j]);
        }
        let dm = d1.to_multiset();
        assert forall|x: Action<P>, y: Action<P>|
            #![trigger dm.count(x), dm.count(y)]
            dm.count(x) > 0 && dm.count(y) > 0 && x.cuid@ == y.cuid@ && x.operation == y.operation
                implies x == y && dm.count(x) == 1 by {
            assert(m.count(x) > 0 && m.count(y) > 0);
        }
        lemma_sorted_unique(d1, d2);
    }
}

/// When a timestep holds at most one action per node and operation, the
/// order in which its actions are applied depends only on which actions
/// there are, not on the order they were recorded in or how they were
/// grouped by node.
pub proof fn lemma_application_order_independent<P>(s1: Seq<Action<P>>, s2: Seq<Action<P>>)
    requires
        s1.to_multiset() == s2.to_multiset(),
        one_per_node_and_operation(s1.to_multiset()),
    ensures
        application_order(s1) == application_order(s2),
{
    lemma_application_order_sorted(s1);
    lemma_application_order_sorted(s2);
    lemma_sorted_unique(application_order(s1), application_order(s2));
}

/// Eviction drops the oldest timesteps: what remains is a suffix of the
/// buffer, and every dropped timestep comes before every kept one.
pub proof fn lemma_evict_drops_oldest<P>(s: Seq<StepView<P>>, max_len: usize)
    requires
        timesteps_increasing(s),
    ensures
        buffer_evict(s, max_len) == s.skip(s.len() - buffer_evict(s, max_len).len()),
        forall|i: int, j: int| 0 <= i < s.len() - buffer_evict(s, max_len).len() <= j < s.len()
            ==> (#[trigger] s[i]).timestep_id < (#[trigger] s[j]).timestep_id,
{
    if s.len() <= max_len {
        assert(s.skip(0) =~= s);
    }
}

/// Recording a state keeps the actions of the timestep it is recorded for;
/// a timestep opened for it has none.
pub proof fn lemma_set_state_keeps_actions<P>(s: Seq<StepView<P>>, t: usize, state: Seq<u8>)
    requires
        timesteps_increasing(s),
    ensures
        lookup_step(buffer_set_state(s, t, state), t) matches Some(st) && st.physics_state == Some(state)
            && st.actions == (match lookup_step(s, t) {
                Some(old_st) => old_st.actions,
                None => Seq::empty(),
            }),
{
    lemma_count_before(s, t);
    let p = count_before(s, t);
    let u = buffer_set_state(s, t, state);
    if has_step(s, t) {
        assert forall|i: int| 0 <= i < u.len() implies (#[trigger] u[i]).timestep_id == s[i].timestep_id by {}
        lemma_count_before_same_ids(u, s, t);
    } else {
        assert forall|k: int| 0 <= k < p implies (#[trigger] u[k]).timestep_id < t by {
            assert(u[k] == s[k]);
        }
        assert(u[p].timestep_id == t);
        lemma_count_before_at(u, t, p);
        assert(group_actions(Seq::<Action<P>>::empty()) =~= Seq::<(Seq<char>, Seq<Action<P>>)>::empty());
    }
}

/// Timestep `k` of an ascending buffer sits where its id is.
proof fn lemma_lookup_step_at<P>(s: Seq<StepView<P>>, k: usize, i: int)
    requires
        timesteps_increasing(s),
        0 <= i < s.len(),
        s[i].timestep_id == k,
    ensures
        lookup_step(s, k) == Some(s[i]),
{
    assert forall|j: int| 0 <= j < i implies (#[trigger] s[j]).timestep_id < k by {}
    lemma_count_before_at(s, k, i);
}

/// Timestep `k` of a buffer is found exactly when some step has that id.
proof fn lemma_lookup_step_found<P>(s: Seq<StepView<P>>, k: usize)
    requires
        timesteps_increasing(s),
    ensures
        lookup_step(s, k) is Some <==> exists|i: int| 0 <= i < s.len() && (#[trigger] s[i]).timestep_id == k,
{
    lemma_count_before(s, k);
    if exists|i: int| 0 <= i < s.len() && (#[trigger] s[i]).timestep_id == k {
        let i = choose|i: int| 0 <= i < s.len() && (#[trigger] s[i]).timestep_id == k;
        lemma_lookup_step_at(s, k, i);
    }
}

/// A write through `get_step_mut` that keeps the step's id and hashes keeps
/// the buffer well formed, and reading the timestep then gives what was
/// written.
pub proof fn lemma_step_write_read_back<P>(s: Seq<StepView<P>>, t: usize, st: StepView<P>)
    requires
        steps_wf(s),
        has_step(s, t),
        st.timestep_id == t,
        step_wf(st),
    ensures
        steps_wf(s.update(count_before(s, t), st)),
        lookup_step(s.update(count_before(s, t), st), t) == Some(st),
{
    lemma_count_before(s, t);
    let p = count_before(s, t);
    lemma_update_step_wf(s, p, st);
    lemma_lookup_step_at(s.update(p, st), t, p);
}

/// Opening the next timestep, and recording its state if there is one,
/// keeps the buffer well formed, holds that timestep (with the state, and
/// with the actions it had or none), and leaves every other timestep as it was.
proof fn lemma_next_step<P>(s: Seq<StepView<P>>, t: usize, state: Option<Seq<u8>>)
    requires
        steps_wf(s),
    ensures
        steps_wf(buffer_with_next_step(s, t, state)),
        lookup_step(buffer_with_next_step(s, t, state), t) matches Some(x) && x.actions == (match lookup_step(s, t) {
            Some(o) => o.actions,
            None => Seq::empty(),
        }) && (state is Some ==> x.physics_state == state) && (state is None ==> x == (match lookup_step(s, t) {
            Some(o) => o,
            None => new_step(t, None, Seq::empty()),
        })),
        forall|k: usize| k != t ==> #[trigger] lookup_step(buffer_with_next_step(s, t, state), k) == lookup_step(s, k),
{
    lemma_count_before(s, t);
    let p = count_before(s, t);
    let m = buffer_with_next_step(s, t, state);
    assert(group_actions(Seq::<Action<P>>::empty()) =~= Seq::<(Seq<char>, Seq<Action<P>>)>::empty());
    if has_step(s, t) {
        let x = m[p];
        match state {
            Some(st) => {
                lemma_update_step_wf(s, p, x);
            },
            None => {
                assert(m == s);
            },
        }
        assert(m =~= s.update(p, x));
        lemma_lookup_step_at(m, t, p);
        lemma_lookup_step_at(s, t, p);
        assert forall|k: usize| k != t implies #[trigger] lookup_step(m, k) == lookup_step(s, k) by {
            lemma_lookup_step_found(s, k);
            lemma_lookup_step_found(m, k);
            if exists|i: int| 0 <= i < s.len() && (#[trigger] s[i]).timestep_id == k {
                let i = choose|i: int| 0 <= i < s.len() && (#[trigger] s[i]).timestep_id == k;
                assert(i != p);
                assert(m[i] == s[i]);
                lemma_lookup_step_at(s, k, i);
                lemma_lookup_step_at(m, k, i);
            } else {
                assert forall|i: int| 0 <= i < m.len() implies (#[trigger] m[i]).timestep_id != k by {
                    if i != p {
                        assert(m[i] == s[i]);
                    }
                }
            }
        }
    } else {
        let x = new_step(t, state, Seq::empty());
        assert(m == s.insert(p, x));
        lemma_insert_step_wf(s, x);
        lemma_lookup_step_at(m, t, p);
        lemma_lookup_step_found(s, t);
        assert forall|k: usize| k != t implies #[trigger] lookup_step(m, k) == lookup_step(s, k) by {
            lemma_lookup_step_found(s, k);
            lemma_lookup_step_found(m, k);
            if exists|i: int| 0 <= i < s.len() && (#[trigger] s[i]).timestep_id == k {
                let i = choose|i: int| 0 <= i < s.len() && (#[trigger] s[i]).timestep_id == k;
                lemma_lookup_step_at(s, k, i);
                if i < p {
                    assert(m[i] == s[i]);
                    lemma_lookup_step_at(m, k, i);
                } else {
                    assert(m[i + 1] == s[i]);
                    lemma_lookup_step_at(m, k, i + 1);
                }
            } else {
                assert forall|i: int| 0 <= i < m.len() implies (#[trigger] m[i]).timestep_id != k by {
                    if i < p {
                        assert(m[i] == s[i]);
                    } else if i > p {
                        assert(m[i] == s[i - 1]);
                    }
                }
            }
        }
    }
}

/// The world steps to timestep `t`: the buffer stays well formed and holds
/// at most `max_len` timesteps; the next timestep is opened, with the state
/// recorded and its actions kept; every other timestep is as it was; and the
/// timesteps dropped are exactly the oldest ones, every kept timestep
/// reading as before the drop.
pub proof fn lemma_world_stepped<P>(s: Seq<StepView<P>>, t: usize, state: Option<Seq<u8>>, max_len: usize)
    requires
        steps_wf(s),
    ensures
        ({
            let m = buffer_with_next_step(s, t, state);
            let r = buffer_after_step(s, t, state, max_len);
            &&& steps_wf(r)
            &&& r.len() <= max_len
            &&& r == m.skip(m.len() - r.len())
            &&& forall|i: int, j: int| 0 <= i < m.len() - r.len() <= j < m.len()
                ==> (#[trigger] m[i]).timestep_id < (#[trigger] m[j]).timestep_id
            &&& forall|k: usize| #[trigger] lookup_step(r, k) is Some ==> lookup_step(r, k) == lookup_step(m, k)
            &&& forall|k: usize| k != t ==> #[trigger] lookup_step(m, k) == lookup_step(s, k)
            &&& lookup_step(m, t) matches Some(x) && x.actions == (match lookup_step(s, t) {
                Some(o) => o.actions,
                None => Seq::empty(),
            }) && (state is Some ==> x.physics_state == state)
        }),
{
    lemma_next_step(s, t, state);
    let m = buffer_with_next_step(s, t, state);
    let r = buffer_after_step(s, t, state, max_len);
    lemma_evict_drops_oldest(m, max_len);
    let d = m.len() - r.len();
    assert forall|i: int| 0 <= i < r.len() implies #[trigger] r[i] == m[i + d] by {}
    assert forall|i: int, j: int| 0 <= i < j < r.len() implies (#[trigger] r[i]).timestep_id < (#[trigger] r[j]).timestep_id by {
        assert(r[i] == m[i + d] && r[j] == m[j + d]);
    }
    assert forall|i: int| 0 <= i < r.len() implies step_wf(#[trigger] r[i]) by {
        assert(r[i] == m[i + d]);
    }
    assert forall|k: usize| #[trigger] lookup_step(r, k) is Some implies lookup_step(r, k) == lookup_step(m, k) by {
        lemma_lookup_step_found(r, k);
        let i = choose|i: int| 0 <= i < r.len() && (#[trigger] r[i]).timestep_id == k;
        assert(r[i] == m[i + d]);
        lemma_lookup_step_at(r, k, i);
        lemma_lookup_step_at(m, k, i + d);
    }
}

/// Once the world has stepped, the buffer holds at most `max_len` timesteps.
pub proof fn lemma_evicted_within_limit<P>(s: Seq<StepView<P>>, max_len: usize)
    ensures
        buffer_evict(s, max_len).len() <= max_len,
{
}

/// The world steps forward: the state recorded for the newest timestep is
/// what reading that timestep gives back, with its hash.
pub proof fn lemma_state_read_after_step<P>(s: Seq<StepView<P>>, t: usize, state: Seq<u8>, max_len: usize)
    requires
        timesteps_increasing(s),
        forall|i: int| 0 <= i < s.len() ==> (#[trigger] s[i]).timestep_id < t,
        max_len >= 1,
    ensures
        lookup_step(buffer_evict(buffer_set_state(s, t, state), max_len), t) matches Some(st)
            && st.physics_state == Some(state) && st.physics_hash == Some(byte_hash(state)),
{
    lemma_count_before_at(s, t, s.len() as int);
    let u = buffer_set_state(s, t, state);
    assert(u == s.insert(s.len() as int, new_step(t, Some(state), Seq::empty())));
    assert(u =~= s.push(new_step(t, Some(state), Seq::empty())));
    let e = buffer_evict(u, max_len);
    assert(e.len() >= 1);
    assert(e.last() == u.last());
    assert forall|i: int, j: int| 0 <= i < j < e.len() implies (#[trigger] e[i]).timestep_id < (#[trigger] e[j]).timestep_id by {
        let off = u.len() - e.len();
        assert(e[i] == u[i + off]);
        assert(e[j] == u[j + off]);
        if j + off == u.len() - 1 {
            assert(u[i + off] == s[i + off]);
        } else {
            assert(u[i + off] == s[i + off]);
            assert(u[j + off] == s[j + off]);
        }
    }
    assert forall|k: int| 0 <= k < e.len() - 1 implies (#[trigger] e[k]).timestep_id < t by {
        let off = u.len() - e.len();
        assert(e[k] == u[k + off]);
        assert(u[k + off] == s[k + off]);
    }
    lemma_count_before_at(e, t, e.len() - 1);
}

/// After marking the states after timestep `t` stale, every later timestep
/// has no state, and every other timestep is as it was.
pub proof fn lemma_stale_after<P>(s: Seq<StepView<P>>, t: usize, k: usize)
    ensures
        k > t ==> match lookup_step(buffer_mark_physics_stale(s, t), k) {
            Some(st) => st.physics_state is None && st.physics_hash is None,
            None => true,
        },
        k <= t ==> lookup_step(buffer_mark_physics_stale(s, t), k) == lookup_step(s, k),
        lookup_step(buffer_mark_physics_stale(s, t), k) is Some <==> lookup_step(s, k) is Some,
{
    let m = buffer_mark_physics_stale(s, t);
    assert forall|i: int| 0 <= i < m.len() implies (#[trigger] m[i]).timestep_id == s[i].timestep_id by {}
    lemma_count_before_same_ids(m, s, k);
}

proof fn lemma_group_index_after_add<P>(groups: Seq<(Seq<char>, Seq<Action<P>>)>, a: Action<P>)
    ensures
        group_index(groups_add_unique(groups, a), a.cuid@) >= 0,
        has_operation(groups_add_unique(groups, a)[group_index(groups_add_unique(groups, a), a.cuid@)].1, a.operation),
{
    lemma_group_index_bounds(groups, a.cuid@);
    let g = groups_add_unique(groups, a);
    let i = group_index(groups, a.cuid@);
    if i < 0 {
        assert forall|k: int| 0 <= k < groups.len() implies (#[trigger] g[k]).0 != a.cuid@ by {
            assert(g[k] == groups[k]);
        }
        lemma_group_index_first(g, a.cuid@, groups.len() as int);
        assert(g[groups.len() as int].1 == seq![a]);
        assert(g[groups.len() as int].1[0].operation == a.operation);
    } else {
        assert forall|k: int| 0 <= k < i implies (#[trigger] g[k]).0 != a.cuid@ by {
            lemma_group_index_first_below(groups, a.cuid@, k);
            assert(g[k] == groups[k]);
        }
        lemma_group_index_first(g, a.cuid@, i);
        if !has_operation(groups[i].1, a.operation) {
            let l = groups[i].1.push(a);
            assert(l[l.len() - 1].operation == a.operation);
        }
    }
}

proof fn lemma_group_index_first_below<P>(groups: Seq<(Seq<char>, Seq<Action<P>>)>, cuid: Seq<char>, k: int)
    requires
        0 <= k < group_index(groups, cuid),
    ensures
        groups[k].0 != cuid,
    decreases groups.len(),
{
    lemma_group_index_bounds(groups, cuid);
    if groups.len() > 0 && groups[0].0 != cuid {
        if k > 0 {
            assert(group_index(groups.drop_first(), cuid) == group_index(groups, cuid) - 1);
            lemma_group_index_first_below(groups.drop_first(), cuid, k - 1);
            assert(groups[k] == groups.drop_first()[k - 1]);
        }
    }
}

/// Each node has one group, every action sits in its node's group, and no
/// two actions of one node share an operation.
pub open spec fn groups_unique<P>(groups: Seq<(Seq<char>, Seq<Action<P>>)>) -> bool {
    &&& forall|i: int, j: int| 0 <= i < j < groups.len() ==> (#[trigger] groups[i]).0 != (#[trigger] groups[j]).0
    &&& forall|i: int, k: int| 0 <= i < groups.len() && 0 <= k < groups[i].1.len()
        ==> (#[trigger] groups[i].1[k]).cuid@ == groups[i].0
    &&& forall|i: int, k: int, l: int| 0 <= i < groups.len() && 0 <= k < l < groups[i].1.len()
        ==> (#[trigger] groups[i].1[k]).operation != (#[trigger] groups[i].1[l]).operation
}

/// In every timestep, each node keeps at most one action of each operation.
pub open spec fn steps_unique<P>(s: Seq<StepView<P>>) -> bool {
    forall|i: int| 0 <= i < s.len() ==> groups_unique(#[trigger] s[i].actions)
}

proof fn lemma_groups_add_unique_keeps<P>(groups: Seq<(Seq<char>, Seq<Action<P>>)>, a: Action<P>)
    requires
        groups_unique(groups),
    ensures
        groups_unique(groups_add_unique(groups, a)),
{
    lemma_group_index_bounds(groups, a.cuid@);
    let i = group_index(groups, a.cuid@);
    let g = groups_add_unique(groups, a);
    if i < 0 {
        assert forall|x: int, y: int| 0 <= x < y < g.len() implies (#[trigger] g[x]).0 != (#[trigger] g[y]).0 by {
            if y < groups.len() {
                assert(g[x] == groups[x] && g[y] == groups[y]);
            } else {
                assert(g[x] == groups[x]);
            }
        }
        assert forall|x: int, k: int| 0 <= x < g.len() && 0 <= k < g[x].1.len()
            implies (#[trigger] g[x].1[k]).cuid@ == g[x].0 by {
            if x < groups.len() {
                assert(g[x] == groups[x]);
            }
        }
        assert forall|x: int, k: int, l: int| 0 <= x < g.len() && 0 <= k < l < g[x].1.len()
            implies (#[trigger] g[x].1[k]).operation != (#[trigger] g[x].1[l]).operation by {
            if x < groups.len() {
                assert(g[x] == groups[x]);
            }
        }
    } else if !has_operation(groups[i].1, a.operation) {
        let n = groups[i].1.push(a);
        assert forall|x: int, y: int| 0 <= x < y < g.len() implies (#[trigger] g[x]).0 != (#[trigger] g[y]).0 by {
            assert(g[x].0 == groups[x].0 && g[y].0 == groups[y].0);
        }
        assert forall|x: int, k: int| 0 <= x < g.len() && 0 <= k < g[x].1.len()
            implies (#[trigger] g[x].1[k]).cuid@ == g[x].0 by {
            if x != i {
                assert(g[x] == groups[x]);
            } else if k < groups[i].1.len() {
                assert(g[x].1[k] == groups[i].1[k]);
            }
        }
        assert forall|x: int, k: int, l: int| 0 <= x < g.len() && 0 <= k < l < g[x].1.len()
            implies (#[trigger] g[x].1[k]).operation != (#[trigger] g[x].1[l]).operation by {
            if x != i {
                assert(g[x] == groups[x]);
            } else {
                assert(g[x].1 == n);
                assert(n[k] == groups[i].1[k]);
                if l < groups[i].1.len() {
                    assert(n[l] == groups[i].1[l]);
                } else {
                    assert(n[l] == a);
                    if groups[i].1[k].operation == a.operation {
                        assert(has_operation(groups[i].1, a.operation));
                    }
                }
            }
        }
    }
}

/// Adding actions keeps at most one action per node and operation in every
/// timestep: an action whose node already asked for its operation in that
/// timestep is not added.
pub proof fn lemma_insert_action_keeps_unique<P>(s: Seq<StepView<P>>, t: usize, a: Action<P>)
    requires
        timesteps_increasing(s),
        steps_unique(s),
    ensures
        steps_unique(buffer_insert_action(s, t, a)),
{
    lemma_count_before(s, t);
    let u = buffer_insert_action(s, t, a);
    let p = count_before(s, t);
    if has_step(s, t) {
        lemma_groups_add_unique_keeps(s[p].actions, a);
        assert forall|i: int| 0 <= i < u.len() implies groups_unique(#[trigger] u[i].actions) by {
            if i != p {
                assert(u[i] == s[i]);
            }
        }
    } else {
        assert(seq![a].drop_last() =~= Seq::<Action<P>>::empty());
        assert(group_actions(seq![a]) == groups_append(group_actions(Seq::<Action<P>>::empty()), a));
        assert(group_actions(Seq::<Action<P>>::empty()) =~= Seq::<(Seq<char>, Seq<Action<P>>)>::empty());
        lemma_group_index_bounds(Seq::<(Seq<char>, Seq<Action<P>>)>::empty(), a.cuid@);
        let g = new_step(t, None, seq![a]).actions;
        assert(g =~= seq![(a.cuid@, seq![a])]);
        assert forall|i: int| 0 <= i < u.len() implies groups_unique(#[trigger] u[i].actions) by {
            if i < p {
                assert(u[i] == s[i]);
            } else if i > p {
                assert(u[i] == s[i - 1]);
            } else {
                assert(u[i].actions == g);
            }
        }
    }
}

/// Adding the same action twice at one timestep leaves the buffer as adding
/// it once: a node keeps at most one action of each operation per timestep.
pub proof fn lemma_insert_action_idempotent<P>(s: Seq<StepView<P>>, t: usize, a: Action<P>)
    requires
        timesteps_increasing(s),
    ensures
        buffer_insert_action(buffer_insert_action(s, t, a), t, a) == buffer_insert_action(s, t, a),
{
    lemma_count_before(s, t);
    let u = buffer_insert_action(s, t, a);
    let p = count_before(s, t);
    if has_step(s, t) {
        assert forall|i: int| 0 <= i < u.len() implies (#[trigger] u[i]).timestep_id == s[i].timestep_id by {}
        lemma_count_before_same_ids(u, s, t);
        lemma_group_index_after_add(s[p].actions, a);
        assert(u[p].actions == groups_add_unique(s[p].actions, a));
        assert(groups_add_unique(u[p].actions, a) == u[p].actions);
        assert(buffer_insert_action(u, t, a) =~= u);
    } else {
        assert(u == s.insert(p, new_step(t, None, seq![a])));
        assert forall|k: int| 0 <= k < p implies (#[trigger] u[k]).timestep_id < t by {
            assert(u[k] == s[k]);
        }
        assert forall|i: int, j: int| 0 <= i < j < u.len() implies (#[trigger] u[i]).timestep_id < (#[trigger] u[j]).timestep_id by {
            if i < p && j > p {
                assert(u[j] == s[j - 1]);
                assert(s[i].timestep_id < s[j - 1].timestep_id || i == j - 1);
            } else if i > p {
                assert(u[i] == s[i - 1]);
                assert(u[j] == s[j - 1]);
            } else if i == p {
                assert(u[j] == s[j - 1]);
            } else {
                assert(u[i] == s[i]);
                if j < p {
                    assert(u[j] == s[j]);
                }
            }
        }
        lemma_count_before_at(u, t, p);
        assert(seq![a].drop_last() =~= Seq::<Action<P>>::empty());
        assert(group_actions(seq![a]) == groups_append(group_actions(Seq::<Action<P>>::empty()), a));
        assert(group_actions(Seq::<Action<P>>::empty()) =~= Seq::<(Seq<char>, Seq<Action<P>>)>::empty());
        let g = u[p].actions;
        assert(g =~= seq![(a.cuid@, seq![a])]);
        lemma_group_index_first(g, a.cuid@, 0);
        assert(g[0].1[0].operation == a.operation);
        assert(has_operation(g[0].1, a.operation));
        assert(groups_add_unique(g, a) == g);
        assert(buffer_insert_action(u, t, a) =~= u);
    }
}

} // verus!
