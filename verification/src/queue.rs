//! Actions waiting to be applied to the physics world, and the queue that
//! orders them so that every run applies them in the same order.

use crate::objects::{object_kind_of_actionable, object_kind_text, ObjectKind};
use crate::text::{compare_str, lex_order, lemma_lex_order_flip};
use std::cmp::Ordering;
use vstd::prelude::*;

verus! {

/// What an action applies to the physics world.  Engine objects that an
/// action carries (bodies, colliders, shapes, positions) travel beside it as
/// the action's payload; this enum holds the parts that decide its order and
/// its target.
#[derive(Debug, Clone)]
pub enum Actionable {
    RigidBody,
    RigidBodyHandle([u32; 2]),
    Collider,
    /// A collider to be inserted under the rigid body with these raw parts.
    ColliderWithParent([u32; 2]),
    ColliderIDWithParentID(String, Option<String>),
    ColliderShape,
    ColliderHandle([u32; 2]),
    NodePos(ObjectKind),
    Character,
    MoveCharacter { cuid2: String },
    Step,
    Invalid,
}

/// Whether two actionables count as equal: same variant, and for node
/// positions the same rigid-body, collider or invalid kind.
pub open spec fn actionable_same(a: Actionable, b: Actionable) -> bool {
    match (a, b) {
        (Actionable::RigidBody, Actionable::RigidBody) => true,
        (Actionable::RigidBodyHandle(_), Actionable::RigidBodyHandle(_)) => true,
        (Actionable::Collider, Actionable::Collider) => true,
        (Actionable::ColliderWithParent(_), Actionable::ColliderWithParent(_)) => true,
        (Actionable::ColliderIDWithParentID(_, _), Actionable::ColliderIDWithParentID(_, _)) => true,
        (Actionable::ColliderHandle(_), Actionable::ColliderHandle(_)) => true,
        (Actionable::NodePos(ObjectKind::RigidBody), Actionable::NodePos(ObjectKind::RigidBody)) => true,
        (Actionable::NodePos(ObjectKind::Collider), Actionable::NodePos(ObjectKind::Collider)) => true,
        (Actionable::NodePos(ObjectKind::Invalid), Actionable::NodePos(ObjectKind::Invalid)) => true,
        _ => false,
    }
}

/// Bodies and characters that get registered.
pub open spec fn is_body_insert(a: Actionable) -> bool {
    a is RigidBody || a is Character
}

/// Colliders that get registered or parented.
pub open spec fn is_collider_insert(a: Actionable) -> bool {
    a is Collider || a is ColliderWithParent || a is ColliderIDWithParentID
}

/// Position updates of bodies and characters.
pub open spec fn is_body_position(a: Actionable) -> bool {
    a matches Actionable::NodePos(k) && (k == ObjectKind::RigidBody || k == ObjectKind::Character)
}

/// Position updates of colliders.
pub open spec fn is_collider_position(a: Actionable) -> bool {
    a matches Actionable::NodePos(k) && k == ObjectKind::Collider
}

/// The order of actionables: bodies and characters before colliders, body
/// positions before collider positions, simulation steps after everything;
/// all other pairs compare equal.
pub open spec fn actionable_order(a: Actionable, b: Actionable) -> Ordering {
    if is_body_insert(a) && is_collider_insert(b) {
        Ordering::Less
    } else if is_collider_insert(a) && is_body_insert(b) {
        Ordering::Greater
    } else if is_body_position(a) && is_collider_position(b) {
        Ordering::Less
    } else if is_collider_position(a) && is_body_position(b) {
        Ordering::Greater
    } else if a is Step {
        Ordering::Greater
    } else if b is Step {
        Ordering::Less
    } else {
        Ordering::Equal
    }
}

/// The partial order of actionables: defined where the order is strict.
pub open spec fn actionable_partial_order(a: Actionable, b: Actionable) -> Option<Ordering> {
    if actionable_order(a, b) == Ordering::Equal {
        None
    } else {
        Some(actionable_order(a, b))
    }
}

impl Actionable {
    fn body_insert(&self) -> (r: bool)
        ensures
            r == is_body_insert(*self),
    {
        match self {
            Actionable::RigidBody | Actionable::Character => true,
            _ => false,
        }
    }

    fn collider_insert(&self) -> (r: bool)
        ensures
            r == is_collider_insert(*self),
    {
        match self {
            Actionable::Collider
            | Actionable::ColliderWithParent(_)
            | Actionable::ColliderIDWithParentID(_, _) => true,
            _ => false,
        }
    }

    fn body_position(&self) -> (r: bool)
        ensures
            r == is_body_position(*self),
    {
        match self {
            Actionable::NodePos(ObjectKind::RigidBody) | Actionable::NodePos(ObjectKind::Character) => true,
            _ => false,
        }
    }

    fn collider_position(&self) -> (r: bool)
        ensures
            r == is_collider_position(*self),
    {
        match self {
            Actionable::NodePos(ObjectKind::Collider) => true,
            _ => false,
        }
    }

    fn is_step(&self) -> (r: bool)
        ensures
            r == (*self is Step),
    {
        match self {
            Actionable::Step => true,
            _ => false,
        }
    }

    /// Compares two actionables by the order in which they must be applied.
    pub fn cmp(&self, other: &Actionable) -> (r: Ordering)
        ensures
            r == actionable_order(*self, *other),
    {
        if self.body_insert() && other.collider_insert() {
            Ordering::Less
        } else if self.collider_insert() && other.body_insert() {
            Ordering::Greater
        } else if self.body_position() && other.collider_position() {
            Ordering::Less
        } else if self.collider_position() && other.body_position() {
            Ordering::Greater
        } else if self.is_step() {
            Ordering::Greater
        } else if other.is_step() {
            Ordering::Less
        } else {
            Ordering::Equal
        }
    }
}

/// The actionable that removes (or names) the object of a handle.
pub open spec fn actionable_of_handle(h: crate::objects::Handle) -> Actionable {
    match h.kind {
        crate::objects::HandleKind::RigidBodyHandle => Actionable::RigidBodyHandle(h.raw),
        crate::objects::HandleKind::ColliderHandle => Actionable::ColliderHandle(h.raw),
        crate::objects::HandleKind::Invalid => Actionable::Invalid,
    }
}

impl From<crate::objects::Handle> for Actionable {
    fn from(handle: crate::objects::Handle) -> (r: Self) {
        match handle.kind {
            crate::objects::HandleKind::RigidBodyHandle => Actionable::RigidBodyHandle(handle.raw),
            crate::objects::HandleKind::ColliderHandle => Actionable::ColliderHandle(handle.raw),
            crate::objects::HandleKind::Invalid => Actionable::Invalid,
        }
    }
}

impl vstd::std_specs::convert::FromSpecImpl<crate::objects::Handle> for Actionable {
    open spec fn obeys_from_spec() -> bool {
        true
    }

    open spec fn from_spec(handle: crate::objects::Handle) -> Self {
        actionable_of_handle(handle)
    }
}

/// A valid handle survives the trip through an actionable and back; the
/// invalid kind comes back as the invalid handle.
pub proof fn lemma_handle_actionable_round_trip(h: crate::objects::Handle)
    ensures
        h.kind != crate::objects::HandleKind::Invalid ==> crate::objects::handle_of_actionable(actionable_of_handle(h)) == h,
        h.kind == crate::objects::HandleKind::Invalid ==> crate::objects::handle_of_actionable(actionable_of_handle(h))
            == crate::objects::invalid_handle(),
{
}

/// The name under which an actionable is shown.
pub open spec fn actionable_text(a: Actionable) -> Seq<char> {
    match a {
        Actionable::RigidBody => "Actionable::RigidBody"@,
        Actionable::RigidBodyHandle(_) => "Actionable::RigidBodyHandle"@,
        Actionable::Collider => "Actionable::Collider"@,
        Actionable::ColliderWithParent(_) => "Actionable::ColliderWithParent"@,
        Actionable::ColliderIDWithParentID(_, _) => "Actionable::ColliderIDWithParentID"@,
        Actionable::ColliderShape => "Actionable::ColliderShape"@,
        Actionable::ColliderHandle(_) => "Actionable::ColliderHandle"@,
        Actionable::NodePos(_) => "Actionable::NodePos"@,
        Actionable::Character => "Actionable::Character"@,
        Actionable::MoveCharacter { .. } => "Actionable::MoveCharacter"@,
        Actionable::Step => "Actionable::Step"@,
        Actionable::Invalid => "Actionable::Invalid"@,
    }
}

impl Actionable {
    /// The name under which this actionable is shown.
    pub fn to_string(&self) -> (s: String)
        ensures
            s@ == actionable_text(*self),
    {
        match self {
            Actionable::RigidBody => String::from_str("Actionable::RigidBody"),
            Actionable::RigidBodyHandle(_) => String::from_str("Actionable::RigidBodyHandle"),
            Actionable::Collider => String::from_str("Actionable::Collider"),
            Actionable::ColliderWithParent(_) => String::from_str("Actionable::ColliderWithParent"),
            Actionable::ColliderIDWithParentID(_, _) => String::from_str("Actionable::ColliderIDWithParentID"),
            Actionable::ColliderShape => String::from_str("Actionable::ColliderShape"),
            Actionable::ColliderHandle(_) => String::from_str("Actionable::ColliderHandle"),
            Actionable::NodePos(_) => String::from_str("Actionable::NodePos"),
            Actionable::Character => String::from_str("Actionable::Character"),
            Actionable::MoveCharacter { .. } => String::from_str("Actionable::MoveCharacter"),
            Actionable::Step => String::from_str("Actionable::Step"),
            Actionable::Invalid => String::from_str("Actionable::Invalid"),
        }
    }
}

impl PartialEq for Actionable {
    fn eq(&self, other: &Self) -> (r: bool) {
        match (self, other) {
            (Actionable::RigidBody, Actionable::RigidBody) => true,
            (Actionable::RigidBodyHandle(_), Actionable::RigidBodyHandle(_)) => true,
            (Actionable::Collider, Actionable::Collider) => true,
            (Actionable::ColliderWithParent(_), Actionable::ColliderWithParent(_)) => true,
            (Actionable::ColliderIDWithParentID(_, _), Actionable::ColliderIDWithParentID(_, _)) => true,
            (Actionable::ColliderHandle(_), Actionable::ColliderHandle(_)) => true,
            (Actionable::NodePos(ObjectKind::RigidBody), Actionable::NodePos(ObjectKind::RigidBody)) => true,
            (Actionable::NodePos(ObjectKind::Collider), Actionable::NodePos(ObjectKind::Collider)) => true,
            (Actionable::NodePos(ObjectKind::Invalid), Actionable::NodePos(ObjectKind::Invalid)) => true,
            _ => false,
        }
    }
}

impl vstd::std_specs::cmp::PartialEqSpecImpl for Actionable {
    open spec fn obeys_eq_spec() -> bool {
        true
    }

    open spec fn eq_spec(&self, other: &Self) -> bool {
        actionable_same(*self, *other)
    }
}

impl PartialOrd for Actionable {
    fn partial_cmp(&self, other: &Self) -> (r: Option<Ordering>) {
        match self.cmp(other) {
            Ordering::Less => Some(Ordering::Less),
            Ordering::Greater => Some(Ordering::Greater),
            Ordering::Equal => None,
        }
    }
}

impl vstd::std_specs::cmp::PartialOrdSpecImpl for Actionable {
    open spec fn obeys_partial_cmp_spec() -> bool {
        true
    }

    open spec fn partial_cmp_spec(&self, other: &Self) -> Option<Ordering> {
        actionable_partial_order(*self, *other)
    }
}


/// An action waiting in a queue: the node it comes from (its identifier and
/// instance id), what it does, and the engine objects it carries.
#[derive(Debug)]
pub struct Action<P> {
    pub inner_cuid: String,
    pub inner_iid: i64,
    pub data: Actionable,
    pub payload: Option<P>,
}

/// The order of actions: by what they do, then by the identifier of their node.
pub open spec fn action_order<P>(a: Action<P>, b: Action<P>) -> Ordering {
    if actionable_order(a.data, b.data) == Ordering::Equal {
        lex_order(a.inner_cuid@, b.inner_cuid@)
    } else {
        actionable_order(a.data, b.data)
    }
}

/// The simulation step action.
pub open spec fn is_step_action<P>(a: Action<P>) -> bool {
    &&& a.inner_cuid@ == "step"@
    &&& a.inner_iid == 0
    &&& a.data is Step
    &&& a.payload is None
}

impl<P> Action<P> {
    /// The action that advances the simulation by one step.
    pub fn step() -> (a: Self)
        ensures
            is_step_action(a),
    {
        Action {
            inner_cuid: String::from_str("step"),
            inner_iid: 0,
            data: Actionable::Step,
            payload: None,
        }
    }

    /// Compares two actions by the order in which they must be applied.
    pub fn cmp(&self, other: &Self) -> (r: Ordering)
        ensures
            r == action_order(*self, *other),
    {
        match self.data.cmp(&other.data) {
            Ordering::Equal => compare_str(self.inner_cuid.as_str(), other.inner_cuid.as_str()),
            Ordering::Less => Ordering::Less,
            Ordering::Greater => Ordering::Greater,
        }
    }
}

impl<P> PartialEq for Action<P> {
    fn eq(&self, other: &Self) -> (r: bool) {
        self.inner_cuid == other.inner_cuid
    }
}

impl<P> vstd::std_specs::cmp::PartialEqSpecImpl for Action<P> {
    open spec fn obeys_eq_spec() -> bool {
        true
    }

    open spec fn eq_spec(&self, other: &Self) -> bool {
        self.inner_cuid@ == other.inner_cuid@
    }
}

impl<P> PartialOrd for Action<P> {
    fn partial_cmp(&self, other: &Self) -> (r: Option<Ordering>) {
        Some(self.cmp(other))
    }
}

impl<P> vstd::std_specs::cmp::PartialOrdSpecImpl for Action<P> {
    open spec fn obeys_partial_cmp_spec() -> bool {
        true
    }

    open spec fn partial_cmp_spec(&self, other: &Self) -> Option<Ordering> {
        Some(action_order(*self, *other))
    }
}

/// Places `x` into `s`, behind the last element that it does not precede.
pub open spec fn insert_in_order<P>(s: Seq<Action<P>>, x: Action<P>) -> Seq<Action<P>>
    decreases s.len(),
{
    if s.len() == 0 {
        seq![x]
    } else if action_order(x, s.last()) == Ordering::Less {
        insert_in_order(s.drop_last(), x).push(s.last())
    } else {
        s.push(x)
    }
}

/// The queue after sorting: each action in turn placed into the sorted
/// prefix before it (a stable insertion sort).
pub open spec fn sorted_in_order<P>(s: Seq<Action<P>>) -> Seq<Action<P>>
    decreases s.len(),
{
    if s.len() == 0 {
        s
    } else {
        insert_in_order(sorted_in_order(s.drop_last()), s.last())
    }
}

/// No action stands directly behind one that it should precede.
pub open spec fn locally_ordered<P>(s: Seq<Action<P>>) -> bool {
    forall|i: int| 0 <= i < s.len() - 1 ==> action_order(#[trigger] s[i + 1], s[i]) != Ordering::Less
}

/// Swapping two actionables turns "before" into "after" and keeps "equal".
/// (Two steps each count as after the other, so "after" does not flip back.)
pub proof fn lemma_actionable_order_flip(a: Actionable, b: Actionable)
    ensures
        actionable_order(a, b) == Ordering::Less ==> actionable_order(b, a) == Ordering::Greater,
        actionable_order(a, b) == Ordering::Equal <==> actionable_order(b, a) == Ordering::Equal,
{
}

/// Swapping two actions turns "before" into "after".
pub proof fn lemma_action_order_flip<P>(a: Action<P>, b: Action<P>)
    ensures
        action_order(a, b) == Ordering::Less ==> action_order(b, a) == Ordering::Greater,
{
    lemma_actionable_order_flip(a.data, b.data);
    lemma_lex_order_flip(a.inner_cuid@, b.inner_cuid@);
}

proof fn lemma_insert_at<P>(s: Seq<Action<P>>, x: Action<P>, p: int)
    requires
        0 <= p <= s.len(),
        forall|k: int| p <= k < s.len() ==> action_order(x, #[trigger] s[k]) == Ordering::Less,
        p == 0 || action_order(x, s[p - 1]) != Ordering::Less,
    ensures
        insert_in_order(s, x) == s.insert(p, x),
    decreases s.len(),
{
    if s.len() == 0 {
        assert(s.insert(p, x) =~= seq![x]);
    } else if p == s.len() {
        assert(s.insert(p, x) =~= s.push(x));
    } else {
        assert(action_order(x, s[s.len() - 1]) == Ordering::Less);
        let d = s.drop_last();
        assert forall|k: int| p <= k < d.len() implies action_order(x, #[trigger] d[k]) == Ordering::Less by {
            assert(d[k] == s[k]);
        }
        lemma_insert_at(d, x, p);
        assert(d.insert(p, x).push(s.last()) =~= s.insert(p, x));
    }
}

proof fn lemma_insert_in_order_multiset<P>(s: Seq<Action<P>>, x: Action<P>)
    ensures
        insert_in_order(s, x).to_multiset() == s.to_multiset().insert(x),
    decreases s.len(),
{
    broadcast use vstd::seq_lib::group_to_multiset_ensures;
    if s.len() == 0 {
        assert(seq![x] =~= s.push(x));
    } else if action_order(x, s.last()) == Ordering::Less {
        lemma_insert_in_order_multiset(s.drop_last(), x);
        assert(s.drop_last().push(s.last()) =~= s);
        assert(s.to_multiset() == s.drop_last().to_multiset().insert(s.last()));
        assert(insert_in_order(s, x).to_multiset() =~= s.to_multiset().insert(x));
    }
}

proof fn lemma_insert_in_order_ordered<P>(s: Seq<Action<P>>, x: Action<P>)
    requires
        locally_ordered(s),
    ensures
        locally_ordered(insert_in_order(s, x)),
        insert_in_order(s, x).len() == s.len() + 1,
        insert_in_order(s, x).last() == x || (s.len() > 0 && insert_in_order(s, x).last() == s.last()),
    decreases s.len(),
{
    if s.len() == 0 {
    } else if action_order(x, s.last()) == Ordering::Less {
        let d = s.drop_last();
        assert forall|i: int| 0 <= i < d.len() - 1 implies action_order(#[trigger] d[i + 1], d[i]) != Ordering::Less by {
            assert(d[i + 1] == s[i + 1]);
            assert(d[i] == s[i]);
        }
        lemma_insert_in_order_ordered(d, x);
        let r = insert_in_order(d, x);
        let t = r.push(s.last());
        lemma_action_order_flip(x, s.last());
        if d.len() > 0 {
            assert(s[s.len() - 1] == s.last());
            assert(action_order(s[(s.len() - 2) + 1], s[s.len() - 2]) != Ordering::Less);
            assert(d.last() == s[s.len() - 2]);
        }
        assert forall|i: int| 0 <= i < t.len() - 1 implies action_order(#[trigger] t[i + 1], t[i]) != Ordering::Less by {
            if i < r.len() - 1 {
                assert(t[i + 1] == r[i + 1]);
                assert(t[i] == r[i]);
            } else {
                assert(t[i + 1] == s.last());
                assert(t[i] == r.last());
            }
        }
    } else {
        let t = s.push(x);
        assert forall|i: int| 0 <= i < t.len() - 1 implies action_order(#[trigger] t[i + 1], t[i]) != Ordering::Less by {
            if i < s.len() - 1 {
                assert(t[i + 1] == s[i + 1]);
                assert(t[i] == s[i]);
            }
        }
    }
}

/// Sorting a queue keeps every action it held, as often as it held it.
pub proof fn lemma_sorted_in_order_keeps_actions<P>(s: Seq<Action<P>>)
    ensures
        sorted_in_order(s).to_multiset() == s.to_multiset(),
        sorted_in_order(s).len() == s.len(),
    decreases s.len(),
{
    broadcast use vstd::seq_lib::group_to_multiset_ensures;
    if s.len() > 0 {
        lemma_sorted_in_order_keeps_actions(s.drop_last());
        lemma_insert_in_order_multiset(sorted_in_order(s.drop_last()), s.last());
        assert(s.drop_last().push(s.last()) =~= s);
    }
    assert(sorted_in_order(s).len() == sorted_in_order(s).to_multiset().len());
    assert(s.len() == s.to_multiset().len());
}

/// After sorting, no action stands directly behind one that it should precede.
pub proof fn lemma_sorted_in_order_is_ordered<P>(s: Seq<Action<P>>)
    ensures
        locally_ordered(sorted_in_order(s)),
    decreases s.len(),
{
    if s.len() > 0 {
        lemma_sorted_in_order_is_ordered(s.drop_last());
        lemma_insert_in_order_ordered(sorted_in_order(s.drop_last()), s.last());
    }
}


/// `n` as a mathematical integer.
pub open spec fn int_of(n: usize) -> int {
    n as int
}

fn precedes<P>(a: &Action<P>, b: &Action<P>) -> (r: bool)
    ensures
        r == (action_order(*a, *b) == Ordering::Less),
{
    match a.cmp(b) {
        Ordering::Less => true,
        _ => false,
    }
}

fn insert_sorted<P>(v: &mut Vec<Action<P>>, x: Action<P>)
    ensures
        final(v)@ == insert_in_order(old(v)@, x),
{
    let mut p = v.len();
    while p > 0 && precedes(&x, &v[p - 1])
        invariant
            p <= v.len(),
            v@ == old(v)@,
            forall|k: int| int_of(p) <= k < v.len() ==> action_order(x, #[trigger] v@[k]) == Ordering::Less,
        decreases p,
    {
        p = p - 1;
    }
    proof {
        lemma_insert_at(v@, x, int_of(p));
    }
    v.insert(p, x);
}

/// Sorts a queue in place; equal actions keep their relative order.
pub fn sort_queue<P>(v: &mut Vec<Action<P>>)
    ensures
        final(v)@ == sorted_in_order(old(v)@),
{
    let mut rest: Vec<Action<P>> = Vec::new();
    std::mem::swap(&mut rest, v);
    let ghost orig = rest@;
    let ghost mut done: int = 0;
    assert(orig.take(0) =~= Seq::<Action<P>>::empty());
    while rest.len() > 0
        invariant
            0 <= done <= orig.len(),
            v@ == sorted_in_order(orig.take(done)),
            rest@ == orig.skip(done),
        decreases rest.len(),
    {
        let x = rest.remove(0);
        proof {
            assert(orig.take(done + 1).drop_last() =~= orig.take(done));
            assert(orig.take(done + 1).last() == x);
        }
        insert_sorted(v, x);
        proof {
            assert(rest@ =~= orig.skip(done + 1));
            done = done + 1;
        }
    }
    assert(orig.take(done) =~= orig);
}

/// How an action is listed when a queue is shown: the kind of its object,
/// its node identifier and its actionable.
pub open spec fn action_text<P>(a: Action<P>) -> Seq<char> {
    object_kind_text(object_kind_of_actionable(a.data)) + ", "@ + a.inner_cuid@ + ", "@ + actionable_text(a.data)
}

/// Each action of a queue as it is listed when the queue is shown.
pub fn debug_queue<P>(actions: &Vec<Action<P>>) -> (r: Vec<String>)
    ensures
        r@.len() == actions@.len(),
        forall|i: int| 0 <= i < r@.len() ==> (#[trigger] r@[i])@ == action_text(actions@[i]),
{
    let mut r: Vec<String> = Vec::new();
    let n = actions.len();
    let mut i: usize = 0;
    while i < n
        invariant
            n == actions@.len(),
            i <= n,
            r@.len() == i,
            forall|k: int| 0 <= k < i ==> (#[trigger] r@[k])@ == action_text(actions@[k]),
        decreases n - i,
    {
        let a = &actions[i];
        let kind = ObjectKind::from(&a.data);
        let mut line = kind.to_string();
        line.append(", ");
        line.append(a.inner_cuid.as_str());
        line.append(", ");
        let data = a.data.to_string();
        line.append(data.as_str());
        proof {
            reveal_strlit(", ");
        }
        assert(line@ =~= action_text(*a));
        r.push(line);
        i = i + 1;
    }
    r
}

/// Names the queues that actions wait in.
#[derive(Debug, Clone, Copy, PartialEq, Eq, Hash, Structural)]
pub enum QueueName {
    Insert,
    Remove,
    Parent,
    Sync,
    Sim,
}

/// Pending actions that change the physics world.  Every change goes
/// through one of these queues so that each run applies them in the same
/// order.
pub struct ActionQueue<P> {
    pub insert: Vec<Action<P>>,
    pub remove: Vec<Action<P>>,
    pub parent: Vec<Action<P>>,
    pub sync: Vec<Action<P>>,
    pub sim: Vec<Action<P>>,
}

impl<P> ActionQueue<P> {
    /// The contents of one queue.
    pub open spec fn queue_view(&self, name: QueueName) -> Seq<Action<P>> {
        match name {
            QueueName::Insert => self.insert@,
            QueueName::Remove => self.remove@,
            QueueName::Parent => self.parent@,
            QueueName::Sync => self.sync@,
            QueueName::Sim => self.sim@,
        }
    }

    /// Five empty queues.
    pub fn new() -> (q: Self)
        ensures
            forall|n: QueueName| #[trigger] q.queue_view(n) == Seq::<Action<P>>::empty(),
    {
        ActionQueue {
            insert: Vec::new(),
            remove: Vec::new(),
            parent: Vec::new(),
            sync: Vec::new(),
            sim: Vec::new(),
        }
    }

    /// The queue with the given name.
    pub fn queue(&self, name: &QueueName) -> (q: &Vec<Action<P>>)
        ensures
            q@ == self.queue_view(*name),
    {
        match name {
            QueueName::Insert => &self.insert,
            QueueName::Remove => &self.remove,
            QueueName::Parent => &self.parent,
            QueueName::Sync => &self.sync,
            QueueName::Sim => &self.sim,
        }
    }

    /// Appends an action to the named queue.
    pub fn add_action(&mut self, action: Action<P>, queue: &QueueName)
        ensures
            final(self).queue_view(*queue) == old(self).queue_view(*queue).push(action),
            forall|n: QueueName| n != *queue ==> #[trigger] final(self).queue_view(n) == old(self).queue_view(n),
    {
        match queue {
            QueueName::Insert => self.insert.push(action),
            QueueName::Remove => self.remove.push(action),
            QueueName::Parent => self.parent.push(action),
            QueueName::Sync => self.sync.push(action),
            QueueName::Sim => self.sim.push(action),
        }
    }

    /// Appends a simulation step to the simulation queue.
    pub fn push_step_action(&mut self)
        ensures
            final(self).queue_view(QueueName::Sim).len() == old(self).queue_view(QueueName::Sim).len() + 1,
            final(self).queue_view(QueueName::Sim).drop_last() == old(self).queue_view(QueueName::Sim),
            is_step_action(final(self).queue_view(QueueName::Sim).last()),
            forall|n: QueueName| n != QueueName::Sim ==> #[trigger] final(self).queue_view(n) == old(self).queue_view(n),
    {
        self.add_action(Action::step(), &QueueName::Sim);
        assert(self.queue_view(QueueName::Sim).drop_last() =~= old(self).queue_view(QueueName::Sim));
    }

    /// Sorts every queue, the simulation queue too, so that world steps come
    /// after the character moves queued with them.
    pub fn sort(&mut self)
        ensures
            forall|n: QueueName| #[trigger] final(self).queue_view(n) == sorted_in_order(old(self).queue_view(n)),
    {
        sort_queue(&mut self.insert);
        sort_queue(&mut self.remove);
        sort_queue(&mut self.parent);
        sort_queue(&mut self.sync);
        sort_queue(&mut self.sim);
    }

    /// Sorts the queues, then empties them all, handing the actions out in
    /// the order in which they are applied: removals, insertions, parenting,
    /// synchronisation, simulation.
    pub fn drain_for_processing(&mut self) -> (batches: Vec<(QueueName, Vec<Action<P>>)>)
        ensures
            batches@.len() == 5,
            batches@[0].0 == QueueName::Remove,
            batches@[1].0 == QueueName::Insert,
            batches@[2].0 == QueueName::Parent,
            batches@[3].0 == QueueName::Sync,
            batches@[4].0 == QueueName::Sim,
            forall|i: int| 0 <= i < 5 ==> (#[trigger] batches@[i]).1@ == sorted_in_order(old(self).queue_view(batches@[i].0)),
            forall|n: QueueName| #[trigger] final(self).queue_view(n) == Seq::<Action<P>>::empty(),
    {
        self.sort();
        assert(self.queue_view(QueueName::Sim) == sorted_in_order(old(self).queue_view(QueueName::Sim)));
        let ghost sorted_sim = self.sim@;
        assert(self.queue_view(QueueName::Remove) == sorted_in_order(old(self).queue_view(QueueName::Remove)));
        assert(self.queue_view(QueueName::Insert) == sorted_in_order(old(self).queue_view(QueueName::Insert)));
        assert(self.queue_view(QueueName::Parent) == sorted_in_order(old(self).queue_view(QueueName::Parent)));
        assert(self.queue_view(QueueName::Sync) == sorted_in_order(old(self).queue_view(QueueName::Sync)));
        let mut remove = Vec::new();
        let mut insert = Vec::new();
        let mut parent = Vec::new();
        let mut sync = Vec::new();
        let mut sim = Vec::new();
        std::mem::swap(&mut remove, &mut self.remove);
        std::mem::swap(&mut insert, &mut self.insert);
        std::mem::swap(&mut parent, &mut self.parent);
        std::mem::swap(&mut sync, &mut self.sync);
        std::mem::swap(&mut sim, &mut self.sim);
        let mut batches = Vec::new();
        batches.push((QueueName::Remove, remove));
        batches.push((QueueName::Insert, insert));
        batches.push((QueueName::Parent, parent));
        batches.push((QueueName::Sync, sync));
        batches.push((QueueName::Sim, sim));
        assert forall|i: int| 0 <= i < 5 implies (#[trigger] batches@[i]).1@ == sorted_in_order(old(self).queue_view(batches@[i].0)) by {
            if i == 0 {} else if i == 1 {} else if i == 2 {} else if i == 3 {} else {
                assert(batches@[4].1@ == sorted_sim);
            }
        }
        batches
    }
}

proof fn lemma_first_class_prefix<P>(
    r: Seq<Action<P>>,
    first: spec_fn(Actionable) -> bool,
    second: spec_fn(Actionable) -> bool,
    j: int,
)
    requires
        0 <= j < r.len(),
        first(r[j].data),
        forall|i: int| 0 <= i < r.len() ==> first(#[trigger] r[i].data) || second(r[i].data),
        forall|k: int| 0 <= k < r.len() - 1 ==> !(second(#[trigger] r[k].data) && first(r[k + 1].data)),
    ensures
        forall|i: int| 0 <= i <= j ==> first(#[trigger] r[i].data),
    decreases j,
{
    if j > 0 {
        assert(!(second(r[j - 1].data) && first(r[(j - 1) + 1].data)));
        assert(first(r[j - 1].data));
        lemma_first_class_prefix(r, first, second, j - 1);
    }
}

/// In a locally ordered queue made of two classes of actions, where every
/// action of the first class goes before every action of the second, no
/// action of the second class stands before one of the first.
pub proof fn lemma_classes_in_order<P>(
    r: Seq<Action<P>>,
    first: spec_fn(Actionable) -> bool,
    second: spec_fn(Actionable) -> bool,
)
    requires
        locally_ordered(r),
        forall|i: int| 0 <= i < r.len() ==> first(#[trigger] r[i].data) || second(r[i].data),
        forall|a: Actionable, b: Actionable| first(a) && second(b) ==> #[trigger] actionable_order(a, b) == Ordering::Less,
    ensures
        forall|i: int, j: int| 0 <= i < j < r.len() ==> !(second(#[trigger] r[i].data) && first(#[trigger] r[j].data)),
{
    assert forall|k: int| 0 <= k < r.len() - 1 implies !(second(#[trigger] r[k].data) && first(r[k + 1].data)) by {
        if second(r[k].data) && first(r[k + 1].data) {
            assert(actionable_order(r[k + 1].data, r[k].data) == Ordering::Less);
            assert(action_order(r[k + 1], r[k]) == Ordering::Less);
        }
    }
    assert forall|i: int, j: int| 0 <= i < j < r.len() implies !(second(#[trigger] r[i].data) && first(#[trigger] r[j].data)) by {
        if first(r[j].data) {
            lemma_first_class_prefix(r, first, second, j);
            if second(r[i].data) {
                assert(first(r[i].data));
                assert(actionable_order(r[i].data, r[i].data) == Ordering::Less);
            }
        }
    }
}

proof fn lemma_sorted_elements_from<P>(s: Seq<Action<P>>, i: int)
    requires
        0 <= i < sorted_in_order(s).len(),
    ensures
        s.contains(sorted_in_order(s)[i]),
{
    broadcast use vstd::seq_lib::group_to_multiset_ensures;
    lemma_sorted_in_order_keeps_actions(s);
    let r = sorted_in_order(s);
    assert(r.contains(r[i]));
    assert(r.to_multiset().count(r[i]) > 0);
}

/// After sorting, world steps come after every other action of the queue:
/// the simulation queue moves its characters before it steps.
pub proof fn lemma_steps_come_last<P>(s: Seq<Action<P>>)
    ensures
        forall|i: int, j: int| 0 <= i < j < sorted_in_order(s).len() ==>
            !((#[trigger] sorted_in_order(s)[i]).data is Step && !((#[trigger] sorted_in_order(s)[j]).data is Step)),
{
    let r = sorted_in_order(s);
    lemma_sorted_in_order_is_ordered(s);
    let first = |a: Actionable| !(a is Step);
    let second = |a: Actionable| a is Step;
    lemma_classes_in_order(r, first, second);
    assert forall|i: int, j: int| 0 <= i < j < r.len() implies
        !((#[trigger] r[i]).data is Step && !((#[trigger] r[j]).data is Step)) by {
        assert(!(second(r[i].data) && first(r[j].data)));
    }
}


/// Sorting the insert queue registers every rigid body and character before
/// any collider, so that colliders can be attached to their bodies.
pub proof fn lemma_bodies_registered_before_colliders<P>(s: Seq<Action<P>>)
    requires
        forall|i: int| 0 <= i < s.len() ==> is_body_insert(#[trigger] s[i].data) || is_collider_insert(s[i].data),
    ensures
        forall|i: int, j: int| 0 <= i < j < sorted_in_order(s).len() ==>
            !(is_collider_insert(#[trigger] sorted_in_order(s)[i].data) && is_body_insert(#[trigger] sorted_in_order(s)[j].data)),
{
    let r = sorted_in_order(s);
    lemma_sorted_in_order_is_ordered(s);
    let first = |a: Actionable| is_body_insert(a);
    let second = |a: Actionable| is_collider_insert(a);
    assert forall|i: int| 0 <= i < r.len() implies first(#[trigger] r[i].data) || second(r[i].data) by {
        lemma_sorted_elements_from(s, i);
        let k = choose|k: int| 0 <= k < s.len() && s[k] == r[i];
        assert(is_body_insert(s[k].data) || is_collider_insert(s[k].data));
    }
    lemma_classes_in_order(r, first, second);
}

/// Sorting the synchronisation queue moves every body before any collider
/// that may hang from it.
pub proof fn lemma_body_positions_before_collider_positions<P>(s: Seq<Action<P>>)
    requires
        forall|i: int| 0 <= i < s.len() ==> is_body_position(#[trigger] s[i].data) || is_collider_position(s[i].data),
    ensures
        forall|i: int, j: int| 0 <= i < j < sorted_in_order(s).len() ==>
            !(is_collider_position(#[trigger] sorted_in_order(s)[i].data) && is_body_position(#[trigger] sorted_in_order(s)[j].data)),
{
    let r = sorted_in_order(s);
    lemma_sorted_in_order_is_ordered(s);
    let first = |a: Actionable| is_body_position(a);
    let second = |a: Actionable| is_collider_position(a);
    assert forall|i: int| 0 <= i < r.len() implies first(#[trigger] r[i].data) || second(r[i].data) by {
        lemma_sorted_elements_from(s, i);
        let k = choose|k: int| 0 <= k < s.len() && s[k] == r[i];
        assert(is_body_position(s[k].data) || is_collider_position(s[k].data));
    }
    lemma_classes_in_order(r, first, second);
}

} // verus!
