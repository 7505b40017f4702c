//! What applying a queued action decides before the physics engine and the
//! editor nodes are touched: which set an object goes into or leaves, which
//! handles an action targets, and the identifier a new object gets.

use crate::lookup::LookupTable;
use crate::objects::{handle_kind_of, object_kind_of_actionable, Handle, HandleKind, ObjectKind};
use crate::queue::{Action, Actionable};
use vstd::prelude::*;

verus! {

/// Why an action could not be applied.
#[derive(Debug, Clone, PartialEq, Eq)]
pub enum QueueError {
    /// Only rigid bodies and colliders can be inserted.
    CannotInsert,
    /// Only rigid body and collider handles can be removed.
    CannotRemove,
    /// A parenting action must name a collider and its parent.
    NotParentAction,
    /// No handle is known for this collider identifier.
    ColliderNotFound(String),
    /// No handle is known for this rigid body identifier.
    ParentNotFound(String),
    /// No handle is known for the node of a synchronisation action.
    HandleNotFound,
    /// No handle is known for this character identifier.
    CharacterNotFound(String),
    /// The action does not belong in this queue.
    InvalidActionable,
}

/// A character that may follow the first one of an identifier: a decimal
/// digit or a lowercase letter (base 36).
pub open spec fn is_cuid_char(c: char) -> bool {
    ('0' <= c && c <= '9') || ('a' <= c && c <= 'z')
}

/// The shape of a generated identifier: a lowercase letter, then between
/// one and 23 base-36 digits.
pub open spec fn is_cuid(s: Seq<char>) -> bool {
    &&& 2 <= s.len() <= 24
    &&& 'a' <= s[0] && s[0] <= 'z'
    &&& forall|i: int| 1 <= i < s.len() ==> is_cuid_char(#[trigger] s[i])
}

/// A fresh random node identifier (`cuid2::create_id`).  Its value is
/// random; what the crate's source shows of every outcome is its shape: a
/// random lowercase letter, then the base-36 digits of a hash cut to 23
/// characters (there is at least one digit, "0" for a zero hash).
#[verifier::external_body]
pub fn cuid2() -> (r: String)
    ensures
        is_cuid(r@),
{
    ::cuid2::create_id()
}

/// The identifier itself if no object uses it yet, otherwise a fresh one.
pub fn ensure_unique_cuid2(cuid2: String, lookups: &LookupTable) -> (r: String)
    ensures
        !lookups@.godot_to_rapier.contains_key(cuid2@) ==> r@ == cuid2@,
        lookups@.godot_to_rapier.contains_key(cuid2@) ==> is_cuid(r@),
{
    if !lookups.cuid_exists(cuid2.as_str()) {
        cuid2
    } else {
        self::cuid2()
    }
}

/// Where an inserted object goes.
#[derive(Debug, Clone, Copy, PartialEq, Eq)]
pub enum InsertTarget {
    RigidBody,
    Collider,
    /// A collider attached to the rigid body with these raw parts.
    ColliderWithParent([u32; 2]),
}

/// The set an actionable is inserted into, if it can be inserted.
pub open spec fn insert_target_of(a: Actionable) -> Option<InsertTarget> {
    match a {
        Actionable::RigidBody => Some(InsertTarget::RigidBody),
        Actionable::Collider => Some(InsertTarget::Collider),
        Actionable::ColliderWithParent(raw) => Some(InsertTarget::ColliderWithParent(raw)),
        _ => None,
    }
}

/// The set an object is inserted into: rigid bodies, colliders, or colliders
/// under a parent body.  Nothing else can be inserted.
pub fn insertion_target(data: &Actionable) -> (r: Result<InsertTarget, QueueError>)
    ensures
        r matches Ok(t) ==> insert_target_of(*data) == Some(t),
        r is Err <==> insert_target_of(*data) is None,
        r matches Err(e) ==> e == QueueError::CannotInsert,
{
    match data {
        Actionable::RigidBody => Ok(InsertTarget::RigidBody),
        Actionable::Collider => Ok(InsertTarget::Collider),
        Actionable::ColliderWithParent(raw) => Ok(InsertTarget::ColliderWithParent(*raw)),
        _ => Err(QueueError::CannotInsert),
    }
}

/// What inserting an action's object amounts to: the identifier the object
/// is registered under, its kind, and the set it goes into.
#[derive(Debug, Clone)]
pub struct InsertPlan {
    pub cuid2: String,
    pub object_kind: ObjectKind,
    pub target: InsertTarget,
}

/// Plans the insertion of an action's object.  Objects that cannot be
/// inserted are refused; otherwise the identifier is kept if unused.
pub fn plan_insert<P>(action: &Action<P>, lookups: &LookupTable) -> (r: Result<InsertPlan, QueueError>)
    ensures
        r is Err <==> insert_target_of(action.data) is None,
        r matches Err(e) ==> e == QueueError::CannotInsert,
        r matches Ok(plan) ==> {
            &&& Some(plan.target) == insert_target_of(action.data)
            &&& plan.object_kind == object_kind_of_actionable(action.data)
            &&& !lookups@.godot_to_rapier.contains_key(action.inner_cuid@) ==> plan.cuid2@ == action.inner_cuid@
            &&& lookups@.godot_to_rapier.contains_key(action.inner_cuid@) ==> is_cuid(plan.cuid2@)
        },
{
    let target = insertion_target(&action.data)?;
    let object_kind = ObjectKind::from(&action.data);
    let cuid2 = ensure_unique_cuid2(action.inner_cuid.clone(), lookups);
    Ok(InsertPlan { cuid2, object_kind, target })
}

/// What removing an action's object amounts to.
#[derive(Debug, Clone, Copy, PartialEq, Eq)]
pub enum RemovalTarget {
    /// Remove this rigid body, and its colliders with it.
    RigidBody([u32; 2]),
    /// Remove this collider.
    Collider([u32; 2]),
}

/// The object an actionable removes: `Ok(None)` for the invalid actionable,
/// which removes nothing.
pub open spec fn removal_target_of(a: Actionable) -> Option<Option<RemovalTarget>> {
    match a {
        Actionable::RigidBodyHandle(raw) => Some(Some(RemovalTarget::RigidBody(raw))),
        Actionable::ColliderHandle(raw) => Some(Some(RemovalTarget::Collider(raw))),
        Actionable::Invalid => Some(None),
        _ => None,
    }
}

/// The object to remove: a rigid body or a collider by handle; nothing for
/// the invalid actionable; anything else is refused.
pub fn removal_target(data: &Actionable) -> (r: Result<Option<RemovalTarget>, QueueError>)
    ensures
        r matches Ok(t) ==> removal_target_of(*data) == Some(t),
        r is Err <==> removal_target_of(*data) is None,
        r matches Err(e) ==> e == QueueError::CannotRemove,
{
    match data {
        Actionable::RigidBodyHandle(raw) => Ok(Some(RemovalTarget::RigidBody(*raw))),
        Actionable::ColliderHandle(raw) => Ok(Some(RemovalTarget::Collider(*raw))),
        Actionable::Invalid => Ok(None),
        _ => Err(QueueError::CannotRemove),
    }
}

/// A collider and the rigid body it is to hang from (none: detach it).
#[derive(Debug, Clone, Copy, PartialEq, Eq)]
pub struct ParentLink {
    pub collider: (u32, u32),
    pub parent: Option<(u32, u32)>,
}

/// Resolves a parenting action to the handles of the collider and of its new
/// parent.
pub fn resolve_parent_action(data: &Actionable, lookups: &LookupTable) -> (r: Result<ParentLink, QueueError>)
    ensures
        !(data is ColliderIDWithParentID) ==> r == Err::<ParentLink, QueueError>(QueueError::NotParentAction),
        data matches Actionable::ColliderIDWithParentID(col_id, parent_id) ==> {
            let g2r = lookups@.godot_to_rapier;
            if !g2r.contains_key(col_id@) {
                r matches Err(QueueError::ColliderNotFound(id)) && id@ == col_id@
            } else if parent_id matches Some(p) && !g2r.contains_key(p@) {
                r matches Err(QueueError::ParentNotFound(id)) && id@ == parent_id->0@
            } else {
                r matches Ok(link) && link.collider == g2r[col_id@] && link.parent == (match parent_id {
                    Some(p) => Some(g2r[p@]),
                    None => None,
                })
            }
        },
{
    match data {
        Actionable::ColliderIDWithParentID(col_id, rb_parent_id) => {
            let collider = match lookups.get_rapier_handle(col_id.as_str()) {
                Some(raw) => raw,
                None => {
                    return Err(QueueError::ColliderNotFound(col_id.clone()));
                },
            };
            let parent = match rb_parent_id {
                Some(parent_id) => match lookups.get_rapier_handle(parent_id.as_str()) {
                    Some(raw) => Some(raw),
                    None => {
                        return Err(QueueError::ParentNotFound(parent_id.clone()));
                    },
                },
                None => None,
            };
            Ok(ParentLink { collider, parent })
        },
        _ => Err(QueueError::NotParentAction),
    }
}

/// What a synchronisation action changes.
#[derive(Debug, Clone, PartialEq, Eq)]
pub enum SyncTarget {
    /// Move the object with this handle.
    Position(Handle),
    /// Reshape the collider with this handle.
    Shape(Handle),
}

/// Resolves a synchronisation action (a node position or a collider shape)
/// to the handle of its object, by the identifier of the action's node.
pub fn resolve_sync_action<P>(action: &Action<P>, lookups: &LookupTable) -> (r: Result<SyncTarget, QueueError>)
    ensures
        !(action.data is NodePos || action.data is ColliderShape) ==> r == Err::<SyncTarget, QueueError>(QueueError::InvalidActionable),
        (action.data is NodePos || action.data is ColliderShape) ==> {
            let g2r = lookups@.godot_to_rapier;
            if !g2r.contains_key(action.inner_cuid@) {
                r == Err::<SyncTarget, QueueError>(QueueError::HandleNotFound)
            } else {
                let raw = g2r[action.inner_cuid@];
                let handle = Handle {
                    kind: handle_kind_of(object_kind_of_actionable(action.data)),
                    raw: [raw.0, raw.1],
                };
                if action.data is NodePos {
                    r == Ok::<SyncTarget, QueueError>(SyncTarget::Position(handle))
                } else {
                    r == Ok::<SyncTarget, QueueError>(SyncTarget::Shape(handle))
                }
            }
        },
{
    let handle_kind = HandleKind::from(ObjectKind::from(&action.data));
    match &action.data {
        Actionable::NodePos(_) => match lookups.get_rapier_handle(action.inner_cuid.as_str()) {
            Some(raw) => Ok(SyncTarget::Position(Handle { kind: handle_kind, raw: [raw.0, raw.1] })),
            None => Err(QueueError::HandleNotFound),
        },
        Actionable::ColliderShape => match lookups.get_rapier_handle(action.inner_cuid.as_str()) {
            Some(raw) => Ok(SyncTarget::Shape(Handle { kind: handle_kind, raw: [raw.0, raw.1] })),
            None => Err(QueueError::HandleNotFound),
        },
        _ => Err(QueueError::InvalidActionable),
    }
}

/// What a simulation action does.
#[derive(Debug, Clone, Copy, PartialEq, Eq)]
pub enum SimRequest {
    /// Step the world.
    Step,
    /// Move the character whose rigid body has these raw parts.
    MoveCharacter((u32, u32)),
}

/// Resolves a simulation action: a world step, or a character move resolved
/// to the handle of the character's rigid body.
pub fn resolve_sim_action<P>(action: &Action<P>, lookups: &LookupTable) -> (r: Result<SimRequest, QueueError>)
    ensures
        action.data is Step ==> r == Ok::<SimRequest, QueueError>(SimRequest::Step),
        action.data matches Actionable::MoveCharacter { cuid2 } ==> {
            let g2r = lookups@.godot_to_rapier;
            if g2r.contains_key(cuid2@) {
                r == Ok::<SimRequest, QueueError>(SimRequest::MoveCharacter(g2r[cuid2@]))
            } else {
                r matches Err(QueueError::CharacterNotFound(id)) && id@ == cuid2@
            }
        },
        !(action.data is Step || action.data is MoveCharacter) ==> r == Err::<SimRequest, QueueError>(QueueError::InvalidActionable),
{
    match &action.data {
        Actionable::Step => Ok(SimRequest::Step),
        Actionable::MoveCharacter { cuid2 } => match lookups.get_rapier_handle(cuid2.as_str()) {
            Some(raw) => Ok(SimRequest::MoveCharacter(raw)),
            None => Err(QueueError::CharacterNotFound(cuid2.clone())),
        },
        _ => Err(QueueError::InvalidActionable),
    }
}

} // verus!
