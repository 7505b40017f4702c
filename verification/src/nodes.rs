//! Decisions that the editor nodes make: which node classes can be moved or
//! configured, which handles a node accepts, and how a collider follows the
//! rigid body it is parented to.

use crate::lookup::{LookupTable, LookupView};
use crate::objects::{HandleKind, ObjectKind};
use crate::text::str_equal;
use vstd::prelude::*;

verus! {

/// The physics node classes of the editor.
#[derive(Debug, Clone, Copy, PartialEq, Eq, Structural)]
pub enum NodeClass {
    Area,
    CollisionShape,
    KinematicCharacter,
    PidCharacter,
    RigidBody,
    StaticBody,
}

/// The node class with the given editor class name.
pub open spec fn node_class_named(name: Seq<char>) -> Option<NodeClass> {
    if name == "RapierArea3D"@ {
        Some(NodeClass::Area)
    } else if name == "RapierCollisionShape3D"@ {
        Some(NodeClass::CollisionShape)
    } else if name == "RapierKinematicCharacter3D"@ {
        Some(NodeClass::KinematicCharacter)
    } else if name == "RapierPIDCharacter3D"@ {
        Some(NodeClass::PidCharacter)
    } else if name == "RapierRigidBody3D"@ {
        Some(NodeClass::RigidBody)
    } else if name == "RapierStaticBody3D"@ {
        Some(NodeClass::StaticBody)
    } else {
        None
    }
}

/// The word that names a node class inside its editor class name.
pub open spec fn node_class_word(c: NodeClass) -> Seq<char> {
    match c {
        NodeClass::Area => "Area"@,
        NodeClass::CollisionShape => "CollisionShape"@,
        NodeClass::KinematicCharacter => "KinematicCharacter"@,
        NodeClass::PidCharacter => "PIDCharacter"@,
        NodeClass::RigidBody => "RigidBody"@,
        NodeClass::StaticBody => "StaticBody"@,
    }
}

/// The editor class name of a node class: `Rapier`, the class's word, `3D`.
pub open spec fn node_class_name(c: NodeClass) -> Seq<char> {
    "Rapier"@ + node_class_word(c) + "3D"@
}

/// Each node class is read back from its own editor class name, and a name
/// that reads as a class is that class's name.
pub proof fn lemma_node_class_name_round_trip(c: NodeClass, name: Seq<char>)
    ensures
        node_class_named(node_class_name(c)) == Some(c),
        node_class_named(name) == Some(c) <==> name == node_class_name(c),
        node_class_named(name) is None <==> (forall|d: NodeClass| name != node_class_name(d)),
{
    reveal_strlit("Rapier");
    reveal_strlit("3D");
    reveal_strlit("Area");
    reveal_strlit("CollisionShape");
    reveal_strlit("KinematicCharacter");
    reveal_strlit("PIDCharacter");
    reveal_strlit("RigidBody");
    reveal_strlit("StaticBody");
    reveal_strlit("RapierArea3D");
    reveal_strlit("RapierCollisionShape3D");
    reveal_strlit("RapierKinematicCharacter3D");
    reveal_strlit("RapierPIDCharacter3D");
    reveal_strlit("RapierRigidBody3D");
    reveal_strlit("RapierStaticBody3D");
    assert(node_class_name(NodeClass::Area) =~= "RapierArea3D"@);
    assert(node_class_name(NodeClass::CollisionShape) =~= "RapierCollisionShape3D"@);
    assert(node_class_name(NodeClass::KinematicCharacter) =~= "RapierKinematicCharacter3D"@);
    assert(node_class_name(NodeClass::PidCharacter) =~= "RapierPIDCharacter3D"@);
    assert(node_class_name(NodeClass::RigidBody) =~= "RapierRigidBody3D"@);
    assert(node_class_name(NodeClass::StaticBody) =~= "RapierStaticBody3D"@);
    if node_class_named(name) is None {
        assert forall|d: NodeClass| name != node_class_name(d) by {
            match d {
                NodeClass::Area => {},
                NodeClass::CollisionShape => {},
                NodeClass::KinematicCharacter => {},
                NodeClass::PidCharacter => {},
                NodeClass::RigidBody => {},
                NodeClass::StaticBody => {},
            }
        }
    } else {
        let d = node_class_named(name).unwrap();
        assert(name == node_class_name(d));
    }
}

/// What configuring a node sets up.
#[derive(Debug, Clone, Copy, PartialEq, Eq, Structural)]
pub enum Configuration {
    /// A kinematic character controller.
    KinematicController,
    /// A PID controller.
    PidController,
    /// Nothing yet for this class.
    Nothing,
}

impl NodeClass {
    /// The class with the given editor class name; `None` for other nodes.
    pub fn from_class_name(name: &str) -> (r: Option<NodeClass>)
        ensures
            r == node_class_named(name@),
            r matches Some(c) ==> name@ == node_class_name(c),
            r is None <==> (forall|c: NodeClass| name@ != node_class_name(c)),
    {
        proof {
            lemma_node_class_name_round_trip(NodeClass::Area, name@);
            lemma_node_class_name_round_trip(NodeClass::CollisionShape, name@);
            lemma_node_class_name_round_trip(NodeClass::KinematicCharacter, name@);
            lemma_node_class_name_round_trip(NodeClass::PidCharacter, name@);
            lemma_node_class_name_round_trip(NodeClass::RigidBody, name@);
            lemma_node_class_name_round_trip(NodeClass::StaticBody, name@);
        }
        if str_equal(name, "RapierArea3D") {
            Some(NodeClass::Area)
        } else if str_equal(name, "RapierCollisionShape3D") {
            Some(NodeClass::CollisionShape)
        } else if str_equal(name, "RapierKinematicCharacter3D") {
            Some(NodeClass::KinematicCharacter)
        } else if str_equal(name, "RapierPIDCharacter3D") {
            Some(NodeClass::PidCharacter)
        } else if str_equal(name, "RapierRigidBody3D") {
            Some(NodeClass::RigidBody)
        } else if str_equal(name, "RapierStaticBody3D") {
            Some(NodeClass::StaticBody)
        } else {
            None
        }
    }

    /// Whether nodes of this class can be moved or teleported: characters
    /// and rigid bodies.
    pub fn is_movable(&self) -> (r: bool)
        ensures
            r == (*self == NodeClass::KinematicCharacter || *self == NodeClass::PidCharacter
                || *self == NodeClass::RigidBody),
    {
        match self {
            NodeClass::KinematicCharacter | NodeClass::PidCharacter | NodeClass::RigidBody => true,
            _ => false,
        }
    }

    /// What configuring a node of this class sets up: a controller for each
    /// kind of character, nothing for the other classes.
    pub fn configuration(&self) -> (r: Configuration)
        ensures
            *self == NodeClass::KinematicCharacter ==> r == Configuration::KinematicController,
            *self == NodeClass::PidCharacter ==> r == Configuration::PidController,
            !(*self == NodeClass::KinematicCharacter || *self == NodeClass::PidCharacter) ==> r == Configuration::Nothing,
    {
        match self {
            NodeClass::KinematicCharacter => Configuration::KinematicController,
            NodeClass::PidCharacter => Configuration::PidController,
            _ => Configuration::Nothing,
        }
    }
}

/// The axes a PID character corrects along.
#[derive(Debug, Clone, Copy, PartialEq, Eq, Structural)]
pub enum PidAxes {
    /// Rotation only: the character stands still.
    Angular,
    /// Rotation and the two horizontal axes.
    AngularAndHorizontal,
    /// Rotation and all three translation axes.
    All,
}

/// The PID axes for a movement: rotation always, the horizontal axes once
/// the character moves, and the vertical axis too when the movement has a
/// vertical part.
pub open spec fn pid_axes_for(moving: bool, vertical: bool) -> PidAxes {
    if !moving {
        PidAxes::Angular
    } else if vertical {
        PidAxes::All
    } else {
        PidAxes::AngularAndHorizontal
    }
}

/// How a node follows a desired movement.
#[derive(Debug, Clone, Copy, PartialEq, Eq)]
pub enum MovePlan {
    /// Move the body of a kinematic character with its controller.
    Kinematic((u32, u32)),
    /// Steer the body of a PID character along these axes.
    Pid { handle: (u32, u32), axes: PidAxes },
    /// Steer a rigid body towards the target.
    RigidBody((u32, u32)),
    /// The node has no body in the lookup table: nothing moves.
    NotRegistered,
    /// Nodes of this class cannot be moved.
    Unsupported,
}

/// How a node of the named class with the given identifier follows a
/// movement (`moving`: the movement is not zero; `vertical`: it has a
/// vertical part).
pub open spec fn move_plan_of(lookups: LookupView, class_name: Seq<char>, cuid: Seq<char>, moving: bool, vertical: bool) -> MovePlan {
    match node_class_named(class_name) {
        Some(class) => {
            if !(class == NodeClass::KinematicCharacter || class == NodeClass::PidCharacter
                || class == NodeClass::RigidBody) {
                MovePlan::Unsupported
            } else if !lookups.godot_to_rapier.contains_key(cuid) {
                MovePlan::NotRegistered
            } else {
                let handle = lookups.godot_to_rapier[cuid];
                if class == NodeClass::KinematicCharacter {
                    MovePlan::Kinematic(handle)
                } else if class == NodeClass::PidCharacter {
                    MovePlan::Pid { handle, axes: pid_axes_for(moving, vertical) }
                } else {
                    MovePlan::RigidBody(handle)
                }
            }
        },
        None => MovePlan::Unsupported,
    }
}

/// How a node is teleported.
#[derive(Debug, Clone, Copy, PartialEq, Eq)]
pub enum TeleportPlan {
    /// Set the next kinematic position of this body.
    Teleport((u32, u32)),
    /// The node has no body in the lookup table.
    NotRegistered,
    /// Nodes of this class cannot be teleported.
    Unsupported,
}

/// How a node of the named class with the given identifier is teleported.
pub open spec fn teleport_plan_of(lookups: LookupView, class_name: Seq<char>, cuid: Seq<char>) -> TeleportPlan {
    match node_class_named(class_name) {
        Some(class) => {
            if !(class == NodeClass::KinematicCharacter || class == NodeClass::PidCharacter
                || class == NodeClass::RigidBody) {
                TeleportPlan::Unsupported
            } else if lookups.godot_to_rapier.contains_key(cuid) {
                TeleportPlan::Teleport(lookups.godot_to_rapier[cuid])
            } else {
                TeleportPlan::NotRegistered
            }
        },
        None => TeleportPlan::Unsupported,
    }
}

/// A PID character always corrects its rotation; it steers along the
/// horizontal axes only while it moves, and along the vertical axis too only
/// when the movement has a vertical part.  A PID character registered in the
/// lookup table is steered along exactly those axes.
pub proof fn lemma_pid_axes_follow_movement(lookups: LookupView, cuid: Seq<char>, moving: bool, vertical: bool)
    ensures
        !moving ==> pid_axes_for(moving, vertical) == PidAxes::Angular,
        moving && !vertical ==> pid_axes_for(moving, vertical) == PidAxes::AngularAndHorizontal,
        moving && vertical ==> pid_axes_for(moving, vertical) == PidAxes::All,
        lookups.godot_to_rapier.contains_key(cuid) ==> move_plan_of(lookups, "RapierPIDCharacter3D"@, cuid, moving, vertical)
            == (MovePlan::Pid {
                handle: lookups.godot_to_rapier[cuid],
                axes: if !moving {
                    PidAxes::Angular
                } else if vertical {
                    PidAxes::All
                } else {
                    PidAxes::AngularAndHorizontal
                },
            }),
{
    reveal_strlit("RapierPIDCharacter3D");
    reveal_strlit("RapierArea3D");
    reveal_strlit("RapierCollisionShape3D");
    reveal_strlit("RapierKinematicCharacter3D");
    assert("RapierPIDCharacter3D"@.len() != "RapierArea3D"@.len());
    assert("RapierPIDCharacter3D"@.len() != "RapierCollisionShape3D"@.len());
    assert("RapierPIDCharacter3D"@.len() != "RapierKinematicCharacter3D"@.len());
    assert(node_class_named("RapierPIDCharacter3D"@) == Some(NodeClass::PidCharacter));
}

/// The PID axes for a movement.
pub fn pid_axes(moving: bool, vertical: bool) -> (r: PidAxes)
    ensures
        r == pid_axes_for(moving, vertical),
        !moving ==> r == PidAxes::Angular,
        moving && !vertical ==> r == PidAxes::AngularAndHorizontal,
        moving && vertical ==> r == PidAxes::All,
{
    if !moving {
        PidAxes::Angular
    } else if vertical {
        PidAxes::All
    } else {
        PidAxes::AngularAndHorizontal
    }
}

/// How the node of class `class_name` and identifier `cuid` follows a
/// desired movement.
pub fn plan_move(lookups: &LookupTable, class_name: &str, cuid: &str, moving: bool, vertical: bool) -> (r: MovePlan)
    ensures
        r == move_plan_of(lookups@, class_name@, cuid@, moving, vertical),
        r matches MovePlan::Pid { axes, .. } ==> {
            &&& (axes == PidAxes::Angular <==> !moving)
            &&& (axes == PidAxes::All <==> moving && vertical)
            &&& (axes == PidAxes::AngularAndHorizontal <==> moving && !vertical)
        },
{
    let class = match NodeClass::from_class_name(class_name) {
        Some(class) => class,
        None => return MovePlan::Unsupported,
    };
    if !class.is_movable() {
        return MovePlan::Unsupported;
    }
    let handle = match lookups.get_rapier_handle(cuid) {
        Some(handle) => handle,
        None => return MovePlan::NotRegistered,
    };
    match class {
        NodeClass::KinematicCharacter => MovePlan::Kinematic(handle),
        NodeClass::PidCharacter => MovePlan::Pid { handle, axes: pid_axes(moving, vertical) },
        _ => MovePlan::RigidBody(handle),
    }
}

/// How the node of class `class_name` and identifier `cuid` is teleported.
pub fn plan_teleport(lookups: &LookupTable, class_name: &str, cuid: &str) -> (r: TeleportPlan)
    ensures
        r == teleport_plan_of(lookups@, class_name@, cuid@),
{
    let class = match NodeClass::from_class_name(class_name) {
        Some(class) => class,
        None => return TeleportPlan::Unsupported,
    };
    if !class.is_movable() {
        return TeleportPlan::Unsupported;
    }
    match lookups.get_rapier_handle(cuid) {
        Some(handle) => TeleportPlan::Teleport(handle),
        None => TeleportPlan::NotRegistered,
    }
}

/// Whether a node of the given kind takes a handle of the given kind:
/// rigid bodies and characters take rigid body handles, colliders take
/// collider handles, and every node takes the invalid handle.
pub open spec fn accepts_handle(object_kind: ObjectKind, handle_kind: HandleKind) -> bool {
    handle_kind == HandleKind::Invalid || match object_kind {
        ObjectKind::RigidBody | ObjectKind::Character => handle_kind == HandleKind::RigidBodyHandle,
        ObjectKind::Collider => handle_kind == HandleKind::ColliderHandle,
        ObjectKind::Invalid => false,
    }
}

impl ObjectKind {
    /// Whether a node of this kind takes a handle of the given kind.
    pub fn accepts_handle(&self, handle_kind: HandleKind) -> (r: bool)
        ensures
            r == accepts_handle(*self, handle_kind),
    {
        match handle_kind {
            HandleKind::Invalid => true,
            HandleKind::RigidBodyHandle => match self {
                ObjectKind::RigidBody | ObjectKind::Character => true,
                _ => false,
            },
            HandleKind::ColliderHandle => match self {
                ObjectKind::Collider => true,
                _ => false,
            },
        }
    }
}

/// The node a collider now hangs under.
#[derive(Debug, Clone, Copy, PartialEq, Eq)]
pub enum ParentNode {
    /// No parent node.
    Missing,
    /// A parent that is not a rigid body.
    NotRigidBody,
    /// A rigid body with this handle; `registered` tells whether the physics
    /// world holds it.
    RigidBody { handle: (u32, u32), registered: bool },
}

/// What re-parenting a collider comes to.
#[derive(Debug, Clone, Copy, PartialEq, Eq)]
pub enum ParentDecision {
    /// The engine is not running; nothing to do.
    NoEngine,
    /// Already attached to this body.
    Unchanged,
    /// The new parent body is not in the physics world.
    InvalidParent,
    /// Re-register the collider under this body.
    Reparent((u32, u32)),
    /// Detach the collider.
    ClearParent,
}

/// A collider's parent and whether parent notifications are acted on.
#[derive(Debug, Clone, Copy, PartialEq, Eq)]
pub struct ColliderParenting {
    pub parent: Option<(u32, u32)>,
    pub notify_parent: bool,
}

impl ColliderParenting {
    /// A collider without parent that listens to parent notifications.
    pub fn new() -> (p: Self)
        ensures
            p.parent is None,
            p.notify_parent,
    {
        ColliderParenting { parent: None, notify_parent: true }
    }

    /// The collider was parented.  When listening, it stops listening and the
    /// re-parenting is deferred until the bodies are registered (`true`).
    pub fn on_parented(&mut self) -> (defer: bool)
        ensures
            defer == old(self).notify_parent,
            defer ==> !final(self).notify_parent,
            !defer ==> final(self).notify_parent == old(self).notify_parent,
            final(self).parent == old(self).parent,
    {
        if !self.notify_parent {
            return false;
        }
        self.notify_parent = false;
        true
    }

    /// The deferred re-parenting.  An unchanged parent or an unregistered
    /// body stops here, and leaves notifications off; otherwise the new
    /// parent is taken (or cleared) and notifications are back on.
    pub fn on_deferred_parented(&mut self, engine_available: bool, parent: ParentNode) -> (d: ParentDecision)
        ensures
            !engine_available ==> d == ParentDecision::NoEngine && final(self).parent == old(self).parent
                && final(self).notify_parent,
            engine_available ==> match parent {
                ParentNode::RigidBody { handle, registered } => {
                    if old(self).parent == Some(handle) {
                        d == ParentDecision::Unchanged && *final(self) == *old(self)
                    } else if !registered {
                        d == ParentDecision::InvalidParent && *final(self) == *old(self)
                    } else {
                        d == ParentDecision::Reparent(handle) && final(self).parent == Some(handle)
                            && final(self).notify_parent
                    }
                },
                _ => d == ParentDecision::ClearParent && final(self).parent is None && final(self).notify_parent,
            },
    {
        if !engine_available {
            self.notify_parent = true;
            return ParentDecision::NoEngine;
        }
        match parent {
            ParentNode::RigidBody { handle, registered } => {
                match self.parent {
                    Some(current) => {
                        if current.0 == handle.0 && current.1 == handle.1 {
                            return ParentDecision::Unchanged;
                        }
                    },
                    None => {},
                }
                if !registered {
                    return ParentDecision::InvalidParent;
                }
                self.parent = Some(handle);
                self.notify_parent = true;
                ParentDecision::Reparent(handle)
            },
            _ => {
                self.parent = None;
                self.notify_parent = true;
                ParentDecision::ClearParent
            },
        }
    }

    /// The collider was unparented.  When listening and the engine runs, the
    /// parent is cleared (`true`: detach it in the physics world).
    pub fn on_unparented(&mut self, engine_available: bool) -> (clear: bool)
        ensures
            clear == (old(self).notify_parent && engine_available),
            clear ==> final(self).parent is None,
            !clear ==> final(self).parent == old(self).parent,
            final(self).notify_parent == old(self).notify_parent,
    {
        if !self.notify_parent || !engine_available {
            return false;
        }
        self.parent = None;
        true
    }
}

} // verus!
