//! Physics object kinds, the handles that name them inside the physics
//! engine, and the conversions between them.

use crate::queue::Actionable;
use crate::text::{decimal, push_decimal, str_equal};
use vstd::prelude::*;

verus! {

/// Which physics set a handle points into.
#[derive(Debug, Clone, Copy, PartialEq, Eq, Structural)]
pub enum HandleKind {
    RigidBodyHandle,
    ColliderHandle,
    Invalid,
}

/// A physics handle: its kind and its raw `(index, generation)` parts.
#[derive(Debug, Clone, PartialEq, Eq)]
pub struct Handle {
    pub kind: HandleKind,
    pub raw: [u32; 2],
}

/// The kind of a physics object as the editor nodes know it.
#[derive(Debug, Clone, Copy, PartialEq, Eq, Hash, Structural)]
pub enum ObjectKind {
    RigidBody,
    Collider,
    Character,
    Invalid,
}

/// The pair of kinds that ties an editor object to its physics handle.
#[derive(Debug, Clone)]
pub struct ObjectBridge {
    pub handle_kind: HandleKind,
    pub object_kind: ObjectKind,
}

/// The handle that marks "no object": both raw parts at their maximum.
pub open spec fn invalid_handle() -> Handle {
    Handle { kind: HandleKind::Invalid, raw: [u32::MAX, u32::MAX] }
}

impl Handle {
    /// A handle of the given kind with the given raw parts.
    pub fn new(kind: HandleKind, raw: [u32; 2]) -> (h: Self)
        ensures
            h.kind == kind,
            h.raw == raw,
    {
        Handle { kind, raw }
    }

    /// The handle that marks "no object".
    pub fn invalid() -> (h: Self)
        ensures
            h == invalid_handle(),
    {
        Handle { kind: HandleKind::Invalid, raw: [u32::MAX, u32::MAX] }
    }

    /// The text of the raw parts, as `[index, generation]`.
    pub fn to_string(&self) -> (s: String)
        ensures
            s@ == handle_text(self.raw@),
    {
        let mut s = String::from_str("[");
        push_decimal(&mut s, self.raw[0]);
        s.append(", ");
        push_decimal(&mut s, self.raw[1]);
        s.append("]");
        proof {
            reveal_strlit("[");
            reveal_strlit(", ");
            reveal_strlit("]");
        }
        assert(s@ =~= handle_text(self.raw@));
        s
    }
}

/// `[index, generation]` with both parts in decimal.
pub open spec fn handle_text(raw: Seq<u32>) -> Seq<char> {
    seq!['['] + decimal(raw[0] as nat) + seq![',', ' '] + decimal(raw[1] as nat) + seq![']']
}

impl From<[u32; 2]> for Handle {
    fn from(raw: [u32; 2]) -> (h: Self) {
        Handle { kind: HandleKind::Invalid, raw }
    }
}

impl vstd::std_specs::convert::FromSpecImpl<[u32; 2]> for Handle {
    open spec fn obeys_from_spec() -> bool {
        true
    }

    open spec fn from_spec(raw: [u32; 2]) -> Self {
        Handle { kind: HandleKind::Invalid, raw }
    }
}

/// The handle an action carries, or the invalid handle.
pub open spec fn handle_of_actionable(a: Actionable) -> Handle {
    match a {
        Actionable::RigidBodyHandle(raw) => Handle { kind: HandleKind::RigidBodyHandle, raw },
        Actionable::ColliderHandle(raw) => Handle { kind: HandleKind::ColliderHandle, raw },
        _ => invalid_handle(),
    }
}

impl From<Actionable> for Handle {
    fn from(actionable: Actionable) -> (h: Self) {
        match actionable {
            Actionable::RigidBodyHandle(raw) => Handle { kind: HandleKind::RigidBodyHandle, raw },
            Actionable::ColliderHandle(raw) => Handle { kind: HandleKind::ColliderHandle, raw },
            _ => Handle::invalid(),
        }
    }
}

impl vstd::std_specs::convert::FromSpecImpl<Actionable> for Handle {
    open spec fn obeys_from_spec() -> bool {
        true
    }

    open spec fn from_spec(actionable: Actionable) -> Self {
        handle_of_actionable(actionable)
    }
}

/// The handle kind used for objects of a given kind; characters are rigid bodies.
pub open spec fn handle_kind_of(k: ObjectKind) -> HandleKind {
    match k {
        ObjectKind::RigidBody | ObjectKind::Character => HandleKind::RigidBodyHandle,
        ObjectKind::Collider => HandleKind::ColliderHandle,
        ObjectKind::Invalid => HandleKind::Invalid,
    }
}

impl From<ObjectKind> for HandleKind {
    fn from(object_kind: ObjectKind) -> (r: Self) {
        HandleKind::from(&object_kind)
    }
}

impl vstd::std_specs::convert::FromSpecImpl<ObjectKind> for HandleKind {
    open spec fn obeys_from_spec() -> bool {
        true
    }

    open spec fn from_spec(object_kind: ObjectKind) -> Self {
        handle_kind_of(object_kind)
    }
}

impl<'a> From<&'a ObjectKind> for HandleKind {
    fn from(object_kind: &'a ObjectKind) -> (r: Self) {
        match object_kind {
            ObjectKind::RigidBody | ObjectKind::Character => HandleKind::RigidBodyHandle,
            ObjectKind::Collider => HandleKind::ColliderHandle,
            ObjectKind::Invalid => HandleKind::Invalid,
        }
    }
}

impl<'a> vstd::std_specs::convert::FromSpecImpl<&'a ObjectKind> for HandleKind {
    open spec fn obeys_from_spec() -> bool {
        true
    }

    open spec fn from_spec(object_kind: &'a ObjectKind) -> Self {
        handle_kind_of(*object_kind)
    }
}

/// The object kind named by an editor class name.
pub open spec fn object_kind_named(name: Seq<char>) -> ObjectKind {
    if name == "RigidBody"@ || name == "RapierRigidBody3D"@ {
        ObjectKind::RigidBody
    } else if name == "Collider"@ || name == "RapierCollider3D"@ {
        ObjectKind::Collider
    } else if name == "Character"@ || name == "RapierCharacterBody3D"@ {
        ObjectKind::Character
    } else {
        ObjectKind::Invalid
    }
}

impl<'a> From<&'a str> for ObjectKind {
    fn from(kind: &'a str) -> (r: Self) {
        if str_equal(kind, "RigidBody") || str_equal(kind, "RapierRigidBody3D") {
            ObjectKind::RigidBody
        } else if str_equal(kind, "Collider") || str_equal(kind, "RapierCollider3D") {
            ObjectKind::Collider
        } else if str_equal(kind, "Character") || str_equal(kind, "RapierCharacterBody3D") {
            ObjectKind::Character
        } else {
            ObjectKind::Invalid
        }
    }
}

impl<'a> vstd::std_specs::convert::FromSpecImpl<&'a str> for ObjectKind {
    open spec fn obeys_from_spec() -> bool {
        true
    }

    open spec fn from_spec(kind: &'a str) -> Self {
        object_kind_named(kind@)
    }
}

/// The kind of object an action is about.
pub open spec fn object_kind_of_actionable(a: Actionable) -> ObjectKind {
    match a {
        Actionable::RigidBody | Actionable::RigidBodyHandle(_) => ObjectKind::RigidBody,
        Actionable::Collider
        | Actionable::ColliderWithParent(_)
        | Actionable::ColliderIDWithParentID(_, _)
        | Actionable::ColliderHandle(_)
        | Actionable::ColliderShape => ObjectKind::Collider,
        Actionable::NodePos(kind) => kind,
        Actionable::Character | Actionable::MoveCharacter { .. } => ObjectKind::Character,
        Actionable::Invalid | Actionable::Step => ObjectKind::Invalid,
    }
}

impl<'a> From<&'a Actionable> for ObjectKind {
    fn from(actionable: &'a Actionable) -> (r: Self) {
        match actionable {
            Actionable::RigidBody | Actionable::RigidBodyHandle(_) => ObjectKind::RigidBody,
            Actionable::Collider
            | Actionable::ColliderWithParent(_)
            | Actionable::ColliderIDWithParentID(_, _)
            | Actionable::ColliderHandle(_)
            | Actionable::ColliderShape => ObjectKind::Collider,
            Actionable::NodePos(kind) => *kind,
            Actionable::Character | Actionable::MoveCharacter { .. } => ObjectKind::Character,
            Actionable::Invalid | Actionable::Step => ObjectKind::Invalid,
        }
    }
}

impl<'a> vstd::std_specs::convert::FromSpecImpl<&'a Actionable> for ObjectKind {
    open spec fn obeys_from_spec() -> bool {
        true
    }

    open spec fn from_spec(actionable: &'a Actionable) -> Self {
        object_kind_of_actionable(*actionable)
    }
}

/// The object kind that a handle kind points at.
pub open spec fn object_kind_of_handle(h: HandleKind) -> ObjectKind {
    match h {
        HandleKind::RigidBodyHandle => ObjectKind::RigidBody,
        HandleKind::ColliderHandle => ObjectKind::Collider,
        HandleKind::Invalid => ObjectKind::Invalid,
    }
}

impl From<HandleKind> for ObjectKind {
    fn from(handle_kind: HandleKind) -> (r: Self) {
        match handle_kind {
            HandleKind::RigidBodyHandle => ObjectKind::RigidBody,
            HandleKind::ColliderHandle => ObjectKind::Collider,
            HandleKind::Invalid => ObjectKind::Invalid,
        }
    }
}

impl vstd::std_specs::convert::FromSpecImpl<HandleKind> for ObjectKind {
    open spec fn obeys_from_spec() -> bool {
        true
    }

    open spec fn from_spec(handle_kind: HandleKind) -> Self {
        object_kind_of_handle(handle_kind)
    }
}

/// The name under which an object kind is shown.
pub open spec fn object_kind_text(k: ObjectKind) -> Seq<char> {
    match k {
        ObjectKind::RigidBody => "RigidBody"@,
        ObjectKind::Collider => "Collider"@,
        ObjectKind::Character => "Character"@,
        ObjectKind::Invalid => "Invalid"@,
    }
}

impl ObjectKind {
    /// The name under which this kind is shown.
    pub fn to_string(&self) -> (s: String)
        ensures
            s@ == object_kind_text(*self),
    {
        match self {
            ObjectKind::RigidBody => String::from_str("RigidBody"),
            ObjectKind::Collider => String::from_str("Collider"),
            ObjectKind::Character => String::from_str("Character"),
            ObjectKind::Invalid => String::from_str("Invalid"),
        }
    }
}

/// The bridge for an object kind: the invalid bridge for the invalid kind.
pub open spec fn bridge_of_object_kind(k: ObjectKind) -> ObjectBridge {
    ObjectBridge { handle_kind: handle_kind_of(k), object_kind: k }
}

impl ObjectBridge {
    /// The bridge of no object.
    pub fn invalid() -> (b: ObjectBridge)
        ensures
            b.handle_kind == HandleKind::Invalid,
            b.object_kind == ObjectKind::Invalid,
    {
        ObjectBridge { handle_kind: HandleKind::Invalid, object_kind: ObjectKind::Invalid }
    }
}

impl From<ObjectKind> for ObjectBridge {
    fn from(object_kind: ObjectKind) -> (b: Self) {
        match object_kind {
            ObjectKind::RigidBody => ObjectBridge {
                handle_kind: HandleKind::RigidBodyHandle,
                object_kind,
            },
            ObjectKind::Collider => ObjectBridge {
                handle_kind: HandleKind::ColliderHandle,
                object_kind,
            },
            ObjectKind::Character => ObjectBridge {
                handle_kind: HandleKind::RigidBodyHandle,
                object_kind,
            },
            ObjectKind::Invalid => ObjectBridge::invalid(),
        }
    }
}

impl vstd::std_specs::convert::FromSpecImpl<ObjectKind> for ObjectBridge {
    open spec fn obeys_from_spec() -> bool {
        true
    }

    open spec fn from_spec(object_kind: ObjectKind) -> Self {
        bridge_of_object_kind(object_kind)
    }
}

impl From<HandleKind> for ObjectBridge {
    fn from(handle_kind: HandleKind) -> (b: Self) {
        match handle_kind {
            HandleKind::RigidBodyHandle => ObjectBridge::from(ObjectKind::RigidBody),
            HandleKind::ColliderHandle => ObjectBridge::from(ObjectKind::Collider),
            HandleKind::Invalid => ObjectBridge::invalid(),
        }
    }
}

impl vstd::std_specs::convert::FromSpecImpl<HandleKind> for ObjectBridge {
    open spec fn obeys_from_spec() -> bool {
        true
    }

    open spec fn from_spec(handle_kind: HandleKind) -> Self {
        bridge_of_object_kind(object_kind_of_handle(handle_kind))
    }
}

/// The bridge for the object an action is about; characters are not told
/// apart here, step and invalid actions have the invalid bridge.
pub open spec fn bridge_of_actionable(a: Actionable) -> ObjectBridge {
    match a {
        Actionable::RigidBody | Actionable::RigidBodyHandle(_) => bridge_of_object_kind(
            ObjectKind::RigidBody,
        ),
        Actionable::Collider
        | Actionable::ColliderWithParent(_)
        | Actionable::ColliderIDWithParentID(_, _)
        | Actionable::ColliderHandle(_)
        | Actionable::ColliderShape => bridge_of_object_kind(ObjectKind::Collider),
        Actionable::NodePos(kind) => bridge_of_object_kind(kind),
        Actionable::Character | Actionable::MoveCharacter { .. } => bridge_of_object_kind(
            ObjectKind::Character,
        ),
        Actionable::Invalid | Actionable::Step => bridge_of_object_kind(ObjectKind::Invalid),
    }
}

impl<'a> From<&'a Actionable> for ObjectBridge {
    fn from(actionable: &'a Actionable) -> (b: Self) {
        match actionable {
            Actionable::RigidBody | Actionable::RigidBodyHandle(_) => {
                ObjectBridge::from(ObjectKind::RigidBody)
            },
            Actionable::Collider
            | Actionable::ColliderWithParent(_)
            | Actionable::ColliderIDWithParentID(_, _)
            | Actionable::ColliderHandle(_)
            | Actionable::ColliderShape => ObjectBridge::from(ObjectKind::Collider),
            Actionable::NodePos(kind) => ObjectBridge::from(*kind),
            Actionable::Character | Actionable::MoveCharacter { .. } => {
                ObjectBridge::from(ObjectKind::Character)
            },
            Actionable::Invalid => ObjectBridge::invalid(),
            Actionable::Step => ObjectBridge::invalid(),
        }
    }
}

impl<'a> vstd::std_specs::convert::FromSpecImpl<&'a Actionable> for ObjectBridge {
    open spec fn obeys_from_spec() -> bool {
        true
    }

    open spec fn from_spec(actionable: &'a Actionable) -> Self {
        bridge_of_actionable(*actionable)
    }
}


/// The kinds of rollback nodes that the editor offers.
#[derive(Debug, Clone, Copy, PartialEq, Eq, Structural)]
pub enum RollbackNodeClass {
    RollbackArea3D,
    RollbackCollisionShape3D,
    RollbackKinematicCharacter3D,
    RollbackPIDCharacter3D,
    RollbackRigidBody3D,
    RollbackStaticBody3D,
}

/// The rollback node class named by an editor class name.
pub open spec fn rollback_class_named(name: Seq<char>) -> Option<RollbackNodeClass> {
    if name == "RollbackArea3D"@ {
        Some(RollbackNodeClass::RollbackArea3D)
    } else if name == "RollbackCollisionShape3D"@ {
        Some(RollbackNodeClass::RollbackCollisionShape3D)
    } else if name == "RollbackKinematicCharacter3D"@ {
        Some(RollbackNodeClass::RollbackKinematicCharacter3D)
    } else if name == "RollbackPIDCharacter3D"@ {
        Some(RollbackNodeClass::RollbackPIDCharacter3D)
    } else if name == "RollbackRigidBody3D"@ {
        Some(RollbackNodeClass::RollbackRigidBody3D)
    } else if name == "RollbackStaticBody3D"@ {
        Some(RollbackNodeClass::RollbackStaticBody3D)
    } else {
        None
    }
}

/// The word that names a rollback node class inside its editor class name.
pub open spec fn rollback_class_word(c: RollbackNodeClass) -> Seq<char> {
    match c {
        RollbackNodeClass::RollbackArea3D => "Area"@,
        RollbackNodeClass::RollbackCollisionShape3D => "CollisionShape"@,
        RollbackNodeClass::RollbackKinematicCharacter3D => "KinematicCharacter"@,
        RollbackNodeClass::RollbackPIDCharacter3D => "PIDCharacter"@,
        RollbackNodeClass::RollbackRigidBody3D => "RigidBody"@,
        RollbackNodeClass::RollbackStaticBody3D => "StaticBody"@,
    }
}

/// The editor class name of a rollback node class: `Rollback`, the class's
/// word, `3D`.
pub open spec fn rollback_class_name(c: RollbackNodeClass) -> Seq<char> {
    "Rollback"@ + rollback_class_word(c) + "3D"@
}

/// Each rollback node class is read back from its own editor class name, and
/// a name that reads as a class is that class's name.
pub proof fn lemma_rollback_class_name_round_trip(c: RollbackNodeClass, name: Seq<char>)
    ensures
        rollback_class_named(rollback_class_name(c)) == Some(c),
        rollback_class_named(name) == Some(c) <==> name == rollback_class_name(c),
        rollback_class_named(name) is None <==> (forall|d: RollbackNodeClass| name != rollback_class_name(d)),
{
    reveal_strlit("Rollback");
    reveal_strlit("3D");
    reveal_strlit("Area");
    reveal_strlit("CollisionShape");
    reveal_strlit("KinematicCharacter");
    reveal_strlit("PIDCharacter");
    reveal_strlit("RigidBody");
    reveal_strlit("StaticBody");
    reveal_strlit("RollbackArea3D");
    reveal_strlit("RollbackCollisionShape3D");
    reveal_strlit("RollbackKinematicCharacter3D");
    reveal_strlit("RollbackPIDCharacter3D");
    reveal_strlit("RollbackRigidBody3D");
    reveal_strlit("RollbackStaticBody3D");
    assert(rollback_class_name(RollbackNodeClass::RollbackArea3D) =~= "RollbackArea3D"@);
    assert(rollback_class_name(RollbackNodeClass::RollbackCollisionShape3D) =~= "RollbackCollisionShape3D"@);
    assert(rollback_class_name(RollbackNodeClass::RollbackKinematicCharacter3D)
        =~= "RollbackKinematicCharacter3D"@);
    assert(rollback_class_name(RollbackNodeClass::RollbackPIDCharacter3D) =~= "RollbackPIDCharacter3D"@);
    assert(rollback_class_name(RollbackNodeClass::RollbackRigidBody3D) =~= "RollbackRigidBody3D"@);
    assert(rollback_class_name(RollbackNodeClass::RollbackStaticBody3D) =~= "RollbackStaticBody3D"@);
    if rollback_class_named(name) is None {
        assert forall|d: RollbackNodeClass| name != rollback_class_name(d) by {
            match d {
                RollbackNodeClass::RollbackArea3D => {},
                RollbackNodeClass::RollbackCollisionShape3D => {},
                RollbackNodeClass::RollbackKinematicCharacter3D => {},
                RollbackNodeClass::RollbackPIDCharacter3D => {},
                RollbackNodeClass::RollbackRigidBody3D => {},
                RollbackNodeClass::RollbackStaticBody3D => {},
            }
        }
    } else {
        let d = rollback_class_named(name).unwrap();
        assert(name == rollback_class_name(d));
    }
}

/// What reading a rollback node class name gives.
pub open spec fn rollback_class_result(name: Seq<char>) -> Result<RollbackNodeClass, &'static str> {
    match rollback_class_named(name) {
        Some(c) => Ok(c),
        None => Err("Unknown RollbackNode class"),
    }
}

impl<'a> TryFrom<&'a str> for RollbackNodeClass {
    type Error = &'static str;

    /// The class named by an editor class name, or an error for unknown names.
    fn try_from(value: &'a str) -> (r: Result<Self, &'static str>)
        ensures
            r matches Ok(c) ==> value@ == rollback_class_name(c),
            r is Err <==> (forall|c: RollbackNodeClass| value@ != rollback_class_name(c)),
    {
        proof {
            lemma_rollback_class_name_round_trip(RollbackNodeClass::RollbackArea3D, value@);
            lemma_rollback_class_name_round_trip(RollbackNodeClass::RollbackCollisionShape3D, value@);
            lemma_rollback_class_name_round_trip(RollbackNodeClass::RollbackKinematicCharacter3D, value@);
            lemma_rollback_class_name_round_trip(RollbackNodeClass::RollbackPIDCharacter3D, value@);
            lemma_rollback_class_name_round_trip(RollbackNodeClass::RollbackRigidBody3D, value@);
            lemma_rollback_class_name_round_trip(RollbackNodeClass::RollbackStaticBody3D, value@);
        }
        if str_equal(value, "RollbackArea3D") {
            Ok(RollbackNodeClass::RollbackArea3D)
        } else if str_equal(value, "RollbackCollisionShape3D") {
            Ok(RollbackNodeClass::RollbackCollisionShape3D)
        } else if str_equal(value, "RollbackKinematicCharacter3D") {
            Ok(RollbackNodeClass::RollbackKinematicCharacter3D)
        } else if str_equal(value, "RollbackPIDCharacter3D") {
            Ok(RollbackNodeClass::RollbackPIDCharacter3D)
        } else if str_equal(value, "RollbackRigidBody3D") {
            Ok(RollbackNodeClass::RollbackRigidBody3D)
        } else if str_equal(value, "RollbackStaticBody3D") {
            Ok(RollbackNodeClass::RollbackStaticBody3D)
        } else {
            Err("Unknown RollbackNode class")
        }
    }
}

impl<'a> vstd::std_specs::convert::TryFromSpecImpl<&'a str> for RollbackNodeClass {
    open spec fn obeys_try_from_spec() -> bool {
        true
    }

    open spec fn try_from_spec(value: &'a str) -> Result<Self, &'static str> {
        rollback_class_result(value@)
    }
}

/// The shapes a collider can take.
#[derive(Debug, Clone, Copy, PartialEq, Eq, Structural)]
pub enum ColliderShapeType {
    Box,
    Capsule,
    Cylinder,
    Sphere,
}

/// The collider shape named by a shape resource class name.
pub open spec fn shape_type_named(name: Seq<char>) -> Option<ColliderShapeType> {
    if name == "RapierBoxShape3D"@ {
        Some(ColliderShapeType::Box)
    } else if name == "RapierCapsuleShape3D"@ {
        Some(ColliderShapeType::Capsule)
    } else if name == "RapierCylinderShape3D"@ {
        Some(ColliderShapeType::Cylinder)
    } else if name == "RapierSphereShape3D"@ {
        Some(ColliderShapeType::Sphere)
    } else {
        None
    }
}

/// The word that names a shape inside its resource class name.
pub open spec fn shape_word(c: ColliderShapeType) -> Seq<char> {
    match c {
        ColliderShapeType::Box => "Box"@,
        ColliderShapeType::Capsule => "Capsule"@,
        ColliderShapeType::Cylinder => "Cylinder"@,
        ColliderShapeType::Sphere => "Sphere"@,
    }
}

/// The resource class name of a shape: `Rapier`, the shape's word, `Shape3D`.
pub open spec fn shape_class_name(c: ColliderShapeType) -> Seq<char> {
    "Rapier"@ + shape_word(c) + "Shape3D"@
}

/// Each shape is read back from its own class name, and a class name that
/// reads as a shape is that shape's class name.
pub proof fn lemma_shape_class_name_round_trip(c: ColliderShapeType, name: Seq<char>)
    ensures
        shape_type_named(shape_class_name(c)) == Some(c),
        shape_type_named(name) == Some(c) <==> name == shape_class_name(c),
        shape_type_named(name) is None <==> (forall|d: ColliderShapeType| name != shape_class_name(d)),
{
    reveal_strlit("Rapier");
    reveal_strlit("Shape3D");
    reveal_strlit("Box");
    reveal_strlit("Capsule");
    reveal_strlit("Cylinder");
    reveal_strlit("Sphere");
    reveal_strlit("RapierBoxShape3D");
    reveal_strlit("RapierCapsuleShape3D");
    reveal_strlit("RapierCylinderShape3D");
    reveal_strlit("RapierSphereShape3D");
    assert(shape_class_name(ColliderShapeType::Box) =~= "RapierBoxShape3D"@);
    assert(shape_class_name(ColliderShapeType::Capsule) =~= "RapierCapsuleShape3D"@);
    assert(shape_class_name(ColliderShapeType::Cylinder) =~= "RapierCylinderShape3D"@);
    assert(shape_class_name(ColliderShapeType::Sphere) =~= "RapierSphereShape3D"@);
    assert("RapierBoxShape3D"@.len() == 16);
    assert("RapierCapsuleShape3D"@.len() == 20);
    assert("RapierCylinderShape3D"@.len() == 21);
    assert("RapierSphereShape3D"@.len() == 19);
    if shape_type_named(name) is None {
        assert forall|d: ColliderShapeType| name != shape_class_name(d) by {
            match d {
                ColliderShapeType::Box => {},
                ColliderShapeType::Capsule => {},
                ColliderShapeType::Cylinder => {},
                ColliderShapeType::Sphere => {},
            }
        }
    } else {
        let d = shape_type_named(name).unwrap();
        assert(name == shape_class_name(d));
    }
}

impl ColliderShapeType {
    /// The shape named by a shape resource class name, or an error that
    /// quotes the unknown name.
    pub fn from_class_name(shape: &str) -> (r: Result<Self, String>)
        ensures
            r matches Ok(c) ==> shape_type_named(shape@) == Some(c),
            r matches Ok(c) ==> shape@ == shape_class_name(c),
            r is Err <==> shape_type_named(shape@) is None,
            r is Err <==> (forall|c: ColliderShapeType| shape@ != shape_class_name(c)),
            r matches Err(e) ==> e@ == "Unknown shape type "@ + shape@,
    {
        proof {
            lemma_shape_class_name_round_trip(ColliderShapeType::Box, shape@);
            lemma_shape_class_name_round_trip(ColliderShapeType::Capsule, shape@);
            lemma_shape_class_name_round_trip(ColliderShapeType::Cylinder, shape@);
            lemma_shape_class_name_round_trip(ColliderShapeType::Sphere, shape@);
        }
        if str_equal(shape, "RapierBoxShape3D") {
            Ok(ColliderShapeType::Box)
        } else if str_equal(shape, "RapierCapsuleShape3D") {
            Ok(ColliderShapeType::Capsule)
        } else if str_equal(shape, "RapierCylinderShape3D") {
            Ok(ColliderShapeType::Cylinder)
        } else if str_equal(shape, "RapierSphereShape3D") {
            Ok(ColliderShapeType::Sphere)
        } else {
            Err(String::from_str("Unknown shape type ").concat(shape))
        }
    }
}

/// A handle kind names the object kind it points at, and back.
pub proof fn lemma_handle_kind_round_trip(h: HandleKind)
    ensures
        handle_kind_of(object_kind_of_handle(h)) == h,
{
}

/// Object kinds survive the trip through handle kinds, except characters,
/// which come back as rigid bodies.
pub proof fn lemma_object_kind_round_trip(k: ObjectKind)
    ensures
        k != ObjectKind::Character ==> object_kind_of_handle(handle_kind_of(k)) == k,
        k == ObjectKind::Character ==> object_kind_of_handle(handle_kind_of(k)) == ObjectKind::RigidBody,
{
}

/// The bridge of an action pairs its object kind with that kind's handle kind.
pub proof fn lemma_bridge_consistent(a: Actionable)
    ensures
        bridge_of_actionable(a) == bridge_of_object_kind(object_kind_of_actionable(a)),
        bridge_of_actionable(a).handle_kind == handle_kind_of(bridge_of_actionable(a).object_kind),
{
}

/// Reading back the shown name of an object kind gives the kind.
pub proof fn lemma_object_kind_name_round_trip(k: ObjectKind)
    ensures
        object_kind_named(object_kind_text(k)) == k,
{
    reveal_strlit("RigidBody");
    reveal_strlit("RapierRigidBody3D");
    reveal_strlit("Collider");
    reveal_strlit("RapierCollider3D");
    reveal_strlit("Character");
    reveal_strlit("RapierCharacterBody3D");
    reveal_strlit("Invalid");
    assert("Collider"@[0] != "RigidBody"@[0] && "Collider"@[0] != "RapierRigidBody3D"@[0]);
    assert("Character"@[0] != "RigidBody"@[0] && "Character"@[0] != "RapierRigidBody3D"@[0]);
    assert("Character"@[1] != "Collider"@[1] && "Character"@[0] != "RapierCollider3D"@[0]);
    assert("Invalid"@[0] != "RigidBody"@[0] && "Invalid"@[0] != "RapierRigidBody3D"@[0]);
    assert("Invalid"@[0] != "Collider"@[0] && "Invalid"@[0] != "RapierCollider3D"@[0]);
    assert("Invalid"@[0] != "Character"@[0] && "Invalid"@[0] != "RapierCharacterBody3D"@[0]);
    assert("Collider"@ != "RigidBody"@ && "Collider"@ != "RapierRigidBody3D"@);
    assert("Character"@ != "RigidBody"@ && "Character"@ != "RapierRigidBody3D"@);
    assert("Character"@ != "Collider"@ && "Character"@ != "RapierCollider3D"@);
    assert("Invalid"@ != "RigidBody"@ && "Invalid"@ != "RapierRigidBody3D"@);
    assert("Invalid"@ != "Collider"@ && "Invalid"@ != "RapierCollider3D"@);
    assert("Invalid"@ != "Character"@ && "Invalid"@ != "RapierCharacterBody3D"@);
}

} // verus!
