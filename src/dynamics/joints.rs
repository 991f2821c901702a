//! Joints: constraints that connect two bodies.
use crate::dynamics::world::{BodyHandle, JointHandle};
use crate::user_data::{InternalUserData, UserData, UserDataTypes};
use vstd::prelude::*;

verus! {

/// The kind of a joint, as the engine reports it.
#[derive(Clone, Copy, Debug, PartialEq, Eq, Structural)]
pub enum JointType {
    Unknown,
    Revolute,
    Prismatic,
    Distance,
    Pulley,
    Mouse,
    Gear,
    Wheel,
    Weld,
    Friction,
    Rope,
    Motor,
}

/// Where a joint stands against its limits.
#[derive(Clone, Copy, Debug, PartialEq, Eq, Structural)]
pub enum LimitState {
    Inactive,
    Lower,
    Upper,
    Equal,
}

/// A joint of one of the known kinds, or of none.
#[derive(Clone, Copy, Debug, PartialEq, Eq, Structural)]
pub enum UnknownJoint {
    Unknown,
    Revolute,
    Prismatic,
    Distance,
    Pulley,
    Mouse,
    Gear,
    Wheel,
    Weld,
    Friction,
    Rope,
    Motor,
}

impl UnknownJoint {
    /// The joint kind that `t` names.
    pub open spec fn spec_from_type(t: JointType) -> UnknownJoint {
        match t {
            JointType::Unknown => UnknownJoint::Unknown,
            JointType::Revolute => UnknownJoint::Revolute,
            JointType::Prismatic => UnknownJoint::Prismatic,
            JointType::Distance => UnknownJoint::Distance,
            JointType::Pulley => UnknownJoint::Pulley,
            JointType::Mouse => UnknownJoint::Mouse,
            JointType::Gear => UnknownJoint::Gear,
            JointType::Wheel => UnknownJoint::Wheel,
            JointType::Weld => UnknownJoint::Weld,
            JointType::Friction => UnknownJoint::Friction,
            JointType::Rope => UnknownJoint::Rope,
            JointType::Motor => UnknownJoint::Motor,
        }
    }

    /// The type tag of this joint kind.
    pub open spec fn spec_type(self) -> JointType {
        match self {
            UnknownJoint::Unknown => JointType::Unknown,
            UnknownJoint::Revolute => JointType::Revolute,
            UnknownJoint::Prismatic => JointType::Prismatic,
            UnknownJoint::Distance => JointType::Distance,
            UnknownJoint::Pulley => JointType::Pulley,
            UnknownJoint::Mouse => JointType::Mouse,
            UnknownJoint::Gear => JointType::Gear,
            UnknownJoint::Wheel => JointType::Wheel,
            UnknownJoint::Weld => JointType::Weld,
            UnknownJoint::Friction => JointType::Friction,
            UnknownJoint::Rope => JointType::Rope,
            UnknownJoint::Motor => JointType::Motor,
        }
    }

    /// Picks the variant for the type tag read back from a new joint.
    pub fn from_type(t: JointType) -> (r: UnknownJoint)
        ensures
            r == Self::spec_from_type(t),
    {
        match t {
            JointType::Unknown => UnknownJoint::Unknown,
            JointType::Revolute => UnknownJoint::Revolute,
            JointType::Prismatic => UnknownJoint::Prismatic,
            JointType::Distance => UnknownJoint::Distance,
            JointType::Pulley => UnknownJoint::Pulley,
            JointType::Mouse => UnknownJoint::Mouse,
            JointType::Gear => UnknownJoint::Gear,
            JointType::Wheel => UnknownJoint::Wheel,
            JointType::Weld => UnknownJoint::Weld,
            JointType::Friction => UnknownJoint::Friction,
            JointType::Rope => UnknownJoint::Rope,
            JointType::Motor => UnknownJoint::Motor,
        }
    }

    pub fn get_type(&self) -> (r: JointType)
        ensures
            r == self.spec_type(),
    {
        match self {
            UnknownJoint::Unknown => JointType::Unknown,
            UnknownJoint::Revolute => JointType::Revolute,
            UnknownJoint::Prismatic => JointType::Prismatic,
            UnknownJoint::Distance => JointType::Distance,
            UnknownJoint::Pulley => JointType::Pulley,
            UnknownJoint::Mouse => JointType::Mouse,
            UnknownJoint::Gear => JointType::Gear,
            UnknownJoint::Wheel => JointType::Wheel,
            UnknownJoint::Weld => JointType::Weld,
            UnknownJoint::Friction => JointType::Friction,
            UnknownJoint::Rope => JointType::Rope,
            UnknownJoint::Motor => JointType::Motor,
        }
    }
}

/// What a joint is made from: its kind and the two bodies it connects.
#[derive(Clone, Copy)]
pub struct JointDef {
    pub joint_type: JointType,
    pub body_a: BodyHandle,
    pub body_b: BodyHandle,
    /// Whether the two connected bodies still collide with each other.
    pub collide_connected: bool,
}

impl JointDef {
    pub fn new(joint_type: JointType, body_a: BodyHandle, body_b: BodyHandle) -> (r: JointDef)
        ensures
            r.joint_type == joint_type,
            r.body_a == body_a,
            r.body_b == body_b,
            !r.collide_connected,
    {
        JointDef { joint_type, body_a, body_b, collide_connected: false }
    }
}

/// The state of one joint.
#[derive(Debug)]
pub struct Joint {
    pub(crate) kind: UnknownJoint,
    pub(crate) body_a: BodyHandle,
    pub(crate) body_b: BodyHandle,
    pub(crate) collide_connected: bool,
}

impl Joint {
    pub open(crate) spec fn spec_kind(&self) -> UnknownJoint {
        self.kind
    }

    pub open(crate) spec fn spec_body_a(&self) -> BodyHandle {
        self.body_a
    }

    pub open(crate) spec fn spec_body_b(&self) -> BodyHandle {
        self.body_b
    }

    pub open(crate) spec fn spec_collide_connected(&self) -> bool {
        self.collide_connected
    }

    /// `x` and `y` are the two bodies of this joint, in either order.
    pub open spec fn links(&self, x: BodyHandle, y: BodyHandle) -> bool {
        ||| (self.spec_body_a() == x && self.spec_body_b() == y)
        ||| (self.spec_body_b() == x && self.spec_body_a() == y)
    }

    /// `x` is one of the two bodies of this joint.
    pub open spec fn attached_to(&self, x: BodyHandle) -> bool {
        self.spec_body_a() == x || self.spec_body_b() == x
    }

    pub fn kind(&self) -> (r: UnknownJoint)
        ensures
            r == self.spec_kind(),
    {
        self.kind
    }

    pub fn get_type(&self) -> (r: JointType)
        ensures
            r == self.spec_kind().spec_type(),
    {
        self.kind.get_type()
    }

    pub fn body_a(&self) -> (r: BodyHandle)
        ensures
            r == self.spec_body_a(),
    {
        self.body_a
    }

    pub fn body_b(&self) -> (r: BodyHandle)
        ensures
            r == self.spec_body_b(),
    {
        self.body_b
    }

    pub fn is_collide_connected(&self) -> (r: bool)
        ensures
            r == self.spec_collide_connected(),
    {
        self.collide_connected
    }
}

/// A joint together with its handle and the caller's data.
pub struct MetaJoint<U: UserDataTypes> {
    pub(crate) joint: Joint,
    pub(crate) user_data: InternalUserData<Joint, U::JointData>,
}

impl<U: UserDataTypes> MetaJoint<U> {
    pub open(crate) spec fn spec_handle(&self) -> JointHandle {
        self.user_data.handle
    }

    pub open(crate) spec fn spec_custom(&self) -> U::JointData {
        self.user_data.custom
    }

    pub open(crate) spec fn spec_joint(&self) -> Joint {
        self.joint
    }

    /// Builds the joint that `def` describes, reached by `handle`; its kind
    /// is the one the tag of `def` names.
    pub(crate) fn new(def: &JointDef, handle: JointHandle, custom: U::JointData) -> (r: Self)
        ensures
            r.spec_handle() == handle,
            r.user_data.custom == custom,
            r.joint.kind == UnknownJoint::spec_from_type(def.joint_type),
            r.joint.body_a == def.body_a,
            r.joint.body_b == def.body_b,
            r.joint.collide_connected == def.collide_connected,
    {
        MetaJoint {
            joint: Joint {
                kind: UnknownJoint::from_type(def.joint_type),
                body_a: def.body_a,
                body_b: def.body_b,
                collide_connected: def.collide_connected,
            },
            user_data: InternalUserData { handle, custom },
        }
    }

    /// The handle this joint is reached by.
    pub fn handle(&self) -> (r: JointHandle)
        ensures
            r == self.spec_handle(),
    {
        self.user_data.handle
    }

    pub fn joint(&self) -> (r: &Joint)
        ensures
            *r == self.spec_joint(),
    {
        &self.joint
    }
}

impl<U: UserDataTypes> UserData<U::JointData> for MetaJoint<U> {
    open spec fn spec_user_data(&self) -> U::JointData {
        self.spec_custom()
    }

    fn user_data(&self) -> (r: &U::JointData) {
        &self.user_data.custom
    }

    fn user_data_mut(&mut self) -> (r: &mut U::JointData) {
        &mut self.user_data.custom
    }
}

/// No joint has two entries in `s`.
pub open spec fn joint_entries_distinct(s: Seq<JointEdge>) -> bool {
    forall|k1: int, k2: int| 0 <= k1 < k2 < s.len() ==> s[k1].joint != s[k2].joint
}

/// One entry of a body's joint list: a joint of the body and the body at
/// its other end.
#[derive(Clone, Copy, Debug)]
pub struct JointEdge {
    pub other: BodyHandle,
    pub joint: JointHandle,
}

} // verus!
