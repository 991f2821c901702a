//! Contacts: pairs of fixtures of two bodies whose shapes touch.
use crate::dynamics::fixture::FixtureHandle;
use crate::dynamics::world::{BodyHandle, ContactHandle};
use vstd::prelude::*;

verus! {

/// A contact between a fixture of one body and a fixture of another.
#[derive(Debug)]
pub struct Contact {
    pub(crate) body_a: BodyHandle,
    pub(crate) fixture_a: FixtureHandle,
    pub(crate) body_b: BodyHandle,
    pub(crate) fixture_b: FixtureHandle,
    pub(crate) enabled: bool,
}

impl Contact {
    pub open(crate) spec fn spec_body_a(&self) -> BodyHandle {
        self.body_a
    }

    pub open(crate) spec fn spec_body_b(&self) -> BodyHandle {
        self.body_b
    }

    pub open(crate) spec fn spec_fixture_a(&self) -> FixtureHandle {
        self.fixture_a
    }

    pub open(crate) spec fn spec_fixture_b(&self) -> FixtureHandle {
        self.fixture_b
    }

    pub open(crate) spec fn spec_enabled(&self) -> bool {
        self.enabled
    }

    /// `x` and `y` are the two bodies of this contact, in either order.
    pub open spec fn links(&self, x: BodyHandle, y: BodyHandle) -> bool {
        ||| (self.spec_body_a() == x && self.spec_body_b() == y)
        ||| (self.spec_body_b() == x && self.spec_body_a() == y)
    }

    /// `x` is one of the two bodies of this contact.
    pub open spec fn attached_to(&self, x: BodyHandle) -> bool {
        self.spec_body_a() == x || self.spec_body_b() == x
    }

    /// Fixture `f` of body `b` is one side of this contact.
    pub open spec fn touches(&self, b: BodyHandle, f: FixtureHandle) -> bool {
        ||| (self.spec_body_a() == b && self.spec_fixture_a() == f)
        ||| (self.spec_body_b() == b && self.spec_fixture_b() == f)
    }

    /// Whether fixture `f` of body `b` is one side of this contact.
    pub fn is_touching(&self, b: BodyHandle, f: FixtureHandle) -> (r: bool)
        ensures
            r == self.touches(b, f),
    {
        (self.body_a == b && self.fixture_a == f) || (self.body_b == b && self.fixture_b == f)
    }

    /// The first body and its fixture.
    pub fn fixture_a(&self) -> (r: (BodyHandle, FixtureHandle))
        ensures
            r == (self.spec_body_a(), self.spec_fixture_a()),
    {
        (self.body_a, self.fixture_a)
    }

    /// The second body and its fixture.
    pub fn fixture_b(&self) -> (r: (BodyHandle, FixtureHandle))
        ensures
            r == (self.spec_body_b(), self.spec_fixture_b()),
    {
        (self.body_b, self.fixture_b)
    }

    pub fn is_enabled(&self) -> (r: bool)
        ensures
            r == self.spec_enabled(),
    {
        self.enabled
    }

    /// Enables or disables the contact; a disabled contact is kept but takes
    /// no part in the collision response.
    pub fn set_enabled(&mut self, flag: bool)
        ensures
            final(self).spec_enabled() == flag,
            final(self).spec_body_a() == old(self).spec_body_a(),
            final(self).spec_body_b() == old(self).spec_body_b(),
            final(self).spec_fixture_a() == old(self).spec_fixture_a(),
            final(self).spec_fixture_b() == old(self).spec_fixture_b(),
    {
        self.enabled = flag;
    }
}

/// No contact has two entries in `s`.
pub open spec fn contact_entries_distinct(s: Seq<ContactEdge>) -> bool {
    forall|k1: int, k2: int| 0 <= k1 < k2 < s.len() ==> s[k1].contact != s[k2].contact
}

/// One entry of a body's contact list: a contact of the body and the body
/// on its other side.
#[derive(Clone, Copy, Debug)]
pub struct ContactEdge {
    pub other: BodyHandle,
    pub contact: ContactHandle,
}

} // verus!
