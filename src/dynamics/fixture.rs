//! Fixtures: the shapes attached to a body.
use crate::handle::TypedHandle;
use crate::user_data::{InternalUserData, UserData, UserDataTypes};
use vstd::prelude::*;

verus! {

/// What a fixture is made with.
#[derive(Clone, Copy, Debug)]
pub struct FixtureDef {
    /// A sensor reports contacts but takes no part in the collision response.
    pub is_sensor: bool,
}

impl FixtureDef {
    pub fn new() -> (r: FixtureDef)
        ensures
            !r.is_sensor,
    {
        FixtureDef { is_sensor: false }
    }
}

/// The state of one fixture.
#[derive(Debug)]
pub struct Fixture {
    pub(crate) sensor: bool,
}

impl Fixture {
    pub open(crate) spec fn spec_sensor(&self) -> bool {
        self.sensor
    }

    pub fn is_sensor(&self) -> (r: bool)
        ensures
            r == self.spec_sensor(),
    {
        self.sensor
    }

    pub fn set_sensor(&mut self, flag: bool)
        ensures
            final(self).spec_sensor() == flag,
    {
        self.sensor = flag;
    }
}

pub type FixtureHandle = TypedHandle<Fixture>;

/// A fixture together with its handle and the caller's data.
pub struct MetaFixture<U: UserDataTypes> {
    pub(crate) fixture: Fixture,
    pub(crate) user_data: InternalUserData<Fixture, U::FixtureData>,
}

impl<U: UserDataTypes> MetaFixture<U> {
    pub open(crate) spec fn spec_handle(&self) -> FixtureHandle {
        self.user_data.handle
    }

    pub open(crate) spec fn spec_custom(&self) -> U::FixtureData {
        self.user_data.custom
    }

    pub open(crate) spec fn spec_fixture(&self) -> Fixture {
        self.fixture
    }

    pub(crate) fn new(def: &FixtureDef, handle: FixtureHandle, custom: U::FixtureData) -> (r: Self)
        ensures
            r.spec_handle() == handle,
            r.spec_custom() == custom,
            r.spec_fixture().spec_sensor() == def.is_sensor,
    {
        MetaFixture { fixture: Fixture { sensor: def.is_sensor }, user_data: InternalUserData { handle, custom } }
    }

    /// The handle this fixture is reached by.
    pub fn handle(&self) -> (r: FixtureHandle)
        ensures
            r == self.spec_handle(),
    {
        self.user_data.handle
    }

    pub fn fixture(&self) -> (r: &Fixture)
        ensures
            *r == self.spec_fixture(),
    {
        &self.fixture
    }
}

impl<U: UserDataTypes> UserData<U::FixtureData> for MetaFixture<U> {
    open spec fn spec_user_data(&self) -> U::FixtureData {
        self.spec_custom()
    }

    fn user_data(&self) -> (r: &U::FixtureData) {
        &self.user_data.custom
    }

    fn user_data_mut(&mut self) -> (r: &mut U::FixtureData) {
        &mut self.user_data.custom
    }
}

} // verus!
