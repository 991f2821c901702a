//! Caller data attached to bodies, fixtures and joints.
use crate::handle::TypedHandle;
use vstd::prelude::*;

verus! {

/// The types of the data a caller attaches to each kind of entity.
pub trait UserDataTypes {
    type BodyData;
    type JointData;
    type FixtureData;
}

/// For worlds whose entities carry no caller data.
pub struct NoUserData;

impl UserDataTypes for NoUserData {
    type BodyData = ();
    type JointData = ();
    type FixtureData = ();
}

/// The block an entity keeps beside itself: its own handle, which only the
/// pool sets, and the caller's payload.
pub struct InternalUserData<H, D> {
    pub(crate) handle: TypedHandle<H>,
    pub(crate) custom: D,
}

/// Access to the caller's payload of an entity.
pub trait UserData<D> {
    /// The payload.
    spec fn spec_user_data(&self) -> D;

    fn user_data(&self) -> (r: &D)
        ensures
            *r == self.spec_user_data(),
    ;

    fn user_data_mut(&mut self) -> (r: &mut D)
        ensures
            *r == old(self).spec_user_data(),
            final(self).spec_user_data() == *final(r),
    ;
}

} // verus!
