//! Bodies: each owns its fixtures and lists the joints and contacts it is
//! part of.
use crate::dynamics::contacts::ContactEdge;
use crate::dynamics::fixture::{Fixture, FixtureDef, FixtureHandle, MetaFixture};
use crate::dynamics::joints::JointEdge;
use crate::dynamics::world::{BodyHandle, ContactHandle, JointHandle};
use crate::handle::{AccessError, BorrowState, ExclusiveBorrow, HandleMap, SharedBorrow};
use crate::user_data::{InternalUserData, UserData, UserDataTypes};
use vstd::prelude::*;

verus! {

/// How the engine moves a body.
#[derive(Clone, Copy, Debug, PartialEq, Eq, Structural)]
pub enum BodyType {
    Static,
    Kinematic,
    Dynamic,
}

/// What a body is made with.
#[derive(Clone, Copy, Debug)]
pub struct BodyDef {
    pub body_type: BodyType,
    pub allow_sleep: bool,
    pub awake: bool,
    pub fixed_rotation: bool,
    pub bullet: bool,
    pub active: bool,
}

impl BodyDef {
    /// A static body, awake and active, that may sleep and may rotate.
    pub fn new() -> (r: BodyDef)
        ensures
            r.body_type == BodyType::Static,
            r.allow_sleep,
            r.awake,
            !r.fixed_rotation,
            !r.bullet,
            r.active,
    {
        BodyDef {
            body_type: BodyType::Static,
            allow_sleep: true,
            awake: true,
            fixed_rotation: false,
            bullet: false,
            active: true,
        }
    }
}

/// The state of one body, with the lists of the joints and contacts it is
/// part of.
#[derive(Debug)]
pub struct Body {
    pub(crate) body_type: BodyType,
    pub(crate) bullet: bool,
    pub(crate) sleeping_allowed: bool,
    pub(crate) awake: bool,
    pub(crate) active: bool,
    pub(crate) fixed_rotation: bool,
    pub(crate) joint_edges: Vec<JointEdge>,
    pub(crate) contact_edges: Vec<ContactEdge>,
}

impl Body {
    pub open(crate) spec fn spec_body_type(&self) -> BodyType {
        self.body_type
    }

    pub open(crate) spec fn spec_flags(&self) -> (bool, bool, bool, bool, bool) {
        (self.bullet, self.sleeping_allowed, self.awake, self.active, self.fixed_rotation)
    }

    /// The body's joint list.
    pub open(crate) spec fn joint_list(&self) -> Seq<JointEdge> {
        self.joint_edges@
    }

    /// The body's contact list.
    pub open(crate) spec fn contact_list(&self) -> Seq<ContactEdge> {
        self.contact_edges@
    }

    pub fn body_type(&self) -> (r: BodyType)
        ensures
            r == self.spec_body_type(),
    {
        self.body_type
    }

    pub fn is_bullet(&self) -> (r: bool)
        ensures
            r == self.spec_flags().0,
    {
        self.bullet
    }

    pub fn is_sleeping_allowed(&self) -> (r: bool)
        ensures
            r == self.spec_flags().1,
    {
        self.sleeping_allowed
    }

    pub fn is_awake(&self) -> (r: bool)
        ensures
            r == self.spec_flags().2,
    {
        self.awake
    }

    pub fn is_active(&self) -> (r: bool)
        ensures
            r == self.spec_flags().3,
    {
        self.active
    }

    pub fn is_rotation_fixed(&self) -> (r: bool)
        ensures
            r == self.spec_flags().4,
    {
        self.fixed_rotation
    }

    /// Walks the body's joint list: for each joint, the body at its other
    /// end and the joint.
    pub fn joints(&self) -> (r: JointIter<'_>)
        ensures
            r.remaining() == self.joint_list(),
    {
        JointIter { edges: &self.joint_edges, pos: 0 }
    }
}

/// A cursor over a body's joint list.
pub struct JointIter<'a> {
    edges: &'a Vec<JointEdge>,
    pos: usize,
}

impl<'a> JointIter<'a> {
    #[verifier::type_invariant]
    spec fn within(&self) -> bool {
        self.pos <= self.edges@.len()
    }

    /// The entries not yet visited.
    pub closed spec fn remaining(&self) -> Seq<JointEdge> {
        self.edges@.subrange(self.pos as int, self.edges@.len() as int)
    }

    /// The next entry as (other body, joint), or `None` at the end.
    pub fn next(&mut self) -> (r: Option<(BodyHandle, JointHandle)>)
        ensures
            old(self).remaining().len() == 0 ==> r is None && final(self).remaining() == old(self).remaining(),
            old(self).remaining().len() > 0 ==> r == Some((old(self).remaining()[0].other, old(self).remaining()[0].joint))
                && final(self).remaining() == old(self).remaining().drop_first(),
    {
        proof {
            use_type_invariant(&*self);
        }
        if self.pos < self.edges.len() {
            let e = self.edges[self.pos];
            self.pos = self.pos + 1;
            proof {
                assert(final(self).remaining() =~= old(self).remaining().drop_first());
            }
            Some((e.other, e.joint))
        } else {
            None
        }
    }
}

/// A cursor over a body's contact list.
pub struct ContactIter<'a> {
    edges: &'a Vec<ContactEdge>,
    pos: usize,
}

impl<'a> ContactIter<'a> {
    #[verifier::type_invariant]
    spec fn within(&self) -> bool {
        self.pos <= self.edges@.len()
    }

    /// The entries not yet visited.
    pub closed spec fn remaining(&self) -> Seq<ContactEdge> {
        self.edges@.subrange(self.pos as int, self.edges@.len() as int)
    }

    /// The next entry as (other body, contact), or `None` at the end.
    pub fn next(&mut self) -> (r: Option<(BodyHandle, ContactHandle)>)
        ensures
            old(self).remaining().len() == 0 ==> r is None && final(self).remaining() == old(self).remaining(),
            old(self).remaining().len() > 0 ==> r == Some((old(self).remaining()[0].other, old(self).remaining()[0].contact))
                && final(self).remaining() == old(self).remaining().drop_first(),
    {
        proof {
            use_type_invariant(&*self);
        }
        if self.pos < self.edges.len() {
            let e = self.edges[self.pos];
            self.pos = self.pos + 1;
            proof {
                assert(final(self).remaining() =~= old(self).remaining().drop_first());
            }
            Some((e.other, e.contact))
        } else {
            None
        }
    }
}

/// A body together with its fixtures, its handle and the caller's data.
pub struct MetaBody<U: UserDataTypes> {
    pub(crate) body: Body,
    pub(crate) fixtures: HandleMap<MetaFixture<U>, Fixture>,
    pub(crate) user_data: InternalUserData<Body, U::BodyData>,
}

impl<U: UserDataTypes> MetaBody<U> {
    pub open(crate) spec fn spec_handle(&self) -> BodyHandle {
        self.user_data.handle
    }

    pub open(crate) spec fn spec_body(&self) -> Body {
        self.body
    }

    pub open(crate) spec fn spec_fixtures(&self) -> HandleMap<MetaFixture<U>, Fixture> {
        self.fixtures
    }

    pub open(crate) spec fn spec_custom(&self) -> U::BodyData {
        self.user_data.custom
    }

    /// The fixture pool is well formed and each fixture knows its handle.
    pub open spec fn wf(&self) -> bool {
        &&& self.spec_fixtures().wf()
        &&& forall|f: FixtureHandle| #[trigger]
            self.spec_fixtures()@.contains_key(f) ==> self.spec_fixtures()@[f].spec_handle() == f
    }

    /// Handle, payload, type and flags agree with `other`.
    pub open spec fn same_state(&self, other: Self) -> bool {
        &&& self.spec_handle() == other.spec_handle()
        &&& self.spec_custom() == other.spec_custom()
        &&& self.spec_body().spec_body_type() == other.spec_body().spec_body_type()
        &&& self.spec_body().spec_flags() == other.spec_body().spec_flags()
    }

    /// Everything but the joint and contact lists agrees with `other`.
    pub open spec fn same_except_lists(&self, other: Self) -> bool {
        &&& self.same_state(other)
        &&& self.spec_fixtures() == other.spec_fixtures()
    }

    /// `later` is this body after a change that leaves its handle, its joint
    /// and contact lists and its existing fixtures in place.
    pub open spec fn keeps_links(&self, later: Self) -> bool {
        &&& later.wf()
        &&& later.spec_handle() == self.spec_handle()
        &&& later.spec_body().joint_list() == self.spec_body().joint_list()
        &&& later.spec_body().contact_list() == self.spec_body().contact_list()
        &&& forall|f: FixtureHandle| #[trigger]
            self.spec_fixtures()@.contains_key(f) ==> later.spec_fixtures()@.contains_key(f)
        &&& self.spec_fixtures().keeps_dead(later.spec_fixtures())
    }

    pub(crate) fn new(def: &BodyDef, handle: BodyHandle, custom: U::BodyData) -> (r: Self)
        ensures
            r.wf(),
            r.spec_handle() == handle,
            r.spec_custom() == custom,
            r.spec_fixtures()@ == Map::<FixtureHandle, MetaFixture<U>>::empty(),
            r.spec_fixtures().handle_seq() == Seq::<FixtureHandle>::empty(),
            !r.spec_fixtures().has_vacancy(),
            r.spec_body().joint_list() == Seq::<JointEdge>::empty(),
            r.spec_body().contact_list() == Seq::<ContactEdge>::empty(),
            r.spec_body().spec_body_type() == def.body_type,
            r.spec_body().spec_flags() == (def.bullet, def.allow_sleep, def.awake, def.active, def.fixed_rotation),
    {
        MetaBody {
            body: Body {
                body_type: def.body_type,
                bullet: def.bullet,
                sleeping_allowed: def.allow_sleep,
                awake: def.awake,
                active: def.active,
                fixed_rotation: def.fixed_rotation,
                joint_edges: Vec::new(),
                contact_edges: Vec::new(),
            },
            fixtures: HandleMap::new(),
            user_data: InternalUserData { handle, custom },
        }
    }

    /// The handle this body is reached by.
    pub fn handle(&self) -> (r: BodyHandle)
        ensures
            r == self.spec_handle(),
    {
        self.user_data.handle
    }

    pub fn body(&self) -> (r: &Body)
        ensures
            *r == self.spec_body(),
    {
        &self.body
    }

    /// Attaches a fixture made from `def` that carries the default data.
    pub fn create_fixture(&mut self, def: &FixtureDef) -> (r: FixtureHandle)
        where
            U::FixtureData: Default,
        requires
            old(self).wf(),
        ensures
            old(self).keeps_links(*final(self)),
            !old(self).spec_fixtures()@.contains_key(r),
            !old(self).spec_fixtures().dead(r),
            final(self).spec_fixtures()@ == old(self).spec_fixtures()@.insert(r, final(self).spec_fixtures()@[r]),
            final(self).spec_fixtures()@[r].spec_fixture().spec_sensor() == def.is_sensor,
            !old(self).spec_fixtures().has_vacancy() ==> !final(self).spec_fixtures().has_vacancy()
                && final(self).spec_fixtures().handle_seq() == old(self).spec_fixtures().handle_seq().push(r),
            final(self).spec_fixtures().borrow_state(r) == BorrowState::Unused,
            forall|g: FixtureHandle|
                old(self).spec_fixtures()@.contains_key(g) ==> #[trigger] final(self).spec_fixtures().borrow_state(g)
                    == old(self).spec_fixtures().borrow_state(g),
    {
        self.create_fixture_with(def, U::FixtureData::default())
    }

    /// Attaches a fixture made from `def` that carries `data`.
    pub fn create_fixture_with(&mut self, def: &FixtureDef, data: U::FixtureData) -> (r: FixtureHandle)
        requires
            old(self).wf(),
        ensures
            old(self).keeps_links(*final(self)),
            !old(self).spec_fixtures()@.contains_key(r),
            !old(self).spec_fixtures().dead(r),
            final(self).spec_fixtures()@ == old(self).spec_fixtures()@.insert(r, final(self).spec_fixtures()@[r]),
            final(self).spec_fixtures()@[r].spec_fixture().spec_sensor() == def.is_sensor,
            final(self).spec_fixtures()@[r].spec_custom() == data,
            final(self).spec_fixtures().borrow_state(r) == BorrowState::Unused,
            forall|g: FixtureHandle|
                old(self).spec_fixtures()@.contains_key(g) ==> #[trigger] final(self).spec_fixtures().borrow_state(g)
                    == old(self).spec_fixtures().borrow_state(g),
            !old(self).spec_fixtures().has_vacancy() ==> !final(self).spec_fixtures().has_vacancy()
                && final(self).spec_fixtures().handle_seq() == old(self).spec_fixtures().handle_seq().push(r),
            final(self).spec_body() == old(self).spec_body(),
            final(self).spec_custom() == old(self).spec_custom(),
    {
        let ghost d = data;
        let sensor = def.is_sensor;
        let make = move|h: FixtureHandle| -> (m: MetaFixture<U>)
            ensures
                m.spec_handle() == h,
                m.spec_custom() == d,
                m.spec_fixture().spec_sensor() == sensor,
            { MetaFixture::new(&FixtureDef { is_sensor: sensor }, h, data) };
        self.fixtures.insert_with(make)
    }

    /// The fixture of `handle`, which must be live and not exclusively
    /// borrowed.
    pub fn fixture(&self, handle: FixtureHandle) -> (r: &MetaFixture<U>)
        requires
            self.spec_fixtures()@.contains_key(handle),
            self.spec_fixtures().borrow_state(handle) != BorrowState::Exclusive,
        ensures
            *r == self.spec_fixtures()@[handle],
    {
        match self.fixtures.get(handle) {
            Some(f) => f,
            None => vstd::pervasive::unreached(),
        }
    }

    /// Mutable access to the fixture of `handle`, which must be live and
    /// not borrowed.
    pub fn fixture_mut(&mut self, handle: FixtureHandle) -> (r: &mut MetaFixture<U>)
        requires
            old(self).wf(),
            old(self).spec_fixtures()@.contains_key(handle),
            old(self).spec_fixtures().borrow_state(handle) == BorrowState::Unused,
        ensures
            *r == old(self).spec_fixtures()@[handle],
            final(self).spec_fixtures()@ == old(self).spec_fixtures()@.insert(handle, *final(r)),
            final(self).spec_fixtures().wf(),
            final(self).spec_fixtures().handle_seq() == old(self).spec_fixtures().handle_seq(),
            final(self).spec_fixtures().has_vacancy() == old(self).spec_fixtures().has_vacancy(),
            forall|g: FixtureHandle| #[trigger]
                final(self).spec_fixtures().dead(g) == old(self).spec_fixtures().dead(g),
            forall|g: FixtureHandle|
                old(self).spec_fixtures()@.contains_key(g) ==> #[trigger] final(self).spec_fixtures().borrow_state(g)
                    == old(self).spec_fixtures().borrow_state(g),
            final(self).spec_body() == old(self).spec_body(),
            final(self).spec_handle() == old(self).spec_handle(),
            final(self).spec_custom() == old(self).spec_custom(),
    {
        self.fixtures.get_mut(handle)
    }

    /// The handles of the body's fixtures: in the order they were created,
    /// as long as none has been destroyed.
    pub fn fixtures(&self) -> (r: Vec<FixtureHandle>)
        ensures
            r@ == self.spec_fixtures().handle_seq(),
    {
        self.fixtures.handles()
    }

    /// Walks the body's contact list: for each contact, the body on its
    /// other side and the contact.
    pub fn contacts(&self) -> (r: ContactIter<'_>)
        ensures
            r.remaining() == self.spec_body().contact_list(),
    {
        ContactIter { edges: &self.body.contact_edges, pos: 0 }
    }

    pub fn set_body_type(&mut self, t: BodyType)
        requires
            old(self).wf(),
        ensures
            old(self).keeps_links(*final(self)),
            final(self).spec_body().spec_body_type() == t,
            final(self).spec_body().spec_flags() == old(self).spec_body().spec_flags(),
            final(self).spec_fixtures() == old(self).spec_fixtures(),
    {
        self.body.body_type = t;
    }

    pub fn set_bullet(&mut self, flag: bool)
        requires
            old(self).wf(),
        ensures
            old(self).keeps_links(*final(self)),
            final(self).spec_body().spec_flags() == (flag, old(self).spec_body().spec_flags().1, old(self).spec_body().spec_flags().2, old(self).spec_body().spec_flags().3, old(self).spec_body().spec_flags().4),
            final(self).spec_body().spec_body_type() == old(self).spec_body().spec_body_type(),
            final(self).spec_fixtures() == old(self).spec_fixtures(),
    {
        self.body.bullet = flag;
    }

    pub fn set_sleeping_allowed(&mut self, flag: bool)
        requires
            old(self).wf(),
        ensures
            old(self).keeps_links(*final(self)),
            final(self).spec_body().spec_flags() == (old(self).spec_body().spec_flags().0, flag, old(self).spec_body().spec_flags().2, old(self).spec_body().spec_flags().3, old(self).spec_body().spec_flags().4),
            final(self).spec_body().spec_body_type() == old(self).spec_body().spec_body_type(),
            final(self).spec_fixtures() == old(self).spec_fixtures(),
    {
        self.body.sleeping_allowed = flag;
    }

    pub fn set_awake(&mut self, flag: bool)
        requires
            old(self).wf(),
        ensures
            old(self).keeps_links(*final(self)),
            final(self).spec_body().spec_flags() == (old(self).spec_body().spec_flags().0, old(self).spec_body().spec_flags().1, flag, old(self).spec_body().spec_flags().3, old(self).spec_body().spec_flags().4),
            final(self).spec_body().spec_body_type() == old(self).spec_body().spec_body_type(),
            final(self).spec_fixtures() == old(self).spec_fixtures(),
    {
        self.body.awake = flag;
    }

    pub fn set_active(&mut self, flag: bool)
        requires
            old(self).wf(),
        ensures
            old(self).keeps_links(*final(self)),
            final(self).spec_body().spec_flags() == (old(self).spec_body().spec_flags().0, old(self).spec_body().spec_flags().1, old(self).spec_body().spec_flags().2, flag, old(self).spec_body().spec_flags().4),
            final(self).spec_body().spec_body_type() == old(self).spec_body().spec_body_type(),
            final(self).spec_fixtures() == old(self).spec_fixtures(),
    {
        self.body.active = flag;
    }

    pub fn set_rotation_fixed(&mut self, flag: bool)
        requires
            old(self).wf(),
        ensures
            old(self).keeps_links(*final(self)),
            final(self).spec_body().spec_flags() == (old(self).spec_body().spec_flags().0, old(self).spec_body().spec_flags().1, old(self).spec_body().spec_flags().2, old(self).spec_body().spec_flags().3, flag),
            final(self).spec_body().spec_body_type() == old(self).spec_body().spec_body_type(),
            final(self).spec_fixtures() == old(self).spec_fixtures(),
    {
        self.body.fixed_rotation = flag;
    }
    /// Takes a shared borrow on fixture `handle`: refused when the handle
    /// is not live or the fixture is exclusively borrowed.
    pub fn borrow_fixture(&mut self, handle: FixtureHandle) -> (r: Result<SharedBorrow<Fixture>, AccessError>)
        requires
            old(self).wf(),
        ensures
            old(self).keeps_links(*final(self)),
            final(self).spec_fixtures().same_contents(old(self).spec_fixtures()),
            final(self).same_state(*old(self)),
            !old(self).spec_fixtures()@.contains_key(handle) ==> r == Err::<SharedBorrow<Fixture>, AccessError>(
                AccessError::InvalidHandle,
            ),
            old(self).spec_fixtures()@.contains_key(handle) ==> match old(self).spec_fixtures().borrow_state(handle).share() {
                Ok(st) => r matches Ok(b) && b.target() == handle && final(self).spec_fixtures().borrow_state(handle) == st,
                Err(e) => r == Err::<SharedBorrow<Fixture>, AccessError>(e),
            },
    {
        self.fixtures.borrow(handle)
    }

    /// Takes the exclusive borrow on fixture `handle`: refused when the
    /// handle is not live or the fixture is borrowed at all.
    pub fn borrow_fixture_mut(&mut self, handle: FixtureHandle) -> (r: Result<ExclusiveBorrow<Fixture>, AccessError>)
        requires
            old(self).wf(),
        ensures
            old(self).keeps_links(*final(self)),
            final(self).spec_fixtures().same_contents(old(self).spec_fixtures()),
            final(self).same_state(*old(self)),
            !old(self).spec_fixtures()@.contains_key(handle) ==> r == Err::<ExclusiveBorrow<Fixture>, AccessError>(
                AccessError::InvalidHandle,
            ),
            old(self).spec_fixtures()@.contains_key(handle) ==> match old(self).spec_fixtures().borrow_state(handle).lock() {
                Ok(st) => r matches Ok(b) && b.target() == handle && final(self).spec_fixtures().borrow_state(handle) == st,
                Err(e) => r == Err::<ExclusiveBorrow<Fixture>, AccessError>(e),
            },
    {
        self.fixtures.borrow_mut(handle)
    }

    /// Gives back a shared borrow on a fixture.
    pub fn release_fixture(&mut self, b: SharedBorrow<Fixture>)
        requires
            old(self).wf(),
            old(self).spec_fixtures()@.contains_key(b.target()),
            old(self).spec_fixtures().borrow_state(b.target()) is Shared,
        ensures
            old(self).keeps_links(*final(self)),
            final(self).spec_fixtures().same_contents(old(self).spec_fixtures()),
            final(self).same_state(*old(self)),
            final(self).spec_fixtures().borrow_state(b.target()) == old(self).spec_fixtures().borrow_state(b.target()).unshare(),
    {
        self.fixtures.release(b);
    }

    /// Gives back the exclusive borrow on a fixture.
    pub fn release_fixture_mut(&mut self, b: ExclusiveBorrow<Fixture>)
        requires
            old(self).wf(),
            old(self).spec_fixtures()@.contains_key(b.target()),
            old(self).spec_fixtures().borrow_state(b.target()) == BorrowState::Exclusive,
        ensures
            old(self).keeps_links(*final(self)),
            final(self).spec_fixtures().same_contents(old(self).spec_fixtures()),
            final(self).same_state(*old(self)),
            final(self).spec_fixtures().borrow_state(b.target()) == BorrowState::Unused,
    {
        self.fixtures.release_mut(b);
    }

    /// While a shared borrow is held on a live fixture, its exclusive
    /// borrow (and with it [`fixture_mut`](Self::fixture_mut)) is refused;
    /// from no borrows, two shared borrows in a row both succeed.
    pub proof fn lemma_fixture_borrow_exclusivity(&self, f: FixtureHandle)
        requires
            self.spec_fixtures()@.contains_key(f),
        ensures
            self.spec_fixtures().borrow_state(f) is Shared ==> self.spec_fixtures().borrow_state(f).lock()
                == Err::<BorrowState, AccessError>(AccessError::AlreadyBorrowed)
                && self.spec_fixtures().borrow_state(f) != BorrowState::Unused,
            self.spec_fixtures().borrow_state(f) == BorrowState::Unused ==> self.spec_fixtures().borrow_state(f).share()
                == Ok::<BorrowState, AccessError>(BorrowState::Shared(1))
                && BorrowState::Shared(1).share() == Ok::<BorrowState, AccessError>(BorrowState::Shared(2)),
    {
        self.spec_fixtures().lemma_borrow_exclusivity(f);
    }

    /// Fixtures created one after another on a body that has not lost one
    /// come back from [`fixtures`](Self::fixtures) in creation order, all
    /// distinct and all live: `states` are the body before and after each
    /// creation, `created` the handles returned.
    pub proof fn lemma_fixtures_in_creation_order(states: Seq<Self>, created: Seq<FixtureHandle>)
        requires
            states.len() == created.len() + 1,
            states[0].spec_fixtures().handle_seq().len() == 0,
            forall|i: int|
                0 <= i < created.len() ==> states[i + 1].spec_fixtures().handle_seq() == states[i].spec_fixtures().handle_seq().push(
                    #[trigger] created[i],
                ),
            states.last().wf(),
        ensures
            states.last().spec_fixtures().handle_seq() == created,
            created.no_duplicates(),
            forall|i: int| 0 <= i < created.len() ==> states.last().spec_fixtures()@.contains_key(#[trigger] created[i]),
    {
        Self::lemma_creation_prefix(states, created, created.len());
        assert(created.subrange(0, created.len() as int) =~= created);
        states.last().spec_fixtures().lemma_handle_seq();
        assert forall|i: int| 0 <= i < created.len() implies states.last().spec_fixtures()@.contains_key(#[trigger] created[i]) by {
            let q = states.last().spec_fixtures().handle_seq();
            assert(q[i] == created[i]);
            assert(q.contains(created[i]));
        }
    }

    proof fn lemma_creation_prefix(states: Seq<Self>, created: Seq<FixtureHandle>, n: nat)
        requires
            states.len() == created.len() + 1,
            n <= created.len(),
            states[0].spec_fixtures().handle_seq().len() == 0,
            forall|i: int|
                0 <= i < created.len() ==> states[i + 1].spec_fixtures().handle_seq() == states[i].spec_fixtures().handle_seq().push(
                    #[trigger] created[i],
                ),
        ensures
            states[n as int].spec_fixtures().handle_seq() == created.subrange(0, n as int),
        decreases n,
    {
        if n == 0 {
            assert(states[0].spec_fixtures().handle_seq() =~= created.subrange(0, 0));
        } else {
            Self::lemma_creation_prefix(states, created, (n - 1) as nat);
            let k = n - 1;
            assert(states[k + 1].spec_fixtures().handle_seq() == states[k].spec_fixtures().handle_seq().push(created[k]));
            assert(created.subrange(0, n as int) =~= created.subrange(0, k).push(created[k]));
        }
    }
}

impl<U: UserDataTypes> UserData<U::BodyData> for MetaBody<U> {
    open spec fn spec_user_data(&self) -> U::BodyData {
        self.spec_custom()
    }

    fn user_data(&self) -> (r: &U::BodyData) {
        &self.user_data.custom
    }

    fn user_data_mut(&mut self) -> (r: &mut U::BodyData) {
        &mut self.user_data.custom
    }
}

} // verus!
