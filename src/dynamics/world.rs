//! The world: the pools of bodies, joints and contacts, and the operations
//! that keep them consistent with each other.
use crate::dynamics::body::{Body, BodyDef, MetaBody};
use crate::dynamics::contacts::{contact_entries_distinct, Contact, ContactEdge};
use crate::dynamics::fixture::FixtureHandle;
use crate::dynamics::joints::{joint_entries_distinct, Joint, JointDef, JointEdge, MetaJoint, UnknownJoint};
use crate::handle::{AccessError, BorrowState, ExclusiveBorrow, HandleMap, SharedBorrow, TypedHandle};
use crate::user_data::UserDataTypes;
use vstd::prelude::*;

verus! {

pub type BodyHandle = TypedHandle<Body>;

pub type JointHandle = TypedHandle<Joint>;

pub type ContactHandle = TypedHandle<Contact>;

/// The entries of `edges` whose joint is not `j`.
fn joint_edges_without(edges: &Vec<JointEdge>, j: JointHandle) -> (r: Vec<JointEdge>)
    ensures
        forall|e: JointEdge| r@.contains(e) <==> edges@.contains(e) && e.joint != j,
        r@.len() <= edges@.len(),
        (exists|k: int| 0 <= k < edges@.len() && edges@[k].joint == j) ==> r@.len() < edges@.len(),
        joint_entries_distinct(edges@) ==> joint_entries_distinct(r@),
{
    let mut r: Vec<JointEdge> = Vec::new();
    let mut i: usize = 0;
    while i < edges.len()
        invariant
            i <= edges@.len(),
            forall|k: int| 0 <= k < r@.len() ==> r@[k].joint != j && edges@.contains(#[trigger] r@[k]),
            forall|k: int| 0 <= k < r@.len() ==> exists|m: int| 0 <= m < i && #[trigger] r@[k] == edges@[m],
            joint_entries_distinct(edges@) ==> joint_entries_distinct(r@),
            forall|k: int| 0 <= k < i && edges@[k].joint != j ==> r@.contains(#[trigger] edges@[k]),
            r@.len() <= i,
            (exists|k: int| 0 <= k < i && edges@[k].joint == j) ==> r@.len() < i,
        decreases edges@.len() - i,
    {
        let e = edges[i];
        let ghost r0 = r@;
        if e.joint != j {
            r.push(e);
            proof {
                assert(r@[r@.len() - 1] == e);
                assert forall|k: int| 0 <= k < r@.len() implies exists|m: int| 0 <= m < i + 1 && #[trigger] r@[k] == edges@[m] by {
                    if k < r@.len() - 1 {
                        assert(r0[k] == r@[k]);
                        let m = choose|m: int| 0 <= m < i && r0[k] == edges@[m];
                        assert(r@[k] == edges@[m]);
                    } else {
                        assert(r@[k] == edges@[i as int]);
                    }
                }
                if joint_entries_distinct(edges@) {
                    assert forall|k1: int, k2: int| 0 <= k1 < k2 < r@.len() implies r@[k1].joint != r@[k2].joint by {
                        if k2 < r@.len() - 1 {
                            assert(r0[k1] == r@[k1] && r0[k2] == r@[k2]);
                        } else {
                            assert(r0[k1] == r@[k1]);
                            let m = choose|m: int| 0 <= m < i && r0[k1] == edges@[m];
                            assert(edges@[m].joint != edges@[i as int].joint);
                        }
                    }
                }
                assert forall|k: int| 0 <= k < i && edges@[k].joint != j implies r@.contains(#[trigger] edges@[k]) by {
                    assert(r0.contains(edges@[k]));
                    let m = choose|m: int| 0 <= m < r0.len() && r0[m] == edges@[k];
                    assert(r@[m] == r0[m]);
                }
            }
        }
        i += 1;
    }
    proof {
        assert forall|e: JointEdge| r@.contains(e) <==> edges@.contains(e) && e.joint != j by {
            if r@.contains(e) {
                let m = choose|m: int| 0 <= m < r@.len() && r@[m] == e;
                assert(edges@.contains(r@[m]));
            }
            if edges@.contains(e) && e.joint != j {
                let m = choose|m: int| 0 <= m < edges@.len() && edges@[m] == e;
                assert(r@.contains(edges@[m]));
            }
        }
    }
    r
}

/// The entries of `edges` whose contact is not `c`.
fn contact_edges_without(edges: &Vec<ContactEdge>, c: ContactHandle) -> (r: Vec<ContactEdge>)
    ensures
        forall|e: ContactEdge| r@.contains(e) <==> edges@.contains(e) && e.contact != c,
        r@.len() <= edges@.len(),
        (exists|k: int| 0 <= k < edges@.len() && edges@[k].contact == c) ==> r@.len() < edges@.len(),
        contact_entries_distinct(edges@) ==> contact_entries_distinct(r@),
{
    let mut r: Vec<ContactEdge> = Vec::new();
    let mut i: usize = 0;
    while i < edges.len()
        invariant
            i <= edges@.len(),
            forall|k: int| 0 <= k < r@.len() ==> r@[k].contact != c && edges@.contains(#[trigger] r@[k]),
            forall|k: int| 0 <= k < r@.len() ==> exists|m: int| 0 <= m < i && #[trigger] r@[k] == edges@[m],
            contact_entries_distinct(edges@) ==> contact_entries_distinct(r@),
            forall|k: int| 0 <= k < i && edges@[k].contact != c ==> r@.contains(#[trigger] edges@[k]),
            r@.len() <= i,
            (exists|k: int| 0 <= k < i && edges@[k].contact == c) ==> r@.len() < i,
        decreases edges@.len() - i,
    {
        let e = edges[i];
        let ghost r0 = r@;
        if e.contact != c {
            r.push(e);
            proof {
                assert(r@[r@.len() - 1] == e);
                assert forall|k: int| 0 <= k < r@.len() implies exists|m: int| 0 <= m < i + 1 && #[trigger] r@[k] == edges@[m] by {
                    if k < r@.len() - 1 {
                        assert(r0[k] == r@[k]);
                        let m = choose|m: int| 0 <= m < i && r0[k] == edges@[m];
                        assert(r@[k] == edges@[m]);
                    } else {
                        assert(r@[k] == edges@[i as int]);
                    }
                }
                if contact_entries_distinct(edges@) {
                    assert forall|k1: int, k2: int| 0 <= k1 < k2 < r@.len() implies r@[k1].contact != r@[k2].contact by {
                        if k2 < r@.len() - 1 {
                            assert(r0[k1] == r@[k1] && r0[k2] == r@[k2]);
                        } else {
                            assert(r0[k1] == r@[k1]);
                            let m = choose|m: int| 0 <= m < i && r0[k1] == edges@[m];
                            assert(edges@[m].contact != edges@[i as int].contact);
                        }
                    }
                }
                assert forall|k: int| 0 <= k < i && edges@[k].contact != c implies r@.contains(#[trigger] edges@[k]) by {
                    assert(r0.contains(edges@[k]));
                    let m = choose|m: int| 0 <= m < r0.len() && r0[m] == edges@[k];
                    assert(r@[m] == r0[m]);
                }
            }
        }
        i += 1;
    }
    proof {
        assert forall|e: ContactEdge| r@.contains(e) <==> edges@.contains(e) && e.contact != c by {
            if r@.contains(e) {
                let m = choose|m: int| 0 <= m < r@.len() && r@[m] == e;
                assert(edges@.contains(r@[m]));
            }
            if edges@.contains(e) && e.contact != c {
                let m = choose|m: int| 0 <= m < edges@.len() && edges@[m] == e;
                assert(r@.contains(edges@[m]));
            }
        }
    }
    r
}

/// Owns every body (each with its fixtures), joint and contact.
pub struct World<U: UserDataTypes> {
    pub(crate) bodies: HandleMap<MetaBody<U>, Body>,
    pub(crate) joints: HandleMap<MetaJoint<U>, Joint>,
    pub(crate) contacts: HandleMap<Contact, Contact>,
}

impl<U: UserDataTypes> World<U> {
    pub open(crate) spec fn spec_bodies(&self) -> HandleMap<MetaBody<U>, Body> {
        self.bodies
    }

    pub open(crate) spec fn spec_joints(&self) -> HandleMap<MetaJoint<U>, Joint> {
        self.joints
    }

    pub open(crate) spec fn spec_contacts(&self) -> HandleMap<Contact, Contact> {
        self.contacts
    }

    /// Joint `j` knows its handle, is not borrowed, connects two distinct
    /// live bodies and stands in the joint list of each.
    pub open spec fn joint_ok(&self, j: JointHandle) -> bool {
        let mj = self.spec_joints()@[j];
        let a = mj.spec_joint().spec_body_a();
        let b = mj.spec_joint().spec_body_b();
        &&& mj.spec_handle() == j
        &&& self.spec_joints().borrow_state(j) == BorrowState::Unused
        &&& a != b
        &&& self.spec_bodies()@.contains_key(a)
        &&& self.spec_bodies()@.contains_key(b)
        &&& self.spec_bodies()@[a].spec_body().joint_list().contains(JointEdge { other: b, joint: j })
        &&& self.spec_bodies()@[b].spec_body().joint_list().contains(JointEdge { other: a, joint: j })
    }

    /// An entry `e` of the joint list of body `x` names a live joint between
    /// `x` and `e.other`.
    pub open spec fn joint_edge_ok(&self, x: BodyHandle, e: JointEdge) -> bool {
        &&& self.spec_joints()@.contains_key(e.joint)
        &&& self.spec_joints()@[e.joint].spec_joint().links(x, e.other)
    }

    /// Contact `c` is not borrowed, joins live fixtures of two distinct live
    /// bodies and stands in the contact list of each.
    pub open spec fn contact_ok(&self, c: ContactHandle) -> bool {
        let ct = self.spec_contacts()@[c];
        let a = ct.spec_body_a();
        let b = ct.spec_body_b();
        &&& self.spec_contacts().borrow_state(c) == BorrowState::Unused
        &&& a != b
        &&& self.spec_bodies()@.contains_key(a)
        &&& self.spec_bodies()@.contains_key(b)
        &&& self.spec_bodies()@[a].spec_fixtures()@.contains_key(ct.spec_fixture_a())
        &&& self.spec_bodies()@[b].spec_fixtures()@.contains_key(ct.spec_fixture_b())
        &&& self.spec_bodies()@[a].spec_body().contact_list().contains(ContactEdge { other: b, contact: c })
        &&& self.spec_bodies()@[b].spec_body().contact_list().contains(ContactEdge { other: a, contact: c })
    }

    /// An entry `e` of the contact list of body `x` names a live contact
    /// between `x` and `e.other`.
    pub open spec fn contact_edge_ok(&self, x: BodyHandle, e: ContactEdge) -> bool {
        &&& self.spec_contacts()@.contains_key(e.contact)
        &&& self.spec_contacts()@[e.contact].links(x, e.other)
    }

    pub open spec fn wf(&self) -> bool {
        &&& self.spec_bodies().wf()
        &&& self.spec_joints().wf()
        &&& self.spec_contacts().wf()
        &&& forall|b: BodyHandle| #[trigger]
            self.spec_bodies()@.contains_key(b) ==> self.spec_bodies()@[b].wf()
                && self.spec_bodies()@[b].spec_handle() == b
                && joint_entries_distinct(self.spec_bodies()@[b].spec_body().joint_list())
                && contact_entries_distinct(self.spec_bodies()@[b].spec_body().contact_list())
        &&& forall|j: JointHandle| #[trigger] self.spec_joints()@.contains_key(j) ==> self.joint_ok(j)
        &&& forall|c: ContactHandle| #[trigger] self.spec_contacts()@.contains_key(c) ==> self.contact_ok(c)
        &&& forall|b: BodyHandle, k: int|
            self.spec_bodies()@.contains_key(b) && 0 <= k < self.spec_bodies()@[b].spec_body().joint_list().len()
                ==> self.joint_edge_ok(b, #[trigger] self.spec_bodies()@[b].spec_body().joint_list()[k])
        &&& forall|b: BodyHandle, k: int|
            self.spec_bodies()@.contains_key(b) && 0 <= k < self.spec_bodies()@[b].spec_body().contact_list().len()
                ==> self.contact_edge_ok(b, #[trigger] self.spec_bodies()@[b].spec_body().contact_list()[k])
    }

    /// Every body, joint and contact handle that is dead here is dead in
    /// `later` too: no later entity is ever reached through it.
    pub open spec fn keeps_dead_handles(&self, later: Self) -> bool {
        &&& self.spec_bodies().keeps_dead(later.spec_bodies())
        &&& self.spec_joints().keeps_dead(later.spec_joints())
        &&& self.spec_contacts().keeps_dead(later.spec_contacts())
    }

    proof fn lemma_keeps_dead_trans(a: Self, b: Self, c: Self)
        requires
            a.keeps_dead_handles(b),
            b.keeps_dead_handles(c),
        ensures
            a.keeps_dead_handles(c),
    {
        assert forall|g: BodyHandle| a.spec_bodies().dead(g) implies c.spec_bodies().dead(g) by {
            assert(b.spec_bodies().dead(g));
        }
        assert forall|g: JointHandle| a.spec_joints().dead(g) implies c.spec_joints().dead(g) by {
            assert(b.spec_joints().dead(g));
        }
        assert forall|g: ContactHandle| a.spec_contacts().dead(g) implies c.spec_contacts().dead(g) by {
            assert(b.spec_contacts().dead(g));
        }
    }

    /// A world with no bodies, joints or contacts.
    pub fn new() -> (r: Self)
        ensures
            r.wf(),
            r.spec_bodies()@ == Map::<BodyHandle, MetaBody<U>>::empty(),
            r.spec_joints()@ == Map::<JointHandle, MetaJoint<U>>::empty(),
            r.spec_contacts()@ == Map::<ContactHandle, Contact>::empty(),
    {
        World { bodies: HandleMap::new(), joints: HandleMap::new(), contacts: HandleMap::new() }
    }

    /// Adds a body made from `def` that carries the default data.
    pub fn create_body(&mut self, def: &BodyDef) -> (r: BodyHandle)
        where
            U::BodyData: Default,
        requires
            old(self).wf(),
        ensures
            final(self).wf(),
            !old(self).spec_bodies()@.contains_key(r),
            final(self).spec_bodies()@ == old(self).spec_bodies()@.insert(r, final(self).spec_bodies()@[r]),
            final(self).spec_bodies()@[r].spec_handle() == r,
            final(self).spec_bodies()@[r].spec_fixtures()@ == Map::<TypedHandle<crate::dynamics::fixture::Fixture>, crate::dynamics::fixture::MetaFixture<U>>::empty(),
            final(self).spec_bodies()@[r].spec_body().joint_list().len() == 0,
            final(self).spec_bodies()@[r].spec_body().contact_list().len() == 0,
            final(self).spec_bodies()@[r].spec_body().spec_body_type() == def.body_type,
            final(self).spec_bodies()@[r].spec_body().spec_flags() == (def.bullet, def.allow_sleep, def.awake, def.active, def.fixed_rotation),
            !final(self).spec_bodies()@[r].spec_fixtures().has_vacancy(),
            final(self).spec_bodies()@[r].spec_fixtures().handle_seq().len() == 0,
            final(self).spec_bodies().borrow_state(r) == BorrowState::Unused,
            final(self).spec_bodies()@.contains_key(r),
            forall|g: BodyHandle|
                old(self).spec_bodies()@.contains_key(g) ==> #[trigger] final(self).spec_bodies().borrow_state(g)
                    == old(self).spec_bodies().borrow_state(g),
            final(self).spec_bodies().handle_seq() == old(self).spec_bodies().handle_seq().push(r) || old(self).spec_bodies().has_vacancy(),
            final(self).spec_joints() == old(self).spec_joints(),
            final(self).spec_contacts() == old(self).spec_contacts(),
            old(self).keeps_dead_handles(*final(self)),
            !old(self).spec_bodies().dead(r),
    {
        self.create_body_with(def, U::BodyData::default())
    }

    /// Adds a body made from `def` that carries `data`.
    pub fn create_body_with(&mut self, def: &BodyDef, data: U::BodyData) -> (r: BodyHandle)
        requires
            old(self).wf(),
        ensures
            final(self).wf(),
            !old(self).spec_bodies()@.contains_key(r),
            final(self).spec_bodies()@ == old(self).spec_bodies()@.insert(r, final(self).spec_bodies()@[r]),
            final(self).spec_bodies()@[r].spec_handle() == r,
            final(self).spec_bodies()@[r].spec_custom() == data,
            final(self).spec_bodies()@[r].spec_fixtures()@ == Map::<TypedHandle<crate::dynamics::fixture::Fixture>, crate::dynamics::fixture::MetaFixture<U>>::empty(),
            !final(self).spec_bodies()@[r].spec_fixtures().has_vacancy(),
            final(self).spec_bodies()@[r].spec_fixtures().handle_seq().len() == 0,
            final(self).spec_bodies()@[r].spec_body().joint_list().len() == 0,
            final(self).spec_bodies()@[r].spec_body().contact_list().len() == 0,
            final(self).spec_bodies()@[r].spec_body().spec_body_type() == def.body_type,
            final(self).spec_bodies()@[r].spec_body().spec_flags() == (def.bullet, def.allow_sleep, def.awake, def.active, def.fixed_rotation),
            final(self).spec_bodies().borrow_state(r) == BorrowState::Unused,
            final(self).spec_bodies()@.contains_key(r),
            forall|g: BodyHandle|
                old(self).spec_bodies()@.contains_key(g) ==> #[trigger] final(self).spec_bodies().borrow_state(g)
                    == old(self).spec_bodies().borrow_state(g),
            final(self).spec_bodies().handle_seq() == old(self).spec_bodies().handle_seq().push(r) || old(self).spec_bodies().has_vacancy(),
            final(self).spec_joints() == old(self).spec_joints(),
            final(self).spec_contacts() == old(self).spec_contacts(),
            old(self).keeps_dead_handles(*final(self)),
            !old(self).spec_bodies().dead(r),
    {
        let ghost d = data;
        let d2 = *def;
        let make = move|h: BodyHandle| -> (m: MetaBody<U>)
            ensures
                m.wf(),
                m.spec_handle() == h,
                m.spec_custom() == d,
                m.spec_fixtures()@ == Map::<TypedHandle<crate::dynamics::fixture::Fixture>, crate::dynamics::fixture::MetaFixture<U>>::empty(),
                !m.spec_fixtures().has_vacancy(),
                m.spec_fixtures().handle_seq().len() == 0,
                m.spec_body().joint_list().len() == 0,
                m.spec_body().contact_list().len() == 0,
                m.spec_body().spec_body_type() == d2.body_type,
                m.spec_body().spec_flags() == (d2.bullet, d2.allow_sleep, d2.awake, d2.active, d2.fixed_rotation),
            { MetaBody::new(&d2, h, data) };
        let r = self.bodies.insert_with(make);
        proof {
            let ob = old(self).spec_bodies()@;
            let nb = self.spec_bodies()@;
            assert forall|j: JointHandle| #[trigger] self.spec_joints()@.contains_key(j) implies self.joint_ok(j) by {
                assert(old(self).joint_ok(j));
            }
            assert forall|c: ContactHandle| #[trigger] self.spec_contacts()@.contains_key(c) implies self.contact_ok(c) by {
                assert(old(self).contact_ok(c));
            }
            assert forall|b: BodyHandle, k: int|
                nb.contains_key(b) && 0 <= k < nb[b].spec_body().joint_list().len()
                implies self.joint_edge_ok(b, #[trigger] nb[b].spec_body().joint_list()[k]) by {
                if b != r {
                    assert(old(self).joint_edge_ok(b, ob[b].spec_body().joint_list()[k]));
                }
            }
            assert forall|b: BodyHandle, k: int|
                nb.contains_key(b) && 0 <= k < nb[b].spec_body().contact_list().len()
                implies self.contact_edge_ok(b, #[trigger] nb[b].spec_body().contact_list()[k]) by {
                if b != r {
                    assert(old(self).contact_edge_ok(b, ob[b].spec_body().contact_list()[k]));
                }
            }
        }
        r
    }
    /// The joint list of body `x`.
    pub open spec fn joint_list_of(&self, x: BodyHandle) -> Seq<JointEdge> {
        self.spec_bodies()@[x].spec_body().joint_list()
    }

    /// The contact list of body `x`.
    pub open spec fn contact_list_of(&self, x: BodyHandle) -> Seq<ContactEdge> {
        self.spec_bodies()@[x].spec_body().contact_list()
    }

    /// The bodies of `later` are those of this world, unchanged but that
    /// every entry for joint `j` has left their joint lists.
    pub open spec fn joint_unlisted(&self, later: Self, j: JointHandle) -> bool {
        &&& later.spec_bodies().wf()
        &&& later.spec_bodies().handle_seq() == self.spec_bodies().handle_seq()
        &&& forall|x: BodyHandle|
            self.spec_bodies()@.contains_key(x) ==> #[trigger] later.spec_bodies().borrow_state(x)
                == self.spec_bodies().borrow_state(x)
        &&& forall|x: BodyHandle| #[trigger]
            later.spec_bodies()@.contains_key(x) <==> self.spec_bodies()@.contains_key(x)
        &&& forall|x: BodyHandle| #[trigger]
            self.spec_bodies()@.contains_key(x) ==> {
                &&& later.spec_bodies()@[x].same_except_lists(self.spec_bodies()@[x])
                &&& later.contact_list_of(x) == self.contact_list_of(x)
                &&& later.spec_bodies().borrow_state(x) == self.spec_bodies().borrow_state(x)
                &&& forall|e: JointEdge| #[trigger]
                    later.joint_list_of(x).contains(e) <==> self.joint_list_of(x).contains(e) && e.joint != j
                &&& later.joint_list_of(x).len() <= self.joint_list_of(x).len()
                &&& joint_entries_distinct(self.joint_list_of(x)) ==> joint_entries_distinct(later.joint_list_of(x))
                &&& (exists|k: int| 0 <= k < self.joint_list_of(x).len() && #[trigger] self.joint_list_of(x)[k].joint == j)
                    ==> later.joint_list_of(x).len() < self.joint_list_of(x).len()
            }
    }

    /// Drops the entries for joint `j` from the joint list of body `x`.
    fn strip_joint(&mut self, x: BodyHandle, j: JointHandle)
        requires
            old(self).spec_bodies().wf(),
            old(self).spec_bodies()@.contains_key(x),
        ensures
            final(self).spec_joints() == old(self).spec_joints(),
            final(self).spec_contacts() == old(self).spec_contacts(),
            final(self).spec_bodies().wf(),
            final(self).spec_bodies().handle_seq() == old(self).spec_bodies().handle_seq(),
            final(self).spec_bodies()@ == old(self).spec_bodies()@.insert(x, final(self).spec_bodies()@[x]),
            forall|g: BodyHandle|
                old(self).spec_bodies()@.contains_key(g) ==> final(self).spec_bodies().borrow_state(g)
                    == old(self).spec_bodies().borrow_state(g),
            final(self).spec_bodies()@[x].same_except_lists(old(self).spec_bodies()@[x]),
            final(self).contact_list_of(x) == old(self).contact_list_of(x),
            forall|e: JointEdge|
                final(self).joint_list_of(x).contains(e) <==> old(self).joint_list_of(x).contains(e) && e.joint != j,
            final(self).joint_list_of(x).len() <= old(self).joint_list_of(x).len(),
            joint_entries_distinct(old(self).joint_list_of(x)) ==> joint_entries_distinct(final(self).joint_list_of(x)),
            forall|g: BodyHandle| #[trigger] final(self).spec_bodies().dead(g) == old(self).spec_bodies().dead(g),
            (exists|k: int| 0 <= k < old(self).joint_list_of(x).len() && old(self).joint_list_of(x)[k].joint == j)
                ==> final(self).joint_list_of(x).len() < old(self).joint_list_of(x).len(),
    {
        let mb = self.bodies.slot_mut(x);
        let stripped = joint_edges_without(&mb.body.joint_edges, j);
        mb.body.joint_edges = stripped;
    }

    /// Removes joint `handle` and drops it from the joint lists of its two
    /// bodies.
    pub fn destroy_joint(&mut self, handle: JointHandle)
        requires
            old(self).wf(),
            old(self).spec_joints()@.contains_key(handle),
        ensures
            final(self).wf(),
            final(self).spec_joints()@ == old(self).spec_joints()@.remove(handle),
            final(self).spec_contacts() == old(self).spec_contacts(),
            old(self).joint_unlisted(*final(self), handle),
            old(self).keeps_dead_handles(*final(self)),
            final(self).spec_joints().dead(handle),
    {
        let mj = self.joints.remove(handle);
        let a = mj.joint.body_a;
        let b = mj.joint.body_b;
        let ghost w1 = *self;
        self.strip_joint(a, handle);
        let ghost w2 = *self;
        self.strip_joint(b, handle);
        proof {
            let w0 = *old(self);
            let w = *self;
            assert forall|x: BodyHandle| #[trigger] w0.spec_bodies()@.contains_key(x) implies {
                &&& w.spec_bodies()@[x].same_except_lists(w0.spec_bodies()@[x])
                &&& w.contact_list_of(x) == w0.contact_list_of(x)
                &&& w.spec_bodies().borrow_state(x) == w0.spec_bodies().borrow_state(x)
                &&& forall|e: JointEdge| #[trigger]
                    w.joint_list_of(x).contains(e) <==> w0.joint_list_of(x).contains(e) && e.joint != handle
                &&& w.joint_list_of(x).len() <= w0.joint_list_of(x).len()
                &&& joint_entries_distinct(w0.joint_list_of(x)) ==> joint_entries_distinct(w.joint_list_of(x))
                &&& (exists|k: int| 0 <= k < w0.joint_list_of(x).len() && #[trigger] w0.joint_list_of(x)[k].joint == handle)
                    ==> w.joint_list_of(x).len() < w0.joint_list_of(x).len()
            } by {
                if x != a && x != b {
                    assert(w.spec_bodies()@[x] == w0.spec_bodies()@[x]);
                    assert forall|k: int| 0 <= k < w0.joint_list_of(x).len() implies #[trigger] w0.joint_list_of(x)[k].joint != handle by {
                        assert(w0.joint_edge_ok(x, w0.joint_list_of(x)[k]));
                    }
                    assert forall|e: JointEdge| #[trigger] w.joint_list_of(x).contains(e) implies e.joint != handle by {
                        let k = choose|k: int| 0 <= k < w0.joint_list_of(x).len() && w0.joint_list_of(x)[k] == e;
                        assert(w0.joint_list_of(x)[k].joint != handle);
                    }
                } else if x == a {
                    assert(w.spec_bodies()@[x] == w2.spec_bodies()@[x]);
                } else {
                    assert(w1.spec_bodies()@[x] == w0.spec_bodies()@[x]);
                }
            }
            assert(w0.joint_unlisted(w, handle));
            Self::lemma_unlisted_keeps_wf(w0, w, handle);
        }
    }

    proof fn lemma_unlisted_keeps_wf(w0: Self, w: Self, j: JointHandle)
        requires
            w0.wf(),
            w0.spec_joints()@.contains_key(j),
            w.spec_joints().wf(),
            w.spec_joints()@ == w0.spec_joints()@.remove(j),
            forall|g: JointHandle|
                w.spec_joints()@.contains_key(g) ==> w.spec_joints().borrow_state(g) == w0.spec_joints().borrow_state(g),
            w.spec_contacts() == w0.spec_contacts(),
            w0.joint_unlisted(w, j),
        ensures
            w.wf(),
    {
        let nb = w.spec_bodies()@;
        let ob = w0.spec_bodies()@;
        assert forall|b: BodyHandle| #[trigger] nb.contains_key(b) implies nb[b].wf() && nb[b].spec_handle() == b by {
            assert(ob.contains_key(b));
        }
        assert forall|g: JointHandle| #[trigger] w.spec_joints()@.contains_key(g) implies w.joint_ok(g) by {
            assert(w0.joint_ok(g));
            let mj = w0.spec_joints()@[g];
            let a = mj.spec_joint().spec_body_a();
            let b = mj.spec_joint().spec_body_b();
            assert(w.joint_list_of(a).contains(JointEdge { other: b, joint: g }));
            assert(w.joint_list_of(b).contains(JointEdge { other: a, joint: g }));
        }
        assert forall|c: ContactHandle| #[trigger] w.spec_contacts()@.contains_key(c) implies w.contact_ok(c) by {
            assert(w0.contact_ok(c));
        }
        assert forall|b: BodyHandle, k: int|
            nb.contains_key(b) && 0 <= k < nb[b].spec_body().joint_list().len()
            implies w.joint_edge_ok(b, #[trigger] nb[b].spec_body().joint_list()[k]) by {
            let e = nb[b].spec_body().joint_list()[k];
            assert(w.joint_list_of(b).contains(e));
            assert(w0.joint_list_of(b).contains(e));
            let k0 = choose|k0: int| 0 <= k0 < w0.joint_list_of(b).len() && w0.joint_list_of(b)[k0] == e;
            assert(w0.joint_edge_ok(b, ob[b].spec_body().joint_list()[k0]));
        }
        assert forall|b: BodyHandle, k: int|
            nb.contains_key(b) && 0 <= k < nb[b].spec_body().contact_list().len()
            implies w.contact_edge_ok(b, #[trigger] nb[b].spec_body().contact_list()[k]) by {
            assert(w.contact_list_of(b) == w0.contact_list_of(b));
            assert(w0.contact_edge_ok(b, ob[b].spec_body().contact_list()[k]));
        }
    }
    /// Appends `e` to the joint list of body `x`.
    fn push_joint_edge(&mut self, x: BodyHandle, e: JointEdge)
        requires
            old(self).spec_bodies().wf(),
            old(self).spec_bodies()@.contains_key(x),
        ensures
            final(self).spec_joints() == old(self).spec_joints(),
            final(self).spec_contacts() == old(self).spec_contacts(),
            final(self).spec_bodies().wf(),
            final(self).spec_bodies().handle_seq() == old(self).spec_bodies().handle_seq(),
            final(self).spec_bodies()@ == old(self).spec_bodies()@.insert(x, final(self).spec_bodies()@[x]),
            forall|g: BodyHandle|
                old(self).spec_bodies()@.contains_key(g) ==> final(self).spec_bodies().borrow_state(g)
                    == old(self).spec_bodies().borrow_state(g),
            final(self).spec_bodies()@[x].same_except_lists(old(self).spec_bodies()@[x]),
            final(self).contact_list_of(x) == old(self).contact_list_of(x),
            final(self).joint_list_of(x) == old(self).joint_list_of(x).push(e),
            forall|g: BodyHandle| #[trigger] final(self).spec_bodies().dead(g) == old(self).spec_bodies().dead(g),
    {
        let mb = self.bodies.slot_mut(x);
        mb.body.joint_edges.push(e);
    }

    /// Adds the joint that `def` describes, with the default data.
    pub fn create_joint(&mut self, def: &JointDef) -> (r: JointHandle)
        where
            U::JointData: Default,
        requires
            old(self).wf(),
            old(self).spec_bodies()@.contains_key(def.body_a),
            old(self).spec_bodies()@.contains_key(def.body_b),
            def.body_a != def.body_b,
        ensures
            final(self).wf(),
            old(self).joint_listed(*final(self), r, def),
            old(self).keeps_dead_handles(*final(self)),
    {
        self.create_joint_with(def, U::JointData::default())
    }

    /// The joint `r` is new in `later`, made from `def`, and entered in the
    /// joint lists of its two bodies; nothing else changed.
    pub open spec fn joint_listed(&self, later: Self, r: JointHandle, def: &JointDef) -> bool {
        let a = def.body_a;
        let b = def.body_b;
        &&& !self.spec_joints()@.contains_key(r)
        &&& !self.spec_joints().dead(r)
        &&& later.spec_joints()@ == self.spec_joints()@.insert(r, later.spec_joints()@[r])
        &&& later.spec_joints()@[r].spec_handle() == r
        &&& later.spec_joints()@[r].spec_joint().spec_kind() == UnknownJoint::spec_from_type(def.joint_type)
        &&& later.spec_joints()@[r].spec_joint().spec_body_a() == a
        &&& later.spec_joints()@[r].spec_joint().spec_body_b() == b
        &&& later.spec_joints()@[r].spec_joint().spec_collide_connected() == def.collide_connected
        &&& later.spec_contacts() == self.spec_contacts()
        &&& later.spec_bodies().handle_seq() == self.spec_bodies().handle_seq()
        &&& forall|x: BodyHandle|
            self.spec_bodies()@.contains_key(x) ==> #[trigger] later.spec_bodies().borrow_state(x)
                == self.spec_bodies().borrow_state(x)
        &&& forall|x: BodyHandle| #[trigger]
            later.spec_bodies()@.contains_key(x) <==> self.spec_bodies()@.contains_key(x)
        &&& forall|x: BodyHandle| #[trigger]
            self.spec_bodies()@.contains_key(x) ==> {
                &&& later.spec_bodies()@[x].same_except_lists(self.spec_bodies()@[x])
                &&& later.contact_list_of(x) == self.contact_list_of(x)
                &&& later.spec_bodies().borrow_state(x) == self.spec_bodies().borrow_state(x)
                &&& later.joint_list_of(x) == if x == a {
                    self.joint_list_of(x).push(JointEdge { other: b, joint: r })
                } else if x == b {
                    self.joint_list_of(x).push(JointEdge { other: a, joint: r })
                } else {
                    self.joint_list_of(x)
                }
            }
    }

    /// Adds the joint that `def` describes, carrying `data`. Its variant is
    /// the one that the type tag of `def` names.
    pub fn create_joint_with(&mut self, def: &JointDef, data: U::JointData) -> (r: JointHandle)
        requires
            old(self).wf(),
            old(self).spec_bodies()@.contains_key(def.body_a),
            old(self).spec_bodies()@.contains_key(def.body_b),
            def.body_a != def.body_b,
        ensures
            final(self).wf(),
            old(self).joint_listed(*final(self), r, def),
            final(self).spec_joints()@[r].spec_custom() == data,
            old(self).keeps_dead_handles(*final(self)),
    {
        let ghost dat = data;
        let d2 = *def;
        let make = move|h: JointHandle| -> (m: MetaJoint<U>)
            ensures
                m.spec_handle() == h,
                m.user_data.custom == dat,
                m.joint.kind == UnknownJoint::spec_from_type(d2.joint_type),
                m.joint.body_a == d2.body_a,
                m.joint.body_b == d2.body_b,
                m.joint.collide_connected == d2.collide_connected,
            { MetaJoint::new(&d2, h, data) };
        let r = self.joints.insert_with(make);
        let ghost w1 = *self;
        self.push_joint_edge(def.body_a, JointEdge { other: def.body_b, joint: r });
        let ghost w2 = *self;
        self.push_joint_edge(def.body_b, JointEdge { other: def.body_a, joint: r });
        proof {
            let w0 = *old(self);
            let w = *self;
            let a = def.body_a;
            let b = def.body_b;
            assert(w.spec_bodies()@[a] == w2.spec_bodies()@[a]);
            assert(w1.spec_bodies()@[b] == w0.spec_bodies()@[b]);
            assert(w0.joint_listed(w, r, def));
            let nb = w.spec_bodies()@;
            let ob = w0.spec_bodies()@;
            assert forall|g: JointHandle| #[trigger] w.spec_joints()@.contains_key(g) implies w.joint_ok(g) by {
                if g == r {
                    assert(w.joint_list_of(a)[w.joint_list_of(a).len() - 1] == JointEdge { other: b, joint: r });
                    assert(w.joint_list_of(b)[w.joint_list_of(b).len() - 1] == JointEdge { other: a, joint: r });
                } else {
                    assert(w0.joint_ok(g));
                    let mj = w0.spec_joints()@[g];
                    let ga = mj.spec_joint().spec_body_a();
                    let gb = mj.spec_joint().spec_body_b();
                    let ea = JointEdge { other: gb, joint: g };
                    let eb = JointEdge { other: ga, joint: g };
                    let ka = choose|k: int| 0 <= k < w0.joint_list_of(ga).len() && w0.joint_list_of(ga)[k] == ea;
                    let kb = choose|k: int| 0 <= k < w0.joint_list_of(gb).len() && w0.joint_list_of(gb)[k] == eb;
                    assert(w.joint_list_of(ga)[ka] == ea);
                    assert(w.joint_list_of(gb)[kb] == eb);
                }
            }
            assert forall|c: ContactHandle| #[trigger] w.spec_contacts()@.contains_key(c) implies w.contact_ok(c) by {
                assert(w0.contact_ok(c));
            }
            assert forall|x: BodyHandle| #[trigger] nb.contains_key(x) implies nb[x].wf() && nb[x].spec_handle() == x by {
                assert(ob.contains_key(x));
            }
            assert forall|x: BodyHandle, k: int|
                nb.contains_key(x) && 0 <= k < nb[x].spec_body().joint_list().len()
                implies w.joint_edge_ok(x, #[trigger] nb[x].spec_body().joint_list()[k]) by {
                if k < w0.joint_list_of(x).len() {
                    assert(w.joint_list_of(x)[k] == w0.joint_list_of(x)[k]);
                    assert(w0.joint_edge_ok(x, ob[x].spec_body().joint_list()[k]));
                    assert(ob[x].spec_body().joint_list()[k].joint != r);
                }
            }
            assert forall|x: BodyHandle, k: int|
                nb.contains_key(x) && 0 <= k < nb[x].spec_body().contact_list().len()
                implies w.contact_edge_ok(x, #[trigger] nb[x].spec_body().contact_list()[k]) by {
                assert(w0.contact_edge_ok(x, ob[x].spec_body().contact_list()[k]));
            }
        }
        r
    }
    /// The bodies of `later` are those of this world, unchanged but that
    /// every entry for contact `c` has left their contact lists.
    pub open spec fn contact_unlisted(&self, later: Self, c: ContactHandle) -> bool {
        &&& later.spec_bodies().wf()
        &&& later.spec_bodies().handle_seq() == self.spec_bodies().handle_seq()
        &&& forall|x: BodyHandle|
            self.spec_bodies()@.contains_key(x) ==> #[trigger] later.spec_bodies().borrow_state(x)
                == self.spec_bodies().borrow_state(x)
        &&& forall|x: BodyHandle| #[trigger]
            later.spec_bodies()@.contains_key(x) <==> self.spec_bodies()@.contains_key(x)
        &&& forall|x: BodyHandle| #[trigger]
            self.spec_bodies()@.contains_key(x) ==> {
                &&& later.spec_bodies()@[x].same_except_lists(self.spec_bodies()@[x])
                &&& later.joint_list_of(x) == self.joint_list_of(x)
                &&& later.spec_bodies().borrow_state(x) == self.spec_bodies().borrow_state(x)
                &&& forall|e: ContactEdge| #[trigger]
                    later.contact_list_of(x).contains(e) <==> self.contact_list_of(x).contains(e) && e.contact != c
                &&& later.contact_list_of(x).len() <= self.contact_list_of(x).len()
                &&& contact_entries_distinct(self.contact_list_of(x)) ==> contact_entries_distinct(later.contact_list_of(x))
                &&& (exists|k: int| 0 <= k < self.contact_list_of(x).len() && #[trigger] self.contact_list_of(x)[k].contact == c)
                    ==> later.contact_list_of(x).len() < self.contact_list_of(x).len()
            }
    }

    /// Drops the entries for contact `c` from the contact list of body `x`.
    fn strip_contact(&mut self, x: BodyHandle, c: ContactHandle)
        requires
            old(self).spec_bodies().wf(),
            old(self).spec_bodies()@.contains_key(x),
        ensures
            final(self).spec_joints() == old(self).spec_joints(),
            final(self).spec_contacts() == old(self).spec_contacts(),
            final(self).spec_bodies().wf(),
            final(self).spec_bodies().handle_seq() == old(self).spec_bodies().handle_seq(),
            final(self).spec_bodies()@ == old(self).spec_bodies()@.insert(x, final(self).spec_bodies()@[x]),
            forall|g: BodyHandle|
                old(self).spec_bodies()@.contains_key(g) ==> final(self).spec_bodies().borrow_state(g)
                    == old(self).spec_bodies().borrow_state(g),
            final(self).spec_bodies()@[x].same_except_lists(old(self).spec_bodies()@[x]),
            final(self).joint_list_of(x) == old(self).joint_list_of(x),
            forall|e: ContactEdge|
                final(self).contact_list_of(x).contains(e) <==> old(self).contact_list_of(x).contains(e) && e.contact != c,
            final(self).contact_list_of(x).len() <= old(self).contact_list_of(x).len(),
            contact_entries_distinct(old(self).contact_list_of(x)) ==> contact_entries_distinct(final(self).contact_list_of(x)),
            forall|g: BodyHandle| #[trigger] final(self).spec_bodies().dead(g) == old(self).spec_bodies().dead(g),
            (exists|k: int| 0 <= k < old(self).contact_list_of(x).len() && old(self).contact_list_of(x)[k].contact == c)
                ==> final(self).contact_list_of(x).len() < old(self).contact_list_of(x).len(),
    {
        let mb = self.bodies.slot_mut(x);
        let stripped = contact_edges_without(&mb.body.contact_edges, c);
        mb.body.contact_edges = stripped;
    }

    /// Removes contact `handle`, once its fixtures no longer touch, and
    /// drops it from the contact lists of its two bodies.
    pub fn end_contact(&mut self, handle: ContactHandle)
        requires
            old(self).wf(),
            old(self).spec_contacts()@.contains_key(handle),
        ensures
            final(self).wf(),
            final(self).spec_contacts()@ == old(self).spec_contacts()@.remove(handle),
            final(self).spec_joints() == old(self).spec_joints(),
            old(self).contact_unlisted(*final(self), handle),
            old(self).keeps_dead_handles(*final(self)),
            final(self).spec_contacts().dead(handle),
    {
        let ct = self.contacts.remove(handle);
        let a = ct.body_a;
        let b = ct.body_b;
        let ghost w1 = *self;
        self.strip_contact(a, handle);
        let ghost w2 = *self;
        self.strip_contact(b, handle);
        proof {
            let w0 = *old(self);
            let w = *self;
            assert forall|x: BodyHandle| #[trigger] w0.spec_bodies()@.contains_key(x) implies {
                &&& w.spec_bodies()@[x].same_except_lists(w0.spec_bodies()@[x])
                &&& w.joint_list_of(x) == w0.joint_list_of(x)
                &&& w.spec_bodies().borrow_state(x) == w0.spec_bodies().borrow_state(x)
                &&& forall|e: ContactEdge| #[trigger]
                    w.contact_list_of(x).contains(e) <==> w0.contact_list_of(x).contains(e) && e.contact != handle
                &&& w.contact_list_of(x).len() <= w0.contact_list_of(x).len()
                &&& contact_entries_distinct(w0.contact_list_of(x)) ==> contact_entries_distinct(w.contact_list_of(x))
                &&& (exists|k: int| 0 <= k < w0.contact_list_of(x).len() && #[trigger] w0.contact_list_of(x)[k].contact == handle)
                    ==> w.contact_list_of(x).len() < w0.contact_list_of(x).len()
            } by {
                if x != a && x != b {
                    assert(w.spec_bodies()@[x] == w0.spec_bodies()@[x]);
                    assert forall|k: int| 0 <= k < w0.contact_list_of(x).len() implies #[trigger] w0.contact_list_of(x)[k].contact != handle by {
                        assert(w0.contact_edge_ok(x, w0.contact_list_of(x)[k]));
                    }
                    assert forall|e: ContactEdge| #[trigger] w.contact_list_of(x).contains(e) implies e.contact != handle by {
                        let k = choose|k: int| 0 <= k < w0.contact_list_of(x).len() && w0.contact_list_of(x)[k] == e;
                        assert(w0.contact_list_of(x)[k].contact != handle);
                    }
                } else if x == a {
                    assert(w.spec_bodies()@[x] == w2.spec_bodies()@[x]);
                } else {
                    assert(w1.spec_bodies()@[x] == w0.spec_bodies()@[x]);
                }
            }
            assert(w0.contact_unlisted(w, handle));
            Self::lemma_contact_unlisted_keeps_wf(w0, w, handle);
        }
    }

    proof fn lemma_contact_unlisted_keeps_wf(w0: Self, w: Self, c: ContactHandle)
        requires
            w0.wf(),
            w0.spec_contacts()@.contains_key(c),
            w.spec_contacts().wf(),
            w.spec_contacts()@ == w0.spec_contacts()@.remove(c),
            forall|g: ContactHandle|
                w.spec_contacts()@.contains_key(g) ==> w.spec_contacts().borrow_state(g) == w0.spec_contacts().borrow_state(g),
            w.spec_joints() == w0.spec_joints(),
            w0.contact_unlisted(w, c),
        ensures
            w.wf(),
    {
        let nb = w.spec_bodies()@;
        let ob = w0.spec_bodies()@;
        assert forall|b: BodyHandle| #[trigger] nb.contains_key(b) implies nb[b].wf() && nb[b].spec_handle() == b by {
            assert(ob.contains_key(b));
        }
        assert forall|g: ContactHandle| #[trigger] w.spec_contacts()@.contains_key(g) implies w.contact_ok(g) by {
            assert(w0.contact_ok(g));
            let ct = w0.spec_contacts()@[g];
            let a = ct.spec_body_a();
            let b = ct.spec_body_b();
            assert(w.contact_list_of(a).contains(ContactEdge { other: b, contact: g }));
            assert(w.contact_list_of(b).contains(ContactEdge { other: a, contact: g }));
        }
        assert forall|j: JointHandle| #[trigger] w.spec_joints()@.contains_key(j) implies w.joint_ok(j) by {
            assert(w0.joint_ok(j));
        }
        assert forall|b: BodyHandle, k: int|
            nb.contains_key(b) && 0 <= k < nb[b].spec_body().contact_list().len()
            implies w.contact_edge_ok(b, #[trigger] nb[b].spec_body().contact_list()[k]) by {
            let e = nb[b].spec_body().contact_list()[k];
            assert(w.contact_list_of(b).contains(e));
            assert(w0.contact_list_of(b).contains(e));
            let k0 = choose|k0: int| 0 <= k0 < w0.contact_list_of(b).len() && w0.contact_list_of(b)[k0] == e;
            assert(w0.contact_edge_ok(b, ob[b].spec_body().contact_list()[k0]));
        }
        assert forall|b: BodyHandle, k: int|
            nb.contains_key(b) && 0 <= k < nb[b].spec_body().joint_list().len()
            implies w.joint_edge_ok(b, #[trigger] nb[b].spec_body().joint_list()[k]) by {
            assert(w.joint_list_of(b) == w0.joint_list_of(b));
            assert(w0.joint_edge_ok(b, ob[b].spec_body().joint_list()[k]));
        }
    }

    /// Appends `e` to the contact list of body `x`.
    fn push_contact_edge(&mut self, x: BodyHandle, e: ContactEdge)
        requires
            old(self).spec_bodies().wf(),
            old(self).spec_bodies()@.contains_key(x),
        ensures
            final(self).spec_joints() == old(self).spec_joints(),
            final(self).spec_contacts() == old(self).spec_contacts(),
            final(self).spec_bodies().wf(),
            final(self).spec_bodies().handle_seq() == old(self).spec_bodies().handle_seq(),
            final(self).spec_bodies()@ == old(self).spec_bodies()@.insert(x, final(self).spec_bodies()@[x]),
            forall|g: BodyHandle|
                old(self).spec_bodies()@.contains_key(g) ==> final(self).spec_bodies().borrow_state(g)
                    == old(self).spec_bodies().borrow_state(g),
            final(self).spec_bodies()@[x].same_except_lists(old(self).spec_bodies()@[x]),
            final(self).joint_list_of(x) == old(self).joint_list_of(x),
            final(self).contact_list_of(x) == old(self).contact_list_of(x).push(e),
            forall|g: BodyHandle| #[trigger] final(self).spec_bodies().dead(g) == old(self).spec_bodies().dead(g),
    {
        let mb = self.bodies.slot_mut(x);
        mb.body.contact_edges.push(e);
    }

    /// The contact `r` is new in `later`, between fixture `fa` of body `a`
    /// and fixture `fb` of body `b`, enabled, and entered in the contact
    /// lists of both bodies; nothing else changed.
    pub open spec fn contact_listed(
        &self,
        later: Self,
        r: ContactHandle,
        a: BodyHandle,
        fa: FixtureHandle,
        b: BodyHandle,
        fb: FixtureHandle,
    ) -> bool {
        &&& !self.spec_contacts()@.contains_key(r)
        &&& !self.spec_contacts().dead(r)
        &&& later.spec_contacts()@ == self.spec_contacts()@.insert(r, later.spec_contacts()@[r])
        &&& later.spec_contacts()@[r].spec_body_a() == a
        &&& later.spec_contacts()@[r].spec_fixture_a() == fa
        &&& later.spec_contacts()@[r].spec_body_b() == b
        &&& later.spec_contacts()@[r].spec_fixture_b() == fb
        &&& later.spec_contacts()@[r].spec_enabled()
        &&& later.spec_joints() == self.spec_joints()
        &&& later.spec_bodies().handle_seq() == self.spec_bodies().handle_seq()
        &&& forall|x: BodyHandle|
            self.spec_bodies()@.contains_key(x) ==> #[trigger] later.spec_bodies().borrow_state(x)
                == self.spec_bodies().borrow_state(x)
        &&& forall|x: BodyHandle| #[trigger]
            later.spec_bodies()@.contains_key(x) <==> self.spec_bodies()@.contains_key(x)
        &&& forall|x: BodyHandle| #[trigger]
            self.spec_bodies()@.contains_key(x) ==> {
                &&& later.spec_bodies()@[x].same_except_lists(self.spec_bodies()@[x])
                &&& later.joint_list_of(x) == self.joint_list_of(x)
                &&& later.spec_bodies().borrow_state(x) == self.spec_bodies().borrow_state(x)
                &&& later.contact_list_of(x) == if x == a {
                    self.contact_list_of(x).push(ContactEdge { other: b, contact: r })
                } else if x == b {
                    self.contact_list_of(x).push(ContactEdge { other: a, contact: r })
                } else {
                    self.contact_list_of(x)
                }
            }
    }

    /// Records that fixture `fixture_a` of `body_a` and fixture `fixture_b`
    /// of `body_b` have begun to touch: a new enabled contact, entered in the
    /// contact lists of both bodies.
    pub fn begin_contact(
        &mut self,
        body_a: BodyHandle,
        fixture_a: FixtureHandle,
        body_b: BodyHandle,
        fixture_b: FixtureHandle,
    ) -> (r: ContactHandle)
        requires
            old(self).wf(),
            old(self).spec_bodies()@.contains_key(body_a),
            old(self).spec_bodies()@.contains_key(body_b),
            body_a != body_b,
            old(self).spec_bodies()@[body_a].spec_fixtures()@.contains_key(fixture_a),
            old(self).spec_bodies()@[body_b].spec_fixtures()@.contains_key(fixture_b),
        ensures
            final(self).wf(),
            old(self).contact_listed(*final(self), r, body_a, fixture_a, body_b, fixture_b),
            old(self).keeps_dead_handles(*final(self)),
    {
        let make = move|h: ContactHandle| -> (ct: Contact)
            ensures
                ct.body_a == body_a,
                ct.fixture_a == fixture_a,
                ct.body_b == body_b,
                ct.fixture_b == fixture_b,
                ct.enabled,
            { Contact { body_a, fixture_a, body_b, fixture_b, enabled: true } };
        let r = self.contacts.insert_with(make);
        let ghost w1 = *self;
        self.push_contact_edge(body_a, ContactEdge { other: body_b, contact: r });
        let ghost w2 = *self;
        self.push_contact_edge(body_b, ContactEdge { other: body_a, contact: r });
        proof {
            let w0 = *old(self);
            let w = *self;
            let a = body_a;
            let b = body_b;
            assert(w.spec_bodies()@[a] == w2.spec_bodies()@[a]);
            assert(w1.spec_bodies()@[b] == w0.spec_bodies()@[b]);
            assert(w0.contact_listed(w, r, body_a, fixture_a, body_b, fixture_b));
            let nb = w.spec_bodies()@;
            let ob = w0.spec_bodies()@;
            assert forall|g: ContactHandle| #[trigger] w.spec_contacts()@.contains_key(g) implies w.contact_ok(g) by {
                if g == r {
                    assert(w.contact_list_of(a)[w.contact_list_of(a).len() - 1] == ContactEdge { other: b, contact: r });
                    assert(w.contact_list_of(b)[w.contact_list_of(b).len() - 1] == ContactEdge { other: a, contact: r });
                } else {
                    assert(w0.contact_ok(g));
                    let ct = w0.spec_contacts()@[g];
                    let ga = ct.spec_body_a();
                    let gb = ct.spec_body_b();
                    let ea = ContactEdge { other: gb, contact: g };
                    let eb = ContactEdge { other: ga, contact: g };
                    let ka = choose|k: int| 0 <= k < w0.contact_list_of(ga).len() && w0.contact_list_of(ga)[k] == ea;
                    let kb = choose|k: int| 0 <= k < w0.contact_list_of(gb).len() && w0.contact_list_of(gb)[k] == eb;
                    assert(w.contact_list_of(ga)[ka] == ea);
                    assert(w.contact_list_of(gb)[kb] == eb);
                }
            }
            assert forall|j: JointHandle| #[trigger] w.spec_joints()@.contains_key(j) implies w.joint_ok(j) by {
                assert(w0.joint_ok(j));
            }
            assert forall|x: BodyHandle| #[trigger] nb.contains_key(x) implies nb[x].wf() && nb[x].spec_handle() == x by {
                assert(ob.contains_key(x));
            }
            assert forall|x: BodyHandle, k: int|
                nb.contains_key(x) && 0 <= k < nb[x].spec_body().contact_list().len()
                implies w.contact_edge_ok(x, #[trigger] nb[x].spec_body().contact_list()[k]) by {
                if k < w0.contact_list_of(x).len() {
                    assert(w.contact_list_of(x)[k] == w0.contact_list_of(x)[k]);
                    assert(w0.contact_edge_ok(x, ob[x].spec_body().contact_list()[k]));
                    assert(ob[x].spec_body().contact_list()[k].contact != r);
                }
            }
            assert forall|x: BodyHandle, k: int|
                nb.contains_key(x) && 0 <= k < nb[x].spec_body().joint_list().len()
                implies w.joint_edge_ok(x, #[trigger] nb[x].spec_body().joint_list()[k]) by {
                assert(w0.joint_edge_ok(x, ob[x].spec_body().joint_list()[k]));
            }
        }
        r
    }
    /// The last entry of the joint list of body `h`, if any.
    fn last_joint_edge(&self, h: BodyHandle) -> (r: Option<JointEdge>)
        requires
            self.spec_bodies()@.contains_key(h),
            self.spec_bodies().borrow_state(h) != BorrowState::Exclusive,
        ensures
            r is None <==> self.joint_list_of(h).len() == 0,
            r matches Some(e) ==> self.joint_list_of(h).contains(e),
    {
        match self.bodies.get(h) {
            Some(mb) => {
                let n = mb.body.joint_edges.len();
                if n == 0 {
                    None
                } else {
                    let e = mb.body.joint_edges[n - 1];
                    proof {
                        assert(self.joint_list_of(h)[n - 1] == e);
                    }
                    Some(e)
                }
            },
            None => None,
        }
    }

    /// The last entry of the contact list of body `h`, if any.
    fn last_contact_edge(&self, h: BodyHandle) -> (r: Option<ContactEdge>)
        requires
            self.spec_bodies()@.contains_key(h),
            self.spec_bodies().borrow_state(h) != BorrowState::Exclusive,
        ensures
            r is None <==> self.contact_list_of(h).len() == 0,
            r matches Some(e) ==> self.contact_list_of(h).contains(e),
    {
        match self.bodies.get(h) {
            Some(mb) => {
                let n = mb.body.contact_edges.len();
                if n == 0 {
                    None
                } else {
                    let e = mb.body.contact_edges[n - 1];
                    proof {
                        assert(self.contact_list_of(h)[n - 1] == e);
                    }
                    Some(e)
                }
            },
            None => None,
        }
    }

    /// Destroys every joint attached to body `h`, walking its joint list.
    fn detach_joints(&mut self, h: BodyHandle)
        requires
            old(self).wf(),
            old(self).spec_bodies()@.contains_key(h),
            old(self).spec_bodies().borrow_state(h) == BorrowState::Unused,
        ensures
            final(self).wf(),
            final(self).joint_list_of(h).len() == 0,
            final(self).spec_contacts() == old(self).spec_contacts(),
            final(self).spec_bodies().handle_seq() == old(self).spec_bodies().handle_seq(),
            forall|x: BodyHandle| #[trigger]
                final(self).spec_bodies()@.contains_key(x) <==> old(self).spec_bodies()@.contains_key(x),
            forall|x: BodyHandle| #[trigger]
                old(self).spec_bodies()@.contains_key(x) ==> {
                    &&& final(self).spec_bodies()@[x].same_except_lists(old(self).spec_bodies()@[x])
                    &&& final(self).contact_list_of(x) == old(self).contact_list_of(x)
                    &&& final(self).spec_bodies().borrow_state(x) == old(self).spec_bodies().borrow_state(x)
                    &&& x != h ==> forall|e: JointEdge| #[trigger]
                        final(self).joint_list_of(x).contains(e) <==> old(self).joint_list_of(x).contains(e)
                            && e.other != h
                },
            forall|j: JointHandle| #[trigger]
                final(self).spec_joints()@.contains_key(j) <==> old(self).spec_joints()@.contains_key(j)
                    && !old(self).spec_joints()@[j].spec_joint().attached_to(h),
            forall|j: JointHandle| #[trigger]
                final(self).spec_joints()@.contains_key(j) ==> final(self).spec_joints()@[j] == old(self).spec_joints()@[j],
            old(self).keeps_dead_handles(*final(self)),
            forall|j: JointHandle| #[trigger]
                old(self).spec_joints()@.contains_key(j) ==> final(self).spec_joints()@.contains_key(j) || final(self).spec_joints().dead(j),
    {
        let ghost w0 = *old(self);
        let mut next = self.last_joint_edge(h);
        while next.is_some()
            invariant
                self.wf(),
                self.spec_bodies()@.contains_key(h),
                self.spec_bodies().borrow_state(h) == BorrowState::Unused,
                next is None <==> self.joint_list_of(h).len() == 0,
                next matches Some(e) ==> self.joint_list_of(h).contains(e),
                self.spec_contacts() == w0.spec_contacts(),
                self.spec_bodies().handle_seq() == w0.spec_bodies().handle_seq(),
                forall|x: BodyHandle| #[trigger]
                    self.spec_bodies()@.contains_key(x) <==> w0.spec_bodies()@.contains_key(x),
                forall|x: BodyHandle| #[trigger]
                    w0.spec_bodies()@.contains_key(x) ==> {
                        &&& self.spec_bodies()@[x].same_except_lists(w0.spec_bodies()@[x])
                        &&& self.contact_list_of(x) == w0.contact_list_of(x)
                        &&& self.spec_bodies().borrow_state(x) == w0.spec_bodies().borrow_state(x)
                        &&& x != h ==> forall|e: JointEdge| #[trigger]
                            self.joint_list_of(x).contains(e) <==> w0.joint_list_of(x).contains(e)
                                && self.spec_joints()@.contains_key(e.joint)
                    },
                forall|j: JointHandle| #[trigger]
                    self.spec_joints()@.contains_key(j) ==> w0.spec_joints()@.contains_key(j)
                        && self.spec_joints()@[j] == w0.spec_joints()@[j],
                forall|j: JointHandle| #[trigger]
                    w0.spec_joints()@.contains_key(j) && !w0.spec_joints()@[j].spec_joint().attached_to(h)
                        ==> self.spec_joints()@.contains_key(j),
                w0.keeps_dead_handles(*self),
                forall|j: JointHandle| #[trigger]
                    w0.spec_joints()@.contains_key(j) ==> self.spec_joints()@.contains_key(j) || self.spec_joints().dead(j),
            decreases self.joint_list_of(h).len(),
        {
            let e = next.unwrap();
            let ghost w = *self;
            proof {
                let k = choose|k: int| 0 <= k < w.joint_list_of(h).len() && w.joint_list_of(h)[k] == e;
                assert(w.joint_edge_ok(h, w.spec_bodies()@[h].spec_body().joint_list()[k]));
                assert(w.joint_list_of(h)[k].joint == e.joint);
            }
            self.destroy_joint(e.joint);
            proof {
                let w1 = *self;
                Self::lemma_keeps_dead_trans(w0, w, w1);
                assert forall|j: JointHandle| #[trigger] w0.spec_joints()@.contains_key(j) implies
                    w1.spec_joints()@.contains_key(j) || w1.spec_joints().dead(j) by {
                    if j != e.joint {
                        assert(w.spec_joints()@.contains_key(j) || w.spec_joints().dead(j));
                    }
                }
                assert(w.joint_unlisted(w1, e.joint));
                assert forall|x: BodyHandle| #[trigger] w0.spec_bodies()@.contains_key(x) implies {
                    &&& w1.spec_bodies()@[x].same_except_lists(w0.spec_bodies()@[x])
                    &&& w1.contact_list_of(x) == w0.contact_list_of(x)
                    &&& w1.spec_bodies().borrow_state(x) == w0.spec_bodies().borrow_state(x)
                    &&& x != h ==> forall|e2: JointEdge| #[trigger]
                        w1.joint_list_of(x).contains(e2) <==> w0.joint_list_of(x).contains(e2)
                            && w1.spec_joints()@.contains_key(e2.joint)
                } by {
                    assert(w.spec_bodies()@.contains_key(x));
                    if x != h {
                        assert forall|e2: JointEdge| #[trigger]
                            w1.joint_list_of(x).contains(e2) <==> w0.joint_list_of(x).contains(e2)
                                && w1.spec_joints()@.contains_key(e2.joint) by {
                            assert(w1.joint_list_of(x).contains(e2) <==> w.joint_list_of(x).contains(e2) && e2.joint != e.joint);
                            assert(w.joint_list_of(x).contains(e2) <==> w0.joint_list_of(x).contains(e2)
                                && w.spec_joints()@.contains_key(e2.joint));
                        }
                    }
                }
                assert forall|j: JointHandle| #[trigger]
                    w0.spec_joints()@.contains_key(j) && !w0.spec_joints()@[j].spec_joint().attached_to(h)
                    implies w1.spec_joints()@.contains_key(j) by {
                    assert(w.spec_joints()@.contains_key(j));
                    if j == e.joint {
                        assert(w.spec_joints()@[j] == w0.spec_joints()@[j]);
                    }
                }
                if w.joint_list_of(h).len() > 0 {
                    let k = choose|k: int| 0 <= k < w.joint_list_of(h).len() && w.joint_list_of(h)[k] == e;
                    assert(w.joint_list_of(h)[k].joint == e.joint);
                }
            }
            next = self.last_joint_edge(h);
        }
        proof {
            let w = *self;
            assert forall|j: JointHandle| #[trigger] w.spec_joints()@.contains_key(j) implies !w0.spec_joints()@[j].spec_joint().attached_to(h) by {
                assert(w.joint_ok(j));
                let a = w.spec_joints()@[j].spec_joint().spec_body_a();
                let b = w.spec_joints()@[j].spec_joint().spec_body_b();
                assert(w.joint_list_of(a).contains(JointEdge { other: b, joint: j }));
                assert(w.joint_list_of(b).contains(JointEdge { other: a, joint: j }));
            }
            assert forall|x: BodyHandle| #[trigger] w0.spec_bodies()@.contains_key(x) && x != h implies forall|e: JointEdge| #[trigger]
                w.joint_list_of(x).contains(e) <==> w0.joint_list_of(x).contains(e) && e.other != h by {
                assert forall|e: JointEdge| #[trigger] w.joint_list_of(x).contains(e) <==> w0.joint_list_of(x).contains(e) && e.other != h by {
                    if w0.joint_list_of(x).contains(e) {
                        let k = choose|k: int| 0 <= k < w0.joint_list_of(x).len() && w0.joint_list_of(x)[k] == e;
                        assert(w0.joint_edge_ok(x, w0.spec_bodies()@[x].spec_body().joint_list()[k]));
                        if w.spec_joints()@.contains_key(e.joint) {
                            assert(!w0.spec_joints()@[e.joint].spec_joint().attached_to(h));
                        }
                    }
                }
            }
        }
    }
    /// Ends every contact of body `h`, walking its contact list.
    fn detach_contacts(&mut self, h: BodyHandle)
        requires
            old(self).wf(),
            old(self).spec_bodies()@.contains_key(h),
            old(self).spec_bodies().borrow_state(h) == BorrowState::Unused,
        ensures
            final(self).wf(),
            final(self).contact_list_of(h).len() == 0,
            final(self).spec_joints() == old(self).spec_joints(),
            final(self).spec_bodies().handle_seq() == old(self).spec_bodies().handle_seq(),
            forall|x: BodyHandle| #[trigger]
                final(self).spec_bodies()@.contains_key(x) <==> old(self).spec_bodies()@.contains_key(x),
            forall|x: BodyHandle| #[trigger]
                old(self).spec_bodies()@.contains_key(x) ==> {
                    &&& final(self).spec_bodies()@[x].same_except_lists(old(self).spec_bodies()@[x])
                    &&& final(self).joint_list_of(x) == old(self).joint_list_of(x)
                    &&& final(self).spec_bodies().borrow_state(x) == old(self).spec_bodies().borrow_state(x)
                    &&& x != h ==> forall|e: ContactEdge| #[trigger]
                        final(self).contact_list_of(x).contains(e) <==> old(self).contact_list_of(x).contains(e)
                            && e.other != h
                },
            forall|j: ContactHandle| #[trigger]
                final(self).spec_contacts()@.contains_key(j) <==> old(self).spec_contacts()@.contains_key(j)
                    && !old(self).spec_contacts()@[j].attached_to(h),
            forall|j: ContactHandle| #[trigger]
                final(self).spec_contacts()@.contains_key(j) ==> final(self).spec_contacts()@[j] == old(self).spec_contacts()@[j],
            old(self).keeps_dead_handles(*final(self)),
            forall|j: ContactHandle| #[trigger]
                old(self).spec_contacts()@.contains_key(j) ==> final(self).spec_contacts()@.contains_key(j) || final(self).spec_contacts().dead(j),
    {
        let ghost w0 = *old(self);
        let mut next = self.last_contact_edge(h);
        while next.is_some()
            invariant
                self.wf(),
                self.spec_bodies()@.contains_key(h),
                self.spec_bodies().borrow_state(h) == BorrowState::Unused,
                next is None <==> self.contact_list_of(h).len() == 0,
                next matches Some(e) ==> self.contact_list_of(h).contains(e),
                self.spec_joints() == w0.spec_joints(),
                self.spec_bodies().handle_seq() == w0.spec_bodies().handle_seq(),
                forall|x: BodyHandle| #[trigger]
                    self.spec_bodies()@.contains_key(x) <==> w0.spec_bodies()@.contains_key(x),
                forall|x: BodyHandle| #[trigger]
                    w0.spec_bodies()@.contains_key(x) ==> {
                        &&& self.spec_bodies()@[x].same_except_lists(w0.spec_bodies()@[x])
                        &&& self.joint_list_of(x) == w0.joint_list_of(x)
                        &&& self.spec_bodies().borrow_state(x) == w0.spec_bodies().borrow_state(x)
                        &&& x != h ==> forall|e: ContactEdge| #[trigger]
                            self.contact_list_of(x).contains(e) <==> w0.contact_list_of(x).contains(e)
                                && self.spec_contacts()@.contains_key(e.contact)
                    },
                forall|j: ContactHandle| #[trigger]
                    self.spec_contacts()@.contains_key(j) ==> w0.spec_contacts()@.contains_key(j)
                        && self.spec_contacts()@[j] == w0.spec_contacts()@[j],
                forall|j: ContactHandle| #[trigger]
                    w0.spec_contacts()@.contains_key(j) && !w0.spec_contacts()@[j].attached_to(h)
                        ==> self.spec_contacts()@.contains_key(j),
                w0.keeps_dead_handles(*self),
                forall|j: ContactHandle| #[trigger]
                    w0.spec_contacts()@.contains_key(j) ==> self.spec_contacts()@.contains_key(j) || self.spec_contacts().dead(j),
            decreases self.contact_list_of(h).len(),
        {
            let e = next.unwrap();
            let ghost w = *self;
            proof {
                let k = choose|k: int| 0 <= k < w.contact_list_of(h).len() && w.contact_list_of(h)[k] == e;
                assert(w.contact_edge_ok(h, w.spec_bodies()@[h].spec_body().contact_list()[k]));
                assert(w.contact_list_of(h)[k].contact == e.contact);
            }
            self.end_contact(e.contact);
            proof {
                let w1 = *self;
                Self::lemma_keeps_dead_trans(w0, w, w1);
                assert forall|j: ContactHandle| #[trigger] w0.spec_contacts()@.contains_key(j) implies
                    w1.spec_contacts()@.contains_key(j) || w1.spec_contacts().dead(j) by {
                    if j != e.contact {
                        assert(w.spec_contacts()@.contains_key(j) || w.spec_contacts().dead(j));
                    }
                }
                assert(w.contact_unlisted(w1, e.contact));
                assert forall|x: BodyHandle| #[trigger] w0.spec_bodies()@.contains_key(x) implies {
                    &&& w1.spec_bodies()@[x].same_except_lists(w0.spec_bodies()@[x])
                    &&& w1.joint_list_of(x) == w0.joint_list_of(x)
                    &&& w1.spec_bodies().borrow_state(x) == w0.spec_bodies().borrow_state(x)
                    &&& x != h ==> forall|e2: ContactEdge| #[trigger]
                        w1.contact_list_of(x).contains(e2) <==> w0.contact_list_of(x).contains(e2)
                            && w1.spec_contacts()@.contains_key(e2.contact)
                } by {
                    assert(w.spec_bodies()@.contains_key(x));
                    if x != h {
                        assert forall|e2: ContactEdge| #[trigger]
                            w1.contact_list_of(x).contains(e2) <==> w0.contact_list_of(x).contains(e2)
                                && w1.spec_contacts()@.contains_key(e2.contact) by {
                            assert(w1.contact_list_of(x).contains(e2) <==> w.contact_list_of(x).contains(e2) && e2.contact != e.contact);
                            assert(w.contact_list_of(x).contains(e2) <==> w0.contact_list_of(x).contains(e2)
                                && w.spec_contacts()@.contains_key(e2.contact));
                        }
                    }
                }
                assert forall|j: ContactHandle| #[trigger]
                    w0.spec_contacts()@.contains_key(j) && !w0.spec_contacts()@[j].attached_to(h)
                    implies w1.spec_contacts()@.contains_key(j) by {
                    assert(w.spec_contacts()@.contains_key(j));
                    if j == e.contact {
                        assert(w.spec_contacts()@[j] == w0.spec_contacts()@[j]);
                    }
                }
                if w.contact_list_of(h).len() > 0 {
                    let k = choose|k: int| 0 <= k < w.contact_list_of(h).len() && w.contact_list_of(h)[k] == e;
                    assert(w.contact_list_of(h)[k].contact == e.contact);
                }
            }
            next = self.last_contact_edge(h);
        }
        proof {
            let w = *self;
            assert forall|j: ContactHandle| #[trigger] w.spec_contacts()@.contains_key(j) implies !w0.spec_contacts()@[j].attached_to(h) by {
                assert(w.contact_ok(j));
                let a = w.spec_contacts()@[j].spec_body_a();
                let b = w.spec_contacts()@[j].spec_body_b();
                assert(w.contact_list_of(a).contains(ContactEdge { other: b, contact: j }));
                assert(w.contact_list_of(b).contains(ContactEdge { other: a, contact: j }));
            }
            assert forall|x: BodyHandle| #[trigger] w0.spec_bodies()@.contains_key(x) && x != h implies forall|e: ContactEdge| #[trigger]
                w.contact_list_of(x).contains(e) <==> w0.contact_list_of(x).contains(e) && e.other != h by {
                assert forall|e: ContactEdge| #[trigger] w.contact_list_of(x).contains(e) <==> w0.contact_list_of(x).contains(e) && e.other != h by {
                    if w0.contact_list_of(x).contains(e) {
                        let k = choose|k: int| 0 <= k < w0.contact_list_of(x).len() && w0.contact_list_of(x)[k] == e;
                        assert(w0.contact_edge_ok(x, w0.spec_bodies()@[x].spec_body().contact_list()[k]));
                        if w.spec_contacts()@.contains_key(e.contact) {
                            assert(!w0.spec_contacts()@[e.contact].attached_to(h));
                        }
                    }
                }
            }
        }
    }
    /// `later` is this world after body `h` was destroyed: the body is gone
    /// and its handle dead, every joint and contact attached to it is gone
    /// and unlisted from the other bodies, and nothing else changed.
    pub open spec fn body_destroyed(&self, later: Self, h: BodyHandle) -> bool {
        &&& later.spec_bodies().dead(h)
        &&& forall|j: JointHandle| #[trigger]
            self.spec_joints()@.contains_key(j) && self.spec_joints()@[j].spec_joint().attached_to(h)
                ==> later.spec_joints().dead(j)
        &&& forall|c: ContactHandle| #[trigger]
            self.spec_contacts()@.contains_key(c) && self.spec_contacts()@[c].attached_to(h)
                ==> later.spec_contacts().dead(c)
        &&& forall|x: BodyHandle|
            later.spec_bodies()@.contains_key(x) ==> #[trigger] later.spec_bodies().borrow_state(x)
                == self.spec_bodies().borrow_state(x)
        &&& forall|x: BodyHandle| #[trigger]
            later.spec_bodies()@.contains_key(x) <==> self.spec_bodies()@.contains_key(x) && x != h
        &&& forall|x: BodyHandle| #[trigger]
            later.spec_bodies()@.contains_key(x) ==> {
                &&& later.spec_bodies()@[x].same_except_lists(self.spec_bodies()@[x])
                &&& later.spec_bodies().borrow_state(x) == self.spec_bodies().borrow_state(x)
                &&& forall|e: JointEdge| #[trigger]
                    later.joint_list_of(x).contains(e) <==> self.joint_list_of(x).contains(e) && e.other != h
                &&& forall|e: ContactEdge| #[trigger]
                    later.contact_list_of(x).contains(e) <==> self.contact_list_of(x).contains(e) && e.other != h
            }
        &&& forall|j: JointHandle| #[trigger]
            later.spec_joints()@.contains_key(j) <==> self.spec_joints()@.contains_key(j)
                && !self.spec_joints()@[j].spec_joint().attached_to(h)
        &&& forall|j: JointHandle| #[trigger]
            later.spec_joints()@.contains_key(j) ==> later.spec_joints()@[j] == self.spec_joints()@[j]
        &&& forall|c: ContactHandle| #[trigger]
            later.spec_contacts()@.contains_key(c) <==> self.spec_contacts()@.contains_key(c)
                && !self.spec_contacts()@[c].attached_to(h)
        &&& forall|c: ContactHandle| #[trigger]
            later.spec_contacts()@.contains_key(c) ==> later.spec_contacts()@[c] == self.spec_contacts()@[c]
    }

    /// Destroys body `handle` with its fixtures. Every joint attached to it
    /// is destroyed first, found through the body's joint list, and every
    /// contact it is part of is ended, found through its contact list.
    pub fn destroy_body(&mut self, handle: BodyHandle)
        requires
            old(self).wf(),
            old(self).spec_bodies()@.contains_key(handle),
            old(self).spec_bodies().borrow_state(handle) == BorrowState::Unused,
        ensures
            final(self).wf(),
            old(self).body_destroyed(*final(self), handle),
            old(self).keeps_dead_handles(*final(self)),
    {
        self.detach_joints(handle);
        let ghost w1 = *self;
        self.detach_contacts(handle);
        let ghost w2 = *self;
        proof {
            assert(old(self).spec_bodies()@.contains_key(handle));
            assert(w1.spec_bodies()@.contains_key(handle));
        }
        let _gone = self.bodies.remove(handle);
        proof {
            let w0 = *old(self);
            let w = *self;
            Self::lemma_keeps_dead_trans(w0, w1, w2);
            Self::lemma_keeps_dead_trans(w0, w2, w);
            assert forall|j: JointHandle| #[trigger]
                w0.spec_joints()@.contains_key(j) && w0.spec_joints()@[j].spec_joint().attached_to(handle)
                implies w.spec_joints().dead(j) by {
                assert(w1.spec_joints()@.contains_key(j) || w1.spec_joints().dead(j));
            }
            assert forall|c: ContactHandle| #[trigger]
                w0.spec_contacts()@.contains_key(c) && w0.spec_contacts()@[c].attached_to(handle)
                implies w.spec_contacts().dead(c) by {
                assert(w1.spec_contacts()@.contains_key(c));
                assert(w2.spec_contacts()@.contains_key(c) || w2.spec_contacts().dead(c));
            }
            let nb = w.spec_bodies()@;
            assert forall|x: BodyHandle| #[trigger] nb.contains_key(x) implies nb[x].wf() && nb[x].spec_handle() == x by {
                assert(w2.spec_bodies()@.contains_key(x));
            }
            assert forall|j: JointHandle| #[trigger] w.spec_joints()@.contains_key(j) implies w.joint_ok(j) by {
                assert(w2.joint_ok(j));
                assert(w1.spec_joints()@[j] == w0.spec_joints()@[j]);
            }
            assert forall|c: ContactHandle| #[trigger] w.spec_contacts()@.contains_key(c) implies w.contact_ok(c) by {
                assert(w2.contact_ok(c));
                assert(w2.spec_contacts()@[c] == w1.spec_contacts()@[c]);
            }
            assert forall|x: BodyHandle, k: int|
                nb.contains_key(x) && 0 <= k < nb[x].spec_body().joint_list().len()
                implies w.joint_edge_ok(x, #[trigger] nb[x].spec_body().joint_list()[k]) by {
                assert(w2.joint_edge_ok(x, w2.spec_bodies()@[x].spec_body().joint_list()[k]));
            }
            assert forall|x: BodyHandle, k: int|
                nb.contains_key(x) && 0 <= k < nb[x].spec_body().contact_list().len()
                implies w.contact_edge_ok(x, #[trigger] nb[x].spec_body().contact_list()[k]) by {
                assert(w2.contact_edge_ok(x, w2.spec_bodies()@[x].spec_body().contact_list()[k]));
            }
            assert forall|x: BodyHandle| #[trigger] nb.contains_key(x) implies {
                &&& nb[x].same_except_lists(w0.spec_bodies()@[x])
                &&& w.spec_bodies().borrow_state(x) == w0.spec_bodies().borrow_state(x)
                &&& forall|e: JointEdge| #[trigger]
                    w.joint_list_of(x).contains(e) <==> w0.joint_list_of(x).contains(e) && e.other != handle
                &&& forall|e: ContactEdge| #[trigger]
                    w.contact_list_of(x).contains(e) <==> w0.contact_list_of(x).contains(e) && e.other != handle
            } by {
                assert(w0.spec_bodies()@.contains_key(x));
                assert(w1.spec_bodies()@.contains_key(x));
                assert(x != handle);
                assert(nb[x] == w2.spec_bodies()@[x]);
                assert forall|e: JointEdge| #[trigger]
                    w.joint_list_of(x).contains(e) <==> w0.joint_list_of(x).contains(e) && e.other != handle by {
                    assert(w.joint_list_of(x) == w2.joint_list_of(x));
                    assert(w2.joint_list_of(x) == w1.joint_list_of(x));
                }
                assert forall|e: ContactEdge| #[trigger]
                    w.contact_list_of(x).contains(e) <==> w0.contact_list_of(x).contains(e) && e.other != handle by {
                    assert(w.contact_list_of(x) == w2.contact_list_of(x));
                    assert(w1.contact_list_of(x) == w0.contact_list_of(x));
                }
            }
            assert forall|c: ContactHandle| #[trigger]
                w.spec_contacts()@.contains_key(c) <==> w0.spec_contacts()@.contains_key(c)
                    && !w0.spec_contacts()@[c].attached_to(handle) by {
            }
        }
    }

    /// Destroying a body takes every joint attached to it out of the joint
    /// pool, and no joint that stays refers to a body that is gone.
    pub proof fn lemma_destroy_body_cascade(before: Self, after: Self, b: BodyHandle, j: JointHandle)
        requires
            before.wf(),
            after.wf(),
            before.body_destroyed(after, b),
            before.spec_joints()@.contains_key(j),
            before.spec_joints()@[j].spec_joint().attached_to(b),
        ensures
            !after.spec_joints()@.contains_key(j),
            forall|g: JointHandle| #[trigger]
                after.spec_joints()@.contains_key(g) ==> !after.spec_joints()@[g].spec_joint().attached_to(b)
                    && after.spec_bodies()@.contains_key(after.spec_joints()@[g].spec_joint().spec_body_a())
                    && after.spec_bodies()@.contains_key(after.spec_joints()@[g].spec_joint().spec_body_b()),
    {
        assert forall|g: JointHandle| #[trigger] after.spec_joints()@.contains_key(g) implies
            !after.spec_joints()@[g].spec_joint().attached_to(b)
            && after.spec_bodies()@.contains_key(after.spec_joints()@[g].spec_joint().spec_body_a())
            && after.spec_bodies()@.contains_key(after.spec_joints()@[g].spec_joint().spec_body_b()) by {
            assert(after.joint_ok(g));
        }
    }

    /// The body of `handle`, which must be live and not exclusively
    /// borrowed.
    pub fn body(&self, handle: BodyHandle) -> (r: &MetaBody<U>)
        requires
            self.spec_bodies()@.contains_key(handle),
            self.spec_bodies().borrow_state(handle) != BorrowState::Exclusive,
        ensures
            *r == self.spec_bodies()@[handle],
    {
        match self.bodies.get(handle) {
            Some(b) => b,
            None => vstd::pervasive::unreached(),
        }
    }

    /// Mutable access to the body of `handle`, which must be live and not
    /// borrowed.
    pub fn body_mut(&mut self, handle: BodyHandle) -> (r: &mut MetaBody<U>)
        requires
            old(self).wf(),
            old(self).spec_bodies()@.contains_key(handle),
            old(self).spec_bodies().borrow_state(handle) == BorrowState::Unused,
        ensures
            *r == old(self).spec_bodies()@[handle],
            (*r).wf(),
            (*r).spec_handle() == handle,
            final(self).spec_bodies()@ == old(self).spec_bodies()@.insert(handle, *final(r)),
            final(self).spec_bodies().wf(),
            final(self).spec_bodies().handle_seq() == old(self).spec_bodies().handle_seq(),
            forall|g: BodyHandle|
                old(self).spec_bodies()@.contains_key(g) ==> final(self).spec_bodies().borrow_state(g)
                    == old(self).spec_bodies().borrow_state(g),
            final(self).spec_joints() == old(self).spec_joints(),
            final(self).spec_contacts() == old(self).spec_contacts(),
            old(self).keeps_dead_handles(*final(self)),
    {
        self.bodies.get_mut(handle)
    }

    /// A change to one body through [`body_mut`](Self::body_mut) that keeps
    /// its links (as every method of [`MetaBody`] does) keeps the world well
    /// formed.
    pub proof fn lemma_body_edit(before: Self, after: Self, handle: BodyHandle)
        requires
            before.wf(),
            before.spec_bodies()@.contains_key(handle),
            after.spec_bodies()@ == before.spec_bodies()@.insert(handle, after.spec_bodies()@[handle]),
            after.spec_bodies().wf(),
            forall|g: BodyHandle|
                before.spec_bodies()@.contains_key(g) ==> after.spec_bodies().borrow_state(g)
                    == before.spec_bodies().borrow_state(g),
            after.spec_joints() == before.spec_joints(),
            after.spec_contacts() == before.spec_contacts(),
            before.spec_bodies()@[handle].keeps_links(after.spec_bodies()@[handle]),
        ensures
            after.wf(),
    {
        let nb = after.spec_bodies()@;
        let ob = before.spec_bodies()@;
        assert forall|j: JointHandle| #[trigger] after.spec_joints()@.contains_key(j) implies after.joint_ok(j) by {
            assert(before.joint_ok(j));
        }
        assert forall|c: ContactHandle| #[trigger] after.spec_contacts()@.contains_key(c) implies after.contact_ok(c) by {
            assert(before.contact_ok(c));
        }
        assert forall|x: BodyHandle, k: int|
            nb.contains_key(x) && 0 <= k < nb[x].spec_body().joint_list().len()
            implies after.joint_edge_ok(x, #[trigger] nb[x].spec_body().joint_list()[k]) by {
            assert(before.joint_edge_ok(x, ob[x].spec_body().joint_list()[k]));
        }
        assert forall|x: BodyHandle, k: int|
            nb.contains_key(x) && 0 <= k < nb[x].spec_body().contact_list().len()
            implies after.contact_edge_ok(x, #[trigger] nb[x].spec_body().contact_list()[k]) by {
            assert(before.contact_edge_ok(x, ob[x].spec_body().contact_list()[k]));
        }
    }

    /// The handles of all bodies, in slot order.
    pub fn bodies(&self) -> (r: Vec<BodyHandle>)
        ensures
            r@ == self.spec_bodies().handle_seq(),
    {
        self.bodies.handles()
    }

    /// The joint of `handle`, which must be live.
    pub fn joint(&self, handle: JointHandle) -> (r: &MetaJoint<U>)
        requires
            self.wf(),
            self.spec_joints()@.contains_key(handle),
        ensures
            *r == self.spec_joints()@[handle],
    {
        match self.joints.get(handle) {
            Some(j) => j,
            None => vstd::pervasive::unreached(),
        }
    }

    /// Mutable access to the joint of `handle`, which must be live.
    pub fn joint_mut(&mut self, handle: JointHandle) -> (r: &mut MetaJoint<U>)
        requires
            old(self).wf(),
            old(self).spec_joints()@.contains_key(handle),
        ensures
            *r == old(self).spec_joints()@[handle],
            final(self).spec_joints()@ == old(self).spec_joints()@.insert(handle, *final(r)),
            final(self).spec_joints().wf(),
            final(self).spec_joints().handle_seq() == old(self).spec_joints().handle_seq(),
            forall|g: JointHandle|
                old(self).spec_joints()@.contains_key(g) ==> #[trigger] final(self).spec_joints().borrow_state(g)
                    == old(self).spec_joints().borrow_state(g),
            final(self).spec_bodies() == old(self).spec_bodies(),
            final(self).spec_contacts() == old(self).spec_contacts(),
            old(self).keeps_dead_handles(*final(self)),
    {
        proof {
            assert(old(self).joint_ok(handle));
        }
        self.joints.get_mut(handle)
    }

    /// A change to one joint through [`joint_mut`](Self::joint_mut) that
    /// leaves its handle and its bodies as they were (changing only the
    /// caller's data) keeps the world well formed.
    pub proof fn lemma_joint_edit(before: Self, after: Self, handle: JointHandle)
        requires
            before.wf(),
            before.spec_joints()@.contains_key(handle),
            after.spec_joints()@ == before.spec_joints()@.insert(handle, after.spec_joints()@[handle]),
            after.spec_joints().wf(),
            forall|g: JointHandle|
                before.spec_joints()@.contains_key(g) ==> #[trigger] after.spec_joints().borrow_state(g)
                    == before.spec_joints().borrow_state(g),
            after.spec_bodies() == before.spec_bodies(),
            after.spec_contacts() == before.spec_contacts(),
            after.spec_joints()@[handle].spec_handle() == handle,
            after.spec_joints()@[handle].spec_joint() == before.spec_joints()@[handle].spec_joint(),
        ensures
            after.wf(),
    {
        let nb = after.spec_bodies()@;
        assert forall|j: JointHandle| #[trigger] after.spec_joints()@.contains_key(j) implies after.joint_ok(j) by {
            assert(before.joint_ok(j));
        }
        assert forall|c: ContactHandle| #[trigger] after.spec_contacts()@.contains_key(c) implies after.contact_ok(c) by {
            assert(before.contact_ok(c));
        }
        assert forall|x: BodyHandle, k: int|
            nb.contains_key(x) && 0 <= k < nb[x].spec_body().joint_list().len()
            implies after.joint_edge_ok(x, #[trigger] nb[x].spec_body().joint_list()[k]) by {
            assert(before.joint_edge_ok(x, nb[x].spec_body().joint_list()[k]));
        }
        assert forall|x: BodyHandle, k: int|
            nb.contains_key(x) && 0 <= k < nb[x].spec_body().contact_list().len()
            implies after.contact_edge_ok(x, #[trigger] nb[x].spec_body().contact_list()[k]) by {
            assert(before.contact_edge_ok(x, nb[x].spec_body().contact_list()[k]));
        }
    }

    /// Whether `handle` names a live body.
    pub fn contains_body(&self, handle: BodyHandle) -> (r: bool)
        ensures
            r == self.spec_bodies()@.contains_key(handle),
    {
        self.bodies.contains(handle)
    }

    /// The borrows held on the live body `handle`.
    pub fn body_borrows(&self, handle: BodyHandle) -> (r: BorrowState)
        requires
            self.spec_bodies()@.contains_key(handle),
        ensures
            r == self.spec_bodies().borrow_state(handle),
    {
        self.bodies.borrows(handle)
    }

    /// Once destroyed, a body handle stays unresolvable: along any run of
    /// worlds in which each step keeps dead handles dead (every operation
    /// here does), a body handle dead at the start names a live body in
    /// none of them, so it never reaches a body created later in its slot.
    pub proof fn lemma_destroyed_body_stays_unresolved(worlds: Seq<Self>, h: BodyHandle)
        requires
            worlds.len() > 0,
            worlds[0].spec_bodies().dead(h),
            forall|i: int| 0 <= i < worlds.len() - 1 ==> (#[trigger] worlds[i]).keeps_dead_handles(worlds[i + 1]),
        ensures
            forall|i: int| 0 <= i < worlds.len() ==> !(#[trigger] worlds[i]).spec_bodies()@.contains_key(h),
    {
        let pools = Seq::new(worlds.len(), |i: int| worlds[i].spec_bodies());
        assert forall|i: int| 0 <= i < pools.len() - 1 implies (#[trigger] pools[i]).keeps_dead(pools[i + 1]) by {
            assert(worlds[i].keeps_dead_handles(worlds[i + 1]));
        }
        HandleMap::lemma_removed_stays_unresolved(pools, h);
        assert forall|i: int| 0 <= i < worlds.len() implies !(#[trigger] worlds[i]).spec_bodies()@.contains_key(h) by {
            assert(pools[i] == worlds[i].spec_bodies());
        }
    }

    /// While a shared borrow is held on a live body, its exclusive borrow
    /// (and with it [`body_mut`](Self::body_mut)) is refused; from no
    /// borrows, two shared borrows in a row both succeed.
    pub proof fn lemma_body_borrow_exclusivity(&self, h: BodyHandle)
        requires
            self.spec_bodies()@.contains_key(h),
        ensures
            self.spec_bodies().borrow_state(h) is Shared ==> self.spec_bodies().borrow_state(h).lock()
                == Err::<BorrowState, AccessError>(AccessError::AlreadyBorrowed)
                && self.spec_bodies().borrow_state(h) != BorrowState::Unused,
            self.spec_bodies().borrow_state(h) == BorrowState::Unused ==> self.spec_bodies().borrow_state(h).share()
                == Ok::<BorrowState, AccessError>(BorrowState::Shared(1))
                && BorrowState::Shared(1).share() == Ok::<BorrowState, AccessError>(BorrowState::Shared(2)),
    {
        self.spec_bodies().lemma_borrow_exclusivity(h);
    }

    /// The handles of all joints, in slot order.
    pub fn joints(&self) -> (r: Vec<JointHandle>)
        ensures
            r@ == self.spec_joints().handle_seq(),
    {
        self.joints.handles()
    }

    /// The contact of `handle`, which must be live.
    pub fn contact(&self, handle: ContactHandle) -> (r: &Contact)
        requires
            self.wf(),
            self.spec_contacts()@.contains_key(handle),
        ensures
            *r == self.spec_contacts()@[handle],
    {
        match self.contacts.get(handle) {
            Some(c) => c,
            None => vstd::pervasive::unreached(),
        }
    }

    /// Enables or disables contact `handle`.
    pub fn set_contact_enabled(&mut self, handle: ContactHandle, flag: bool)
        requires
            old(self).wf(),
            old(self).spec_contacts()@.contains_key(handle),
        ensures
            final(self).wf(),
            final(self).spec_contacts()@.contains_key(handle),
            final(self).spec_contacts()@[handle].spec_enabled() == flag,
            final(self).spec_contacts()@.remove(handle) == old(self).spec_contacts()@.remove(handle),
            final(self).spec_contacts()@.dom() == old(self).spec_contacts()@.dom(),
            final(self).spec_bodies() == old(self).spec_bodies(),
            final(self).spec_joints() == old(self).spec_joints(),
            old(self).keeps_dead_handles(*final(self)),
    {
        let ct = self.contacts.get_mut(handle);
        ct.set_enabled(flag);
        proof {
            let w0 = *old(self);
            let w = *self;
            assert(w.spec_contacts()@.remove(handle) =~= w0.spec_contacts()@.remove(handle));
            assert(w.spec_contacts()@.dom() =~= w0.spec_contacts()@.dom());
            assert forall|c: ContactHandle| #[trigger] w.spec_contacts()@.contains_key(c) implies w.contact_ok(c) by {
                assert(w0.contact_ok(c));
            }
            assert forall|j: JointHandle| #[trigger] w.spec_joints()@.contains_key(j) implies w.joint_ok(j) by {
                assert(w0.joint_ok(j));
            }
            let nb = w.spec_bodies()@;
            assert forall|x: BodyHandle, k: int|
                nb.contains_key(x) && 0 <= k < nb[x].spec_body().contact_list().len()
                implies w.contact_edge_ok(x, #[trigger] nb[x].spec_body().contact_list()[k]) by {
                assert(w0.contact_edge_ok(x, nb[x].spec_body().contact_list()[k]));
            }
            assert forall|x: BodyHandle, k: int|
                nb.contains_key(x) && 0 <= k < nb[x].spec_body().joint_list().len()
                implies w.joint_edge_ok(x, #[trigger] nb[x].spec_body().joint_list()[k]) by {
                assert(w0.joint_edge_ok(x, nb[x].spec_body().joint_list()[k]));
            }
        }
    }

    /// The handles of all contacts, in slot order.
    pub fn contacts(&self) -> (r: Vec<ContactHandle>)
        ensures
            r@ == self.spec_contacts().handle_seq(),
    {
        self.contacts.handles()
    }
    /// A copy of the contact list of body `h`.
    fn contact_list_copy(&self, h: BodyHandle) -> (r: Vec<ContactEdge>)
        requires
            self.spec_bodies()@.contains_key(h),
            self.spec_bodies().borrow_state(h) != BorrowState::Exclusive,
        ensures
            r@ == self.contact_list_of(h),
    {
        let mut r: Vec<ContactEdge> = Vec::new();
        match self.bodies.get(h) {
            Some(mb) => {
                let mut i: usize = 0;
                while i < mb.body.contact_edges.len()
                    invariant
                        *mb == self.spec_bodies()@[h],
                        i <= mb.body.contact_edges@.len(),
                        r@ == mb.body.contact_edges@.subrange(0, i as int),
                    decreases mb.body.contact_edges@.len() - i,
                {
                    r.push(mb.body.contact_edges[i]);
                    i += 1;
                    proof {
                        assert(r@ =~= mb.body.contact_edges@.subrange(0, i as int));
                    }
                }
                proof {
                    assert(r@ =~= mb.body.contact_edges@);
                }
            },
            None => {},
        }
        r
    }

    /// Destroys fixture `fixture` of body `body`, ending every contact it is
    /// a side of first.
    pub fn destroy_fixture(&mut self, body: BodyHandle, fixture: FixtureHandle)
        requires
            old(self).wf(),
            old(self).spec_bodies()@.contains_key(body),
            old(self).spec_bodies().borrow_state(body) != BorrowState::Exclusive,
            old(self).spec_bodies()@[body].spec_fixtures()@.contains_key(fixture),
            old(self).spec_bodies()@[body].spec_fixtures().borrow_state(fixture) == BorrowState::Unused,
        ensures
            final(self).wf(),
            final(self).spec_joints() == old(self).spec_joints(),
            forall|x: BodyHandle| #[trigger]
                final(self).spec_bodies()@.contains_key(x) <==> old(self).spec_bodies()@.contains_key(x),
            final(self).spec_bodies()@[body].spec_fixtures()@ == old(self).spec_bodies()@[body].spec_fixtures()@.remove(fixture),
            final(self).spec_bodies()@[body].spec_fixtures().dead(fixture),
            forall|c: ContactHandle| #[trigger]
                final(self).spec_contacts()@.contains_key(c) <==> old(self).spec_contacts()@.contains_key(c)
                    && !old(self).spec_contacts()@[c].touches(body, fixture),
            forall|c: ContactHandle| #[trigger]
                final(self).spec_contacts()@.contains_key(c) ==> final(self).spec_contacts()@[c] == old(self).spec_contacts()@[c],
            forall|c: ContactHandle| #[trigger]
                old(self).spec_contacts()@.contains_key(c) && old(self).spec_contacts()@[c].touches(body, fixture)
                    ==> final(self).spec_contacts().dead(c),
            old(self).keeps_dead_handles(*final(self)),
            final(self).spec_bodies().handle_seq() == old(self).spec_bodies().handle_seq(),
            forall|x: BodyHandle|
                old(self).spec_bodies()@.contains_key(x) ==> #[trigger] final(self).spec_bodies().borrow_state(x)
                    == old(self).spec_bodies().borrow_state(x),
            forall|x: BodyHandle| #[trigger]
                old(self).spec_bodies()@.contains_key(x) ==> {
                    &&& final(self).spec_bodies()@[x].same_state(old(self).spec_bodies()@[x])
                    &&& x != body ==> final(self).spec_bodies()@[x].spec_fixtures() == old(self).spec_bodies()@[x].spec_fixtures()
                    &&& final(self).joint_list_of(x) == old(self).joint_list_of(x)
                    &&& forall|e: ContactEdge| #[trigger]
                        final(self).contact_list_of(x).contains(e) <==> old(self).contact_list_of(x).contains(e)
                            && final(self).spec_contacts()@.contains_key(e.contact)
                },
            old(self).spec_bodies()@[body].spec_fixtures().keeps_dead(final(self).spec_bodies()@[body].spec_fixtures()),
            forall|g: FixtureHandle|
                final(self).spec_bodies()@[body].spec_fixtures()@.contains_key(g) ==> #[trigger] final(self).spec_bodies()@[body].spec_fixtures().borrow_state(g)
                    == old(self).spec_bodies()@[body].spec_fixtures().borrow_state(g),
    {
        let ghost w0 = *old(self);
        let edges = self.contact_list_copy(body);
        let mut i: usize = 0;
        while i < edges.len()
            invariant
                self.wf(),
                i <= edges@.len(),
                edges@ == w0.contact_list_of(body),
                self.spec_joints() == w0.spec_joints(),
                forall|x: BodyHandle| #[trigger]
                    self.spec_bodies()@.contains_key(x) <==> w0.spec_bodies()@.contains_key(x),
                forall|x: BodyHandle| #[trigger]
                    w0.spec_bodies()@.contains_key(x) ==> self.spec_bodies()@[x].same_except_lists(w0.spec_bodies()@[x])
                        && self.spec_bodies().borrow_state(x) == w0.spec_bodies().borrow_state(x),
                forall|c: ContactHandle| #[trigger]
                    self.spec_contacts()@.contains_key(c) ==> w0.spec_contacts()@.contains_key(c)
                        && self.spec_contacts()@[c] == w0.spec_contacts()@[c],
                forall|c: ContactHandle| #[trigger]
                    w0.spec_contacts()@.contains_key(c) && !w0.spec_contacts()@[c].touches(body, fixture)
                        ==> self.spec_contacts()@.contains_key(c),
                forall|k: int| 0 <= k < i && self.spec_contacts()@.contains_key(#[trigger] edges@[k].contact)
                    ==> !self.spec_contacts()@[edges@[k].contact].touches(body, fixture),
                w0.keeps_dead_handles(*self),
                forall|c: ContactHandle| #[trigger]
                    w0.spec_contacts()@.contains_key(c) ==> self.spec_contacts()@.contains_key(c) || self.spec_contacts().dead(c),
                self.spec_bodies().handle_seq() == w0.spec_bodies().handle_seq(),
                forall|x: BodyHandle| #[trigger]
                    w0.spec_bodies()@.contains_key(x) ==> {
                        &&& self.joint_list_of(x) == w0.joint_list_of(x)
                        &&& forall|e: ContactEdge| #[trigger]
                            self.contact_list_of(x).contains(e) <==> w0.contact_list_of(x).contains(e)
                                && self.spec_contacts()@.contains_key(e.contact)
                    },
            decreases edges@.len() - i,
        {
            let c = edges[i].contact;
            let ghost w = *self;
            let hit = match self.contacts.get(c) {
                Some(ct) => ct.is_touching(body, fixture),
                None => false,
            };
            if hit {
                self.end_contact(c);
                proof {
                    let w1 = *self;
                    assert forall|x: BodyHandle| #[trigger] w0.spec_bodies()@.contains_key(x) implies
                        w1.spec_bodies()@[x].same_except_lists(w0.spec_bodies()@[x])
                        && w1.spec_bodies().borrow_state(x) == w0.spec_bodies().borrow_state(x) by {
                        assert(w.spec_bodies()@.contains_key(x));
                    }
                    assert forall|c2: ContactHandle| #[trigger]
                        w0.spec_contacts()@.contains_key(c2) && !w0.spec_contacts()@[c2].touches(body, fixture)
                        implies w1.spec_contacts()@.contains_key(c2) by {
                        assert(w.spec_contacts()@.contains_key(c2));
                    }
                    Self::lemma_keeps_dead_trans(w0, w, w1);
                    assert forall|c2: ContactHandle| #[trigger] w0.spec_contacts()@.contains_key(c2) implies
                        w1.spec_contacts()@.contains_key(c2) || w1.spec_contacts().dead(c2) by {
                        if c2 != c {
                            assert(w.spec_contacts()@.contains_key(c2) || w.spec_contacts().dead(c2));
                        }
                    }
                    assert forall|x: BodyHandle| #[trigger] w0.spec_bodies()@.contains_key(x) implies {
                        &&& w1.joint_list_of(x) == w0.joint_list_of(x)
                        &&& forall|e: ContactEdge| #[trigger]
                            w1.contact_list_of(x).contains(e) <==> w0.contact_list_of(x).contains(e)
                                && w1.spec_contacts()@.contains_key(e.contact)
                    } by {
                        assert(w.spec_bodies()@.contains_key(x));
                        assert forall|e: ContactEdge| #[trigger]
                            w1.contact_list_of(x).contains(e) <==> w0.contact_list_of(x).contains(e)
                                && w1.spec_contacts()@.contains_key(e.contact) by {
                            assert(w1.contact_list_of(x).contains(e) <==> w.contact_list_of(x).contains(e) && e.contact != c);
                            assert(w.contact_list_of(x).contains(e) <==> w0.contact_list_of(x).contains(e)
                                && w.spec_contacts()@.contains_key(e.contact));
                        }
                    }
                }
            }
            i += 1;
        }
        let ghost w2 = *self;
        proof {
            assert(w0.spec_bodies()@.contains_key(body));
            assert forall|c: ContactHandle| #[trigger] w2.spec_contacts()@.contains_key(c) implies !w2.spec_contacts()@[c].touches(body, fixture) by {
                assert(w0.contact_ok(c));
                let ct = w0.spec_contacts()@[c];
                if ct.touches(body, fixture) {
                    let e = if ct.spec_body_a() == body {
                        ContactEdge { other: ct.spec_body_b(), contact: c }
                    } else {
                        ContactEdge { other: ct.spec_body_a(), contact: c }
                    };
                    assert(edges@.contains(e));
                    let k = choose|k: int| 0 <= k < edges@.len() && edges@[k] == e;
                    assert(edges@[k].contact == c);
                }
            }
        }
        let mb = self.bodies.slot_mut(body);
        let _gone = mb.fixtures.remove(fixture);
        proof {
            let w = *self;
            let nb = w.spec_bodies()@;
            assert forall|x: BodyHandle| #[trigger] nb.contains_key(x) implies nb[x].wf() && nb[x].spec_handle() == x by {
                assert(w2.spec_bodies()@.contains_key(x));
            }
            assert forall|j: JointHandle| #[trigger] w.spec_joints()@.contains_key(j) implies w.joint_ok(j) by {
                assert(w2.joint_ok(j));
            }
            assert forall|c: ContactHandle| #[trigger] w.spec_contacts()@.contains_key(c) implies w.contact_ok(c) by {
                assert(w2.contact_ok(c));
            }
            assert forall|x: BodyHandle, k: int|
                nb.contains_key(x) && 0 <= k < nb[x].spec_body().joint_list().len()
                implies w.joint_edge_ok(x, #[trigger] nb[x].spec_body().joint_list()[k]) by {
                assert(w2.joint_edge_ok(x, w2.spec_bodies()@[x].spec_body().joint_list()[k]));
            }
            assert forall|x: BodyHandle, k: int|
                nb.contains_key(x) && 0 <= k < nb[x].spec_body().contact_list().len()
                implies w.contact_edge_ok(x, #[trigger] nb[x].spec_body().contact_list()[k]) by {
                assert(w2.contact_edge_ok(x, w2.spec_bodies()@[x].spec_body().contact_list()[k]));
            }
            assert forall|c: ContactHandle| #[trigger]
                w.spec_contacts()@.contains_key(c) <==> w0.spec_contacts()@.contains_key(c)
                    && !w0.spec_contacts()@[c].touches(body, fixture) by {
            }
        }
    }

    /// Every live entity knows the handle it is reached by: a body, each of
    /// its fixtures, and a joint report the very handle they were looked up
    /// with.
    pub proof fn lemma_handle_round_trip(&self, b: BodyHandle, f: FixtureHandle, j: JointHandle)
        requires
            self.wf(),
        ensures
            self.spec_bodies()@.contains_key(b) ==> self.spec_bodies()@[b].spec_handle() == b,
            self.spec_bodies()@.contains_key(b) && self.spec_bodies()@[b].spec_fixtures()@.contains_key(f)
                ==> self.spec_bodies()@[b].spec_fixtures()@[f].spec_handle() == f,
            self.spec_joints()@.contains_key(j) ==> self.spec_joints()@[j].spec_handle() == j,
    {
        if self.spec_joints()@.contains_key(j) {
            assert(self.joint_ok(j));
        }
    }

    /// Walking a live body's joint list yields exactly the joints attached
    /// to it, each once, each entry naming the body at the joint's other
    /// end; likewise its contact list and its contacts.
    pub proof fn lemma_lists_exact(&self, b: BodyHandle)
        requires
            self.wf(),
            self.spec_bodies()@.contains_key(b),
        ensures
            forall|j: JointHandle|
                (self.spec_joints()@.contains_key(j) && #[trigger] self.spec_joints()@[j].spec_joint().attached_to(b))
                    <==> exists|k: int| 0 <= k < self.joint_list_of(b).len() && self.joint_list_of(b)[k].joint == j,
            forall|k: int|
                0 <= k < self.joint_list_of(b).len() ==> self.spec_joints()@[#[trigger] self.joint_list_of(b)[k].joint].spec_joint().links(
                    b,
                    self.joint_list_of(b)[k].other,
                ),
            joint_entries_distinct(self.joint_list_of(b)),
            forall|c: ContactHandle|
                (self.spec_contacts()@.contains_key(c) && #[trigger] self.spec_contacts()@[c].attached_to(b))
                    <==> exists|k: int| 0 <= k < self.contact_list_of(b).len() && self.contact_list_of(b)[k].contact == c,
            forall|k: int|
                0 <= k < self.contact_list_of(b).len() ==> self.spec_contacts()@[#[trigger] self.contact_list_of(b)[k].contact].links(
                    b,
                    self.contact_list_of(b)[k].other,
                ),
            contact_entries_distinct(self.contact_list_of(b)),
    {
        let jl = self.joint_list_of(b);
        let cl = self.contact_list_of(b);
        assert forall|k: int| 0 <= k < jl.len() implies self.spec_joints()@[#[trigger] jl[k].joint].spec_joint().links(b, jl[k].other) by {
            assert(self.joint_edge_ok(b, self.spec_bodies()@[b].spec_body().joint_list()[k]));
        }
        assert forall|j: JointHandle|
            (self.spec_joints()@.contains_key(j) && #[trigger] self.spec_joints()@[j].spec_joint().attached_to(b))
                <==> exists|k: int| 0 <= k < jl.len() && jl[k].joint == j by {
            if self.spec_joints()@.contains_key(j) && self.spec_joints()@[j].spec_joint().attached_to(b) {
                assert(self.joint_ok(j));
                let jt = self.spec_joints()@[j].spec_joint();
                let e = if jt.spec_body_a() == b {
                    JointEdge { other: jt.spec_body_b(), joint: j }
                } else {
                    JointEdge { other: jt.spec_body_a(), joint: j }
                };
                assert(jl.contains(e));
                let k = choose|k: int| 0 <= k < jl.len() && jl[k] == e;
                assert(jl[k].joint == j);
            }
            if exists|k: int| 0 <= k < jl.len() && jl[k].joint == j {
                let k = choose|k: int| 0 <= k < jl.len() && jl[k].joint == j;
                assert(self.joint_edge_ok(b, self.spec_bodies()@[b].spec_body().joint_list()[k]));
            }
        }
        assert forall|k: int| 0 <= k < cl.len() implies self.spec_contacts()@[#[trigger] cl[k].contact].links(b, cl[k].other) by {
            assert(self.contact_edge_ok(b, self.spec_bodies()@[b].spec_body().contact_list()[k]));
        }
        assert forall|c: ContactHandle|
            (self.spec_contacts()@.contains_key(c) && #[trigger] self.spec_contacts()@[c].attached_to(b))
                <==> exists|k: int| 0 <= k < cl.len() && cl[k].contact == c by {
            if self.spec_contacts()@.contains_key(c) && self.spec_contacts()@[c].attached_to(b) {
                assert(self.contact_ok(c));
                let ct = self.spec_contacts()@[c];
                let e = if ct.spec_body_a() == b {
                    ContactEdge { other: ct.spec_body_b(), contact: c }
                } else {
                    ContactEdge { other: ct.spec_body_a(), contact: c }
                };
                assert(cl.contains(e));
                let k = choose|k: int| 0 <= k < cl.len() && cl[k] == e;
                assert(cl[k].contact == c);
            }
            if exists|k: int| 0 <= k < cl.len() && cl[k].contact == c {
                let k = choose|k: int| 0 <= k < cl.len() && cl[k].contact == c;
                assert(self.contact_edge_ok(b, self.spec_bodies()@[b].spec_body().contact_list()[k]));
            }
        }
    }

    /// Every live contact stands in the contact lists of both its bodies,
    /// each entry naming the other body, so walking either body's contacts
    /// reaches it.
    pub proof fn lemma_contact_listed_on_both(&self, c: ContactHandle)
        requires
            self.wf(),
            self.spec_contacts()@.contains_key(c),
        ensures
            ({
                let ct = self.spec_contacts()@[c];
                &&& self.contact_list_of(ct.spec_body_a()).contains(ContactEdge { other: ct.spec_body_b(), contact: c })
                &&& self.contact_list_of(ct.spec_body_b()).contains(ContactEdge { other: ct.spec_body_a(), contact: c })
            }),
    {
        assert(self.contact_ok(c));
    }
    /// The bookkeeping of the body ledger alone changed between this world
    /// and `later`.
    proof fn lemma_ledger_change_keeps_wf(&self, later: Self)
        requires
            self.wf(),
            later.spec_bodies().wf(),
            later.spec_bodies().same_contents(self.spec_bodies()),
            later.spec_joints() == self.spec_joints(),
            later.spec_contacts() == self.spec_contacts(),
        ensures
            later.wf(),
    {
        let nb = later.spec_bodies()@;
        assert forall|j: JointHandle| #[trigger] later.spec_joints()@.contains_key(j) implies later.joint_ok(j) by {
            assert(self.joint_ok(j));
        }
        assert forall|c: ContactHandle| #[trigger] later.spec_contacts()@.contains_key(c) implies later.contact_ok(c) by {
            assert(self.contact_ok(c));
        }
        assert forall|x: BodyHandle, k: int|
            nb.contains_key(x) && 0 <= k < nb[x].spec_body().joint_list().len()
            implies later.joint_edge_ok(x, #[trigger] nb[x].spec_body().joint_list()[k]) by {
            assert(self.joint_edge_ok(x, nb[x].spec_body().joint_list()[k]));
        }
        assert forall|x: BodyHandle, k: int|
            nb.contains_key(x) && 0 <= k < nb[x].spec_body().contact_list().len()
            implies later.contact_edge_ok(x, #[trigger] nb[x].spec_body().contact_list()[k]) by {
            assert(self.contact_edge_ok(x, nb[x].spec_body().contact_list()[k]));
        }
    }

    /// Takes a shared borrow on body `handle`: refused when the handle is
    /// not live or the body is exclusively borrowed.
    pub fn borrow_body(&mut self, handle: BodyHandle) -> (r: Result<SharedBorrow<Body>, AccessError>)
        requires
            old(self).wf(),
        ensures
            final(self).wf(),
            final(self).spec_bodies().same_contents(old(self).spec_bodies()),
            final(self).spec_joints() == old(self).spec_joints(),
            final(self).spec_contacts() == old(self).spec_contacts(),
            !old(self).spec_bodies()@.contains_key(handle) ==> r == Err::<SharedBorrow<Body>, AccessError>(
                AccessError::InvalidHandle,
            ),
            old(self).spec_bodies()@.contains_key(handle) ==> match old(self).spec_bodies().borrow_state(handle).share() {
                Ok(s) => r matches Ok(b) && b.target() == handle && final(self).spec_bodies().borrow_state(handle) == s,
                Err(e) => r == Err::<SharedBorrow<Body>, AccessError>(e),
            },
            old(self).keeps_dead_handles(*final(self)),
    {
        let r = self.bodies.borrow(handle);
        proof {
            old(self).lemma_ledger_change_keeps_wf(*self);
        }
        r
    }

    /// Takes the exclusive borrow on body `handle`: refused when the handle
    /// is not live or the body is borrowed at all.
    pub fn borrow_body_mut(&mut self, handle: BodyHandle) -> (r: Result<ExclusiveBorrow<Body>, AccessError>)
        requires
            old(self).wf(),
        ensures
            final(self).wf(),
            final(self).spec_bodies().same_contents(old(self).spec_bodies()),
            final(self).spec_joints() == old(self).spec_joints(),
            final(self).spec_contacts() == old(self).spec_contacts(),
            !old(self).spec_bodies()@.contains_key(handle) ==> r == Err::<ExclusiveBorrow<Body>, AccessError>(
                AccessError::InvalidHandle,
            ),
            old(self).spec_bodies()@.contains_key(handle) ==> match old(self).spec_bodies().borrow_state(handle).lock() {
                Ok(s) => r matches Ok(b) && b.target() == handle && final(self).spec_bodies().borrow_state(handle) == s,
                Err(e) => r == Err::<ExclusiveBorrow<Body>, AccessError>(e),
            },
            old(self).keeps_dead_handles(*final(self)),
    {
        let r = self.bodies.borrow_mut(handle);
        proof {
            old(self).lemma_ledger_change_keeps_wf(*self);
        }
        r
    }

    /// Gives back a shared borrow on a body.
    pub fn release_body(&mut self, b: SharedBorrow<Body>)
        requires
            old(self).wf(),
            old(self).spec_bodies()@.contains_key(b.target()),
            old(self).spec_bodies().borrow_state(b.target()) is Shared,
        ensures
            final(self).wf(),
            final(self).spec_bodies().same_contents(old(self).spec_bodies()),
            final(self).spec_bodies().borrow_state(b.target()) == old(self).spec_bodies().borrow_state(b.target()).unshare(),
            final(self).spec_joints() == old(self).spec_joints(),
            final(self).spec_contacts() == old(self).spec_contacts(),
            old(self).keeps_dead_handles(*final(self)),
    {
        self.bodies.release(b);
        proof {
            old(self).lemma_ledger_change_keeps_wf(*self);
        }
    }

    /// Gives back the exclusive borrow on a body.
    pub fn release_body_mut(&mut self, b: ExclusiveBorrow<Body>)
        requires
            old(self).wf(),
            old(self).spec_bodies()@.contains_key(b.target()),
            old(self).spec_bodies().borrow_state(b.target()) == BorrowState::Exclusive,
        ensures
            final(self).wf(),
            final(self).spec_bodies().same_contents(old(self).spec_bodies()),
            final(self).spec_bodies().borrow_state(b.target()) == BorrowState::Unused,
            final(self).spec_joints() == old(self).spec_joints(),
            final(self).spec_contacts() == old(self).spec_contacts(),
            old(self).keeps_dead_handles(*final(self)),
    {
        self.bodies.release_mut(b);
        proof {
            old(self).lemma_ledger_change_keeps_wf(*self);
        }
    }
    /// The number of bodies.
    pub fn body_count(&self) -> (r: usize)
        ensures
            r == self.spec_bodies().handle_seq().len(),
    {
        self.bodies.handles().len()
    }

    /// The number of joints.
    pub fn joint_count(&self) -> (r: usize)
        ensures
            r == self.spec_joints().handle_seq().len(),
    {
        self.joints.handles().len()
    }

    /// The number of contacts.
    pub fn contact_count(&self) -> (r: usize)
        ensures
            r == self.spec_contacts().handle_seq().len(),
    {
        self.contacts.handles().len()
    }
}

} // verus!
