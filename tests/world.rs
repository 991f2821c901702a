use zoo_spree::dynamics::body::{BodyDef, BodyType};
use zoo_spree::dynamics::fixture::FixtureDef;
use zoo_spree::dynamics::joints::{JointDef, JointType, UnknownJoint};
use zoo_spree::dynamics::world::{BodyHandle, ContactHandle, JointHandle, World};
use zoo_spree::handle::AccessError;
use zoo_spree::user_data::{NoUserData, UserData, UserDataTypes};

fn dynamic_def() -> BodyDef {
    let mut def = BodyDef::new();
    def.body_type = BodyType::Dynamic;
    def
}

fn joint_list(w: &World<NoUserData>, b: BodyHandle) -> Vec<(BodyHandle, JointHandle)> {
    let mut out = Vec::new();
    let body = w.body(b);
    let mut it = body.body().joints();
    while let Some(e) = it.next() {
        out.push(e);
    }
    out
}

fn contact_list(w: &World<NoUserData>, b: BodyHandle) -> Vec<(BodyHandle, ContactHandle)> {
    let mut out = Vec::new();
    let body = w.body(b);
    let mut it = body.contacts();
    while let Some(e) = it.next() {
        out.push(e);
    }
    out
}

#[test]
fn body_reports_the_handle_it_was_created_under() {
    let mut w: World<NoUserData> = World::new();
    let a = w.create_body(&dynamic_def());
    let b = w.create_body(&BodyDef::new());
    assert_eq!(w.body(a).handle(), a);
    assert_eq!(w.body(b).handle(), b);
    assert_eq!(w.body(a).body().body_type(), BodyType::Dynamic);
    assert_eq!(w.body(b).body().body_type(), BodyType::Static);
    assert_eq!(w.bodies(), vec![a, b]);
}

#[test]
fn body_definition_defaults() {
    let def = BodyDef::new();
    let mut w: World<NoUserData> = World::new();
    let h = w.create_body(&def);
    let body = w.body(h).body();
    assert!(body.is_sleeping_allowed());
    assert!(body.is_awake());
    assert!(body.is_active());
    assert!(!body.is_bullet());
    assert!(!body.is_rotation_fixed());
}

#[test]
fn destroying_a_body_destroys_its_joints() {
    let mut w: World<NoUserData> = World::new();
    let a = w.create_body(&dynamic_def());
    let b = w.create_body(&dynamic_def());
    let c = w.create_body(&dynamic_def());
    let j1 = w.create_joint(&JointDef::new(JointType::Revolute, a, b));
    let j2 = w.create_joint(&JointDef::new(JointType::Distance, a, c));
    let j3 = w.create_joint(&JointDef::new(JointType::Weld, b, c));
    assert_eq!(joint_list(&w, a), vec![(b, j1), (c, j2)]);
    w.destroy_body(a);
    assert_eq!(w.joints(), vec![j3]);
    assert_eq!(w.joint_count(), 1);
    assert_eq!(w.bodies(), vec![b, c]);
    assert_eq!(w.body_count(), 2);
    assert_eq!(joint_list(&w, b), vec![(c, j3)]);
    assert_eq!(joint_list(&w, c), vec![(b, j3)]);
    assert_eq!(w.joint(j3).joint().body_a(), b);
}

#[test]
fn destroyed_body_handle_is_not_reused() {
    let mut w: World<NoUserData> = World::new();
    let a = w.create_body(&dynamic_def());
    w.destroy_body(a);
    assert!(!w.contains_body(a));
    let b = w.create_body(&dynamic_def());
    assert_eq!(a.index(), b.index());
    assert!(a != b);
    assert!(!w.contains_body(a));
    assert!(w.contains_body(b));
    assert_eq!(w.body(b).handle(), b);
    assert_eq!(w.bodies(), vec![b]);
}

#[test]
fn contact_is_listed_on_both_bodies() {
    let mut w: World<NoUserData> = World::new();
    let a = w.create_body(&dynamic_def());
    let b = w.create_body(&dynamic_def());
    let fa = w.body_mut(a).create_fixture(&FixtureDef::new());
    let fb = w.body_mut(b).create_fixture(&FixtureDef::new());
    let c = w.begin_contact(a, fa, b, fb);
    assert_eq!(contact_list(&w, a), vec![(b, c)]);
    assert_eq!(contact_list(&w, b), vec![(a, c)]);
    assert_eq!(w.contact(c).fixture_a(), (a, fa));
    assert_eq!(w.contact(c).fixture_b(), (b, fb));
    assert!(w.contact(c).is_enabled());
    w.set_contact_enabled(c, false);
    assert!(!w.contact(c).is_enabled());
    assert_eq!(w.contacts(), vec![c]);
}

#[test]
fn ending_a_contact_unlists_it() {
    let mut w: World<NoUserData> = World::new();
    let a = w.create_body(&dynamic_def());
    let b = w.create_body(&dynamic_def());
    let fa = w.body_mut(a).create_fixture(&FixtureDef::new());
    let fb = w.body_mut(b).create_fixture(&FixtureDef::new());
    let c = w.begin_contact(a, fa, b, fb);
    w.end_contact(c);
    assert!(contact_list(&w, a).is_empty());
    assert!(contact_list(&w, b).is_empty());
    assert!(w.contacts().is_empty());
}

#[test]
fn destroying_a_body_ends_its_contacts() {
    let mut w: World<NoUserData> = World::new();
    let a = w.create_body(&dynamic_def());
    let b = w.create_body(&dynamic_def());
    let c = w.create_body(&dynamic_def());
    let fa = w.body_mut(a).create_fixture(&FixtureDef::new());
    let fb = w.body_mut(b).create_fixture(&FixtureDef::new());
    let fc = w.body_mut(c).create_fixture(&FixtureDef::new());
    let ab = w.begin_contact(a, fa, b, fb);
    let bc = w.begin_contact(b, fb, c, fc);
    w.destroy_body(a);
    assert_eq!(w.contacts(), vec![bc]);
    assert_eq!(w.contact_count(), 1);
    assert_eq!(contact_list(&w, b), vec![(c, bc)]);
    assert!(ab != bc);
}

#[test]
fn fixtures_come_back_in_creation_order() {
    let mut w: World<NoUserData> = World::new();
    let a = w.create_body(&dynamic_def());
    let mut made = Vec::new();
    for _ in 0..4 {
        made.push(w.body_mut(a).create_fixture(&FixtureDef::new()));
    }
    let listed = w.body(a).fixtures();
    assert_eq!(listed, made);
    assert_eq!(listed.len(), 4);
    for i in 0..listed.len() {
        for k in 0..i {
            assert!(listed[i] != listed[k]);
        }
        assert_eq!(w.body(a).fixture(listed[i]).handle(), listed[i]);
    }
}

#[test]
fn destroying_a_fixture_ends_only_its_contacts() {
    let mut w: World<NoUserData> = World::new();
    let a = w.create_body(&dynamic_def());
    let b = w.create_body(&dynamic_def());
    let fa1 = w.body_mut(a).create_fixture(&FixtureDef::new());
    let fa2 = w.body_mut(a).create_fixture(&FixtureDef { is_sensor: true });
    let fb = w.body_mut(b).create_fixture(&FixtureDef::new());
    let c1 = w.begin_contact(a, fa1, b, fb);
    let c2 = w.begin_contact(b, fb, a, fa2);
    w.destroy_fixture(a, fa1);
    assert_eq!(w.contacts(), vec![c2]);
    assert_eq!(w.body(a).fixtures(), vec![fa2]);
    assert!(w.body(a).fixture(fa2).fixture().is_sensor());
    assert_eq!(contact_list(&w, a), vec![(b, c2)]);
    assert!(c1 != c2);
}

#[test]
fn destroying_a_joint_unlists_it() {
    let mut w: World<NoUserData> = World::new();
    let a = w.create_body(&dynamic_def());
    let b = w.create_body(&dynamic_def());
    let j1 = w.create_joint(&JointDef::new(JointType::Rope, a, b));
    let j2 = w.create_joint(&JointDef::new(JointType::Motor, b, a));
    w.destroy_joint(j1);
    assert_eq!(w.joints(), vec![j2]);
    assert_eq!(joint_list(&w, a), vec![(b, j2)]);
    assert_eq!(joint_list(&w, b), vec![(a, j2)]);
}

#[test]
fn joint_kind_follows_its_type_tag() {
    let mut w: World<NoUserData> = World::new();
    let a = w.create_body(&dynamic_def());
    let b = w.create_body(&dynamic_def());
    let mut def = JointDef::new(JointType::Prismatic, a, b);
    def.collide_connected = true;
    let j = w.create_joint(&def);
    let joint = w.joint(j);
    assert_eq!(joint.handle(), j);
    assert_eq!(joint.joint().kind(), UnknownJoint::Prismatic);
    assert_eq!(joint.joint().get_type(), JointType::Prismatic);
    assert!(joint.joint().is_collide_connected());
    assert_eq!(UnknownJoint::from_type(JointType::Unknown), UnknownJoint::Unknown);
    assert_eq!(UnknownJoint::from_type(JointType::Gear).get_type(), JointType::Gear);
}

struct Tagged;

impl UserDataTypes for Tagged {
    type BodyData = u32;
    type JointData = String;
    type FixtureData = i8;
}

#[test]
fn user_data_travels_with_each_entity() {
    let mut w: World<Tagged> = World::new();
    let a = w.create_body_with(&dynamic_def(), 42);
    let b = w.create_body_with(&dynamic_def(), 7);
    let f = w.body_mut(a).create_fixture_with(&FixtureDef::new(), -3);
    let j = w.create_joint_with(&JointDef::new(JointType::Wheel, a, b), "axle".to_string());
    assert_eq!(*w.body(a).user_data(), 42);
    assert_eq!(*w.body(b).user_data(), 7);
    assert_eq!(*w.body(a).fixture(f).user_data(), -3);
    assert_eq!(w.joint(j).user_data(), "axle");
    *w.body_mut(b).user_data_mut() = 8;
    assert_eq!(*w.body(b).user_data(), 8);
    *w.body_mut(a).fixture_mut(f).user_data_mut() = 5;
    assert_eq!(*w.body(a).fixture(f).user_data(), 5);
}

#[test]
fn body_flags_can_be_changed() {
    let mut w: World<NoUserData> = World::new();
    let a = w.create_body(&BodyDef::new());
    w.body_mut(a).set_body_type(BodyType::Kinematic);
    w.body_mut(a).set_bullet(true);
    w.body_mut(a).set_awake(false);
    w.body_mut(a).set_active(false);
    w.body_mut(a).set_sleeping_allowed(false);
    w.body_mut(a).set_rotation_fixed(true);
    let body = w.body(a).body();
    assert_eq!(body.body_type(), BodyType::Kinematic);
    assert!(body.is_bullet());
    assert!(!body.is_awake());
    assert!(!body.is_active());
    assert!(!body.is_sleeping_allowed());
    assert!(body.is_rotation_fixed());
}

#[test]
fn body_borrows_are_checked() {
    let mut w: World<NoUserData> = World::new();
    let a = w.create_body(&dynamic_def());
    let r1 = w.borrow_body(a).expect("shared");
    let r2 = w.borrow_body(a).expect("shared again");
    assert_eq!(w.borrow_body_mut(a).err(), Some(AccessError::AlreadyBorrowed));
    assert_eq!(w.body(a).handle(), a);
    w.release_body(r1);
    w.release_body(r2);
    let x = w.borrow_body_mut(a).expect("exclusive");
    assert_eq!(w.borrow_body(a).err(), Some(AccessError::AlreadyMutablyBorrowed));
    w.release_body_mut(x);
    w.destroy_body(a);
    assert_eq!(w.borrow_body(a).err(), Some(AccessError::InvalidHandle));
}

#[test]
fn fixture_borrows_are_checked() {
    let mut w: World<NoUserData> = World::new();
    let a = w.create_body(&dynamic_def());
    let f = w.body_mut(a).create_fixture(&FixtureDef::new());
    let s1 = w.body_mut(a).borrow_fixture(f).expect("shared");
    let s2 = w.body_mut(a).borrow_fixture(f).expect("shared again");
    assert_eq!(w.body_mut(a).borrow_fixture_mut(f).err(), Some(AccessError::AlreadyBorrowed));
    assert_eq!(w.body(a).fixture(f).handle(), f);
    w.body_mut(a).release_fixture(s1);
    w.body_mut(a).release_fixture(s2);
    let x = w.body_mut(a).borrow_fixture_mut(f).expect("exclusive");
    assert_eq!(w.body_mut(a).borrow_fixture(f).err(), Some(AccessError::AlreadyMutablyBorrowed));
    w.body_mut(a).release_fixture_mut(x);
    w.destroy_fixture(a, f);
    assert_eq!(w.body_mut(a).borrow_fixture(f).err(), Some(AccessError::InvalidHandle));
    let g = w.body_mut(a).create_fixture(&FixtureDef::new());
    assert_eq!(g.index(), f.index());
    assert!(g != f);
    assert_eq!(w.body_mut(a).borrow_fixture(f).err(), Some(AccessError::InvalidHandle));
}

#[test]
fn destroyed_joint_handle_is_not_reused() {
    let mut w: World<NoUserData> = World::new();
    let a = w.create_body(&dynamic_def());
    let b = w.create_body(&dynamic_def());
    let j1 = w.create_joint(&JointDef::new(JointType::Rope, a, b));
    w.destroy_joint(j1);
    let j2 = w.create_joint(&JointDef::new(JointType::Rope, a, b));
    assert_eq!(j1.index(), j2.index());
    assert!(j1 != j2);
    assert_eq!(w.joints(), vec![j2]);
    assert_eq!(joint_list(&w, a), vec![(b, j2)]);
}
