use zoo_spree::handle::{AccessError, BorrowState, HandleMap, TypedHandle};

#[derive(Debug)]
struct Tag;

fn pool() -> HandleMap<(TypedHandle<Tag>, u32), Tag> {
    HandleMap::new()
}

#[test]
fn inserted_entity_knows_its_handle() {
    let mut p = pool();
    let h = p.insert_with(|h| (h, 7));
    let e = p.get(h).expect("live handle");
    assert_eq!(e.0, h);
    assert_eq!(e.1, 7);
    assert!(p.contains(h));
}

#[test]
fn removed_handle_never_resolves_again() {
    let mut p = pool();
    let a = p.insert_with(|h| (h, 1));
    let removed = p.remove(a);
    assert_eq!(removed.1, 1);
    assert!(p.get(a).is_none());
    let b = p.insert_with(|h| (h, 2));
    assert_eq!(b.index(), a.index());
    assert_eq!(b.generation(), a.generation() + 1);
    assert!(a != b);
    assert!(p.get(a).is_none());
    assert!(!p.contains(a));
    assert_eq!(p.get(b).unwrap().1, 2);
    assert_eq!(p.borrow(a).err(), Some(AccessError::InvalidHandle));
    assert_eq!(p.borrow_mut(a).err(), Some(AccessError::InvalidHandle));
}

#[test]
fn shared_borrows_exclude_an_exclusive_one() {
    let mut p = pool();
    let h = p.insert_with(|h| (h, 5));
    let first = p.borrow(h).expect("first shared borrow");
    let second = p.borrow(h).expect("second shared borrow");
    assert_eq!(p.borrows(h), BorrowState::Shared(2));
    assert_eq!(p.borrow_mut(h).err(), Some(AccessError::AlreadyBorrowed));
    assert!(p.get(h).is_some());
    p.release(first);
    assert_eq!(p.borrow_mut(h).err(), Some(AccessError::AlreadyBorrowed));
    p.release(second);
    assert_eq!(p.borrows(h), BorrowState::Unused);
    let excl = p.borrow_mut(h).expect("exclusive borrow");
    assert_eq!(excl.handle(), h);
    assert_eq!(p.borrow(h).err(), Some(AccessError::AlreadyMutablyBorrowed));
    assert_eq!(p.borrow_mut(h).err(), Some(AccessError::AlreadyBorrowed));
    assert!(p.get(h).is_none());
    p.write(&excl).1 = 9;
    p.release_mut(excl);
    assert_eq!(p.get(h).unwrap().1, 9);
}

#[test]
fn handles_follow_insertion_order() {
    let mut p = pool();
    let a = p.insert_with(|h| (h, 1));
    let b = p.insert_with(|h| (h, 2));
    let c = p.insert_with(|h| (h, 3));
    assert_eq!(p.handles(), vec![a, b, c]);
    p.remove(b);
    assert_eq!(p.handles(), vec![a, c]);
}

#[test]
fn get_mut_changes_the_entity() {
    let mut p = pool();
    let h = p.insert_with(|h| (h, 1));
    p.get_mut(h).1 = 40;
    assert_eq!(p.get(h).unwrap().1, 40);
}

#[test]
fn empty_pool_has_no_handles() {
    let p = pool();
    assert!(p.handles().is_empty());
    assert!(!p.contains(TypedHandle::new(0, 0)));
}
