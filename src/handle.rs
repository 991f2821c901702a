//! A generational object pool addressed by typed handles, with a ledger of
//! the shared and exclusive borrows that callers hold on each entity.
use std::marker::PhantomData;
use vstd::prelude::*;

verus! {

/// Identifies one entity of a [`HandleMap`]: the slot that holds it and the
/// generation of that slot when the entity was inserted. The type parameter
/// only tags the kind of entity the handle refers to.
#[derive(Debug)]
pub struct TypedHandle<U> {
    index: usize,
    generation: u64,
    phantom: PhantomData<U>,
}

impl<U> TypedHandle<U> {
    pub closed spec fn spec_index(self) -> usize {
        self.index
    }

    pub closed spec fn spec_generation(self) -> u64 {
        self.generation
    }

    /// The handle of slot `index` at generation `generation`.
    pub fn new(index: usize, generation: u64) -> (r: Self)
        ensures
            r.spec_index() == index,
            r.spec_generation() == generation,
    {
        TypedHandle { index, generation, phantom: PhantomData }
    }

    pub fn index(&self) -> (r: usize)
        ensures
            r == self.spec_index(),
    {
        self.index
    }

    pub fn generation(&self) -> (r: u64)
        ensures
            r == self.spec_generation(),
    {
        self.generation
    }
}

impl<U> Clone for TypedHandle<U> {
    fn clone(&self) -> (r: Self)
        ensures
            r == *self,
    {
        TypedHandle { index: self.index, generation: self.generation, phantom: PhantomData }
    }
}

impl<U> Copy for TypedHandle<U> {

}

impl<U> PartialEq for TypedHandle<U> {
    fn eq(&self, other: &Self) -> (r: bool) {
        self.index == other.index && self.generation == other.generation
    }
}

impl<U> vstd::std_specs::cmp::PartialEqSpecImpl for TypedHandle<U> {
    open spec fn obeys_eq_spec() -> bool {
        true
    }

    open spec fn eq_spec(&self, other: &Self) -> bool {
        *self == *other
    }
}

impl<U> Eq for TypedHandle<U> {

}

/// The borrows outstanding on one entity.
#[derive(Clone, Copy, Debug, PartialEq, Eq, Structural)]
pub enum BorrowState {
    Unused,
    /// This many shared borrows are held.
    Shared(usize),
    Exclusive,
}

/// Why a handle could not be resolved or borrowed.
#[derive(Clone, Copy, Debug, PartialEq, Eq, Structural)]
pub enum AccessError {
    /// The handle names no live entity: it was removed, or never issued.
    InvalidHandle,
    /// An exclusive borrow was asked for while another borrow is held.
    AlreadyBorrowed,
    /// A shared borrow was asked for while an exclusive borrow is held.
    AlreadyMutablyBorrowed,
    /// The count of shared borrows is at its maximum.
    TooManyBorrows,
}

impl BorrowState {
    /// The state after one more shared borrow, or why it is refused.
    pub open spec fn share(self) -> Result<BorrowState, AccessError> {
        match self {
            BorrowState::Unused => Ok(BorrowState::Shared(1)),
            BorrowState::Shared(n) => if n < usize::MAX {
                Ok(BorrowState::Shared((n + 1) as usize))
            } else {
                Err(AccessError::TooManyBorrows)
            },
            BorrowState::Exclusive => Err(AccessError::AlreadyMutablyBorrowed),
        }
    }

    /// The state after an exclusive borrow, or why it is refused.
    pub open spec fn lock(self) -> Result<BorrowState, AccessError> {
        match self {
            BorrowState::Unused => Ok(BorrowState::Exclusive),
            _ => Err(AccessError::AlreadyBorrowed),
        }
    }

    /// The state after one shared borrow is given back.
    pub open spec fn unshare(self) -> BorrowState {
        match self {
            BorrowState::Shared(n) => if n <= 1 {
                BorrowState::Unused
            } else {
                BorrowState::Shared((n - 1) as usize)
            },
            _ => self,
        }
    }
}

/// Proof that a shared borrow is held on `handle`; give it back with
/// [`HandleMap::release`].
pub struct SharedBorrow<U> {
    handle: TypedHandle<U>,
}

/// Proof that the exclusive borrow is held on `handle`; give it back with
/// [`HandleMap::release_mut`].
pub struct ExclusiveBorrow<U> {
    handle: TypedHandle<U>,
}

impl<U> SharedBorrow<U> {
    pub closed spec fn target(&self) -> TypedHandle<U> {
        self.handle
    }

    pub fn handle(&self) -> (r: TypedHandle<U>)
        ensures
            r == self.target(),
    {
        self.handle
    }
}

impl<U> ExclusiveBorrow<U> {
    pub closed spec fn target(&self) -> TypedHandle<U> {
        self.handle
    }

    pub fn handle(&self) -> (r: TypedHandle<U>)
        ensures
            r == self.target(),
    {
        self.handle
    }
}

struct Slot<T> {
    generation: u64,
    entry: Option<T>,
    borrow: BorrowState,
}

/// Owns entities of type `T`, each reached through a `TypedHandle<U>`.
///
/// A removed entity's slot moves to the next generation before it is used
/// again, so the handles of removed entities never resolve to a later
/// entity. A slot that reaches the last generation is retired for good.
pub struct HandleMap<T, U> {
    slots: Vec<Slot<T>>,
    vacant: Vec<usize>,
    phantom: PhantomData<U>,
}

impl<T, U> View for HandleMap<T, U> {
    type V = Map<TypedHandle<U>, T>;

    /// The live entities, by handle.
    closed spec fn view(&self) -> Map<TypedHandle<U>, T> {
        Map::new(|h: TypedHandle<U>| self.live(h), |h: TypedHandle<U>| self.slots@[h.index as int].entry->Some_0)
    }
}

impl<T, U> HandleMap<T, U> {
    closed spec fn live(&self, h: TypedHandle<U>) -> bool {
        &&& h.index < self.slots@.len()
        &&& self.slots@[h.index as int].generation == h.generation
        &&& self.slots@[h.index as int].entry is Some
    }

    /// `h` was issued by this pool and its entity has been removed since.
    pub closed spec fn dead(&self, h: TypedHandle<U>) -> bool {
        &&& h.index < self.slots@.len()
        &&& h.generation < self.slots@[h.index as int].generation
    }

    /// Every handle that is dead here is dead in `later` too.
    pub open spec fn keeps_dead(&self, later: Self) -> bool {
        forall|h: TypedHandle<U>| self.dead(h) ==> later.dead(h)
    }

    /// The borrows held on the entity of `h`.
    pub closed spec fn borrow_state(&self, h: TypedHandle<U>) -> BorrowState {
        self.slots@[h.index as int].borrow
    }

    /// A slot freed by a removal is waiting to be used again.
    pub closed spec fn has_vacancy(&self) -> bool {
        self.vacant@.len() > 0
    }

    /// The handles of the live entities, in slot order.
    pub closed spec fn handle_seq(&self) -> Seq<TypedHandle<U>> {
        Self::live_prefix(self.slots@, self.slots@.len())
    }

    /// Entities and handles agree; only the borrow ledger may differ.
    pub open spec fn same_contents(&self, other: Self) -> bool {
        &&& self@ == other@
        &&& self.handle_seq() == other.handle_seq()
        &&& self.has_vacancy() == other.has_vacancy()
        &&& forall|h: TypedHandle<U>| self.dead(h) == other.dead(h)
    }

    closed spec fn live_prefix(slots: Seq<Slot<T>>, n: nat) -> Seq<TypedHandle<U>>
        decreases n,
    {
        if n == 0 || n > slots.len() {
            Seq::empty()
        } else {
            let prev = Self::live_prefix(slots, (n - 1) as nat);
            let s = slots[n - 1];
            if s.entry is Some {
                prev.push(TypedHandle { index: (n - 1) as usize, generation: s.generation, phantom: PhantomData })
            } else {
                prev
            }
        }
    }

    pub closed spec fn wf(&self) -> bool {
        &&& forall|k: int|
            0 <= k < self.vacant@.len() ==> {
                let i = #[trigger] self.vacant@[k];
                &&& i < self.slots@.len()
                &&& self.slots@[i as int].entry is None
                &&& self.slots@[i as int].generation < u64::MAX
            }
        &&& forall|a: int, b: int|
            0 <= a < b < self.vacant@.len() ==> self.vacant@[a] != self.vacant@[b]
        &&& forall|i: int|
            0 <= i < self.slots@.len() && (#[trigger] self.slots@[i]).entry is None ==> self.slots@[i].borrow
                == BorrowState::Unused
        &&& forall|i: int|
            0 <= i < self.slots@.len() && (#[trigger] self.slots@[i]).entry is Some ==> self.slots@[i].generation
                < u64::MAX
    }


    pub fn new() -> (r: Self)
        ensures
            r.wf(),
            r@ == Map::<TypedHandle<U>, T>::empty(),
            r.handle_seq() == Seq::<TypedHandle<U>>::empty(),
            !r.has_vacancy(),
            forall|h: TypedHandle<U>| !r.dead(h),
    {
        let r = HandleMap { slots: Vec::new(), vacant: Vec::new(), phantom: PhantomData };
        assert(r@ =~= Map::<TypedHandle<U>, T>::empty());
        r
    }

    /// Stores the entity that `f` makes from the handle it will be reached
    /// by, and returns that handle.
    pub fn insert_with<F>(&mut self, f: F) -> (r: TypedHandle<U>)
        where
            F: FnOnce(TypedHandle<U>) -> T,
        requires
            old(self).wf(),
            forall|h: TypedHandle<U>| f.requires((h,)),
        ensures
            final(self).wf(),
            !old(self)@.contains_key(r),
            !old(self).dead(r),
            final(self)@.contains_key(r),
            f.ensures((r,), final(self)@[r]),
            final(self)@ == old(self)@.insert(r, final(self)@[r]),
            final(self).borrow_state(r) == BorrowState::Unused,
            forall|g: TypedHandle<U>|
                old(self)@.contains_key(g) ==> final(self).borrow_state(g) == old(self).borrow_state(g),
            old(self).keeps_dead(*final(self)),
            !old(self).has_vacancy() ==> !final(self).has_vacancy() && final(self).handle_seq()
                == old(self).handle_seq().push(r),
    {
        assert(self.slots@.len() == self.slots.len());
        match self.vacant.pop() {
            Some(i) => {
                proof {
                    assert(old(self).vacant@[old(self).vacant@.len() - 1] == i);
                }
                let g = self.slots[i].generation;
                let h = TypedHandle { index: i, generation: g, phantom: PhantomData };
                let t = f(h);
                let ghost t_spec = t;
                self.slots.set(i, Slot { generation: g, entry: Some(t), borrow: BorrowState::Unused });
                proof {
                    assert forall|k: int| 0 <= k < self.vacant@.len() implies (#[trigger] self.vacant@[k]) != i by {
                        assert(old(self).vacant@[k] == self.vacant@[k]);
                    }
                    assert(self@ =~= old(self)@.insert(h, t_spec));
                }
                h
            },
            None => {
                let i = self.slots.len();
                let h = TypedHandle { index: i, generation: 0, phantom: PhantomData };
                let t = f(h);
                let ghost t_spec = t;
                self.slots.push(Slot { generation: 0, entry: Some(t), borrow: BorrowState::Unused });
                proof {
                    assert(self@ =~= old(self)@.insert(h, t_spec));
                    Self::lemma_live_prefix_agree(old(self).slots@, self.slots@, old(self).slots@.len());
                    assert(self.handle_seq() =~= old(self).handle_seq().push(h));
                }
                h
            },
        }
    }

    /// The entity of `h`, unless `h` is not live or is exclusively borrowed.
    pub fn get(&self, h: TypedHandle<U>) -> (r: Option<&T>)
        ensures
            r == (if self@.contains_key(h) && self.borrow_state(h) != BorrowState::Exclusive {
                Some(&self@[h])
            } else {
                None
            }),
    {
        if h.index < self.slots.len() {
            let s = &self.slots[h.index];
            if s.generation == h.generation {
                match &s.borrow {
                    BorrowState::Exclusive => None,
                    _ => s.entry.as_ref(),
                }
            } else {
                None
            }
        } else {
            None
        }
    }

    /// Whether `h` names a live entity.
    pub fn contains(&self, h: TypedHandle<U>) -> (r: bool)
        ensures
            r == self@.contains_key(h),
    {
        h.index < self.slots.len() && self.slots[h.index].generation == h.generation
            && self.slots[h.index].entry.is_some()
    }

    /// The borrows held on the live entity of `h`.
    pub fn borrows(&self, h: TypedHandle<U>) -> (r: BorrowState)
        requires
            self@.contains_key(h),
        ensures
            r == self.borrow_state(h),
    {
        self.slots[h.index].borrow
    }

    /// Mutable access to the entity of `h`, which no one may be borrowing.
    pub fn get_mut(&mut self, h: TypedHandle<U>) -> (r: &mut T)
        requires
            old(self).wf(),
            old(self)@.contains_key(h),
            old(self).borrow_state(h) == BorrowState::Unused,
        ensures
            *r == old(self)@[h],
            final(self).wf(),
            final(self)@ == old(self)@.insert(h, *final(r)),
            final(self).handle_seq() == old(self).handle_seq(),
            final(self).has_vacancy() == old(self).has_vacancy(),
            forall|g: TypedHandle<U>| #[trigger] final(self).dead(g) == old(self).dead(g),
            forall|g: TypedHandle<U>|
                old(self)@.contains_key(g) ==> final(self).borrow_state(g) == old(self).borrow_state(g),
    {
        self.slot_mut(h)
    }


    /// Mutable access to a live entity whatever borrows are recorded on it,
    /// for the bookkeeping the world itself does.
    pub(crate) fn slot_mut(&mut self, h: TypedHandle<U>) -> (r: &mut T)
        requires
            old(self).wf(),
            old(self)@.contains_key(h),
        ensures
            *r == old(self)@[h],
            final(self).wf(),
            final(self)@ == old(self)@.insert(h, *final(r)),
            final(self).handle_seq() == old(self).handle_seq(),
            final(self).has_vacancy() == old(self).has_vacancy(),
            forall|g: TypedHandle<U>| #[trigger] final(self).dead(g) == old(self).dead(g),
            forall|g: TypedHandle<U>|
                old(self)@.contains_key(g) ==> final(self).borrow_state(g) == old(self).borrow_state(g),
    {
        proof {
            let slots = old(self).slots@;
            let i = h.index as int;
            assert forall|x: T|
                #[trigger] Self::live_prefix(slots.update(i, Slot { generation: slots[i].generation, entry: Some(x), borrow: slots[i].borrow }), slots.len())
                    == Self::live_prefix(slots, slots.len()) by {
                Self::lemma_live_prefix_agree(slots.update(i, Slot { generation: slots[i].generation, entry: Some(x), borrow: slots[i].borrow }), slots, slots.len());
            }
        }
        let s = &mut self.slots[h.index];
        match &mut s.entry {
            Some(t) => t,
            None => vstd::pervasive::unreached(),
        }
    }

    /// Takes the entity of `h` out of the pool. From then on `h` is dead:
    /// no later insertion makes it resolve again.
    pub fn remove(&mut self, h: TypedHandle<U>) -> (r: T)
        requires
            old(self).wf(),
            old(self)@.contains_key(h),
            old(self).borrow_state(h) == BorrowState::Unused,
        ensures
            final(self).wf(),
            r == old(self)@[h],
            final(self)@ == old(self)@.remove(h),
            final(self).dead(h),
            old(self).keeps_dead(*final(self)),
            forall|g: TypedHandle<U>|
                final(self)@.contains_key(g) ==> final(self).borrow_state(g) == old(self).borrow_state(g),
    {
        let i = h.index;
        let g = self.slots[i].generation;
        let next = g + 1;
        let mut taken = Slot { generation: next, entry: None, borrow: BorrowState::Unused };
        std::mem::swap(&mut taken, &mut self.slots[i]);
        if next < u64::MAX {
            self.vacant.push(i);
        }
        proof {
            assert(self@ =~= old(self)@.remove(h));
            assert forall|k: int| 0 <= k < old(self).vacant@.len() implies (#[trigger] old(self).vacant@[k]) != i by {
                assert(old(self).slots@[old(self).vacant@[k] as int].entry is None);
            }
            assert forall|k: int| 0 <= k < self.vacant@.len() implies {
                let j = #[trigger] self.vacant@[k];
                &&& j < self.slots@.len()
                &&& self.slots@[j as int].entry is None
                &&& self.slots@[j as int].generation < u64::MAX
            } by {
                if k < old(self).vacant@.len() {
                    assert(self.vacant@[k] == old(self).vacant@[k]);
                }
            }
            assert forall|a: int, b: int| 0 <= a < b < self.vacant@.len() implies self.vacant@[a] != self.vacant@[b] by {
                if b < old(self).vacant@.len() {
                    assert(self.vacant@[a] == old(self).vacant@[a]);
                    assert(self.vacant@[b] == old(self).vacant@[b]);
                } else {
                    assert(self.vacant@[a] == old(self).vacant@[a]);
                }
            }
        }
        match taken.entry {
            Some(t) => t,
            None => vstd::pervasive::unreached(),
        }
    }

    /// The handles of the live entities, in slot order: the order of
    /// insertion as long as nothing has been removed.
    pub fn handles(&self) -> (r: Vec<TypedHandle<U>>)
        ensures
            r@ == self.handle_seq(),
    {
        let mut r: Vec<TypedHandle<U>> = Vec::new();
        let mut i: usize = 0;
        while i < self.slots.len()
            invariant
                i <= self.slots@.len(),
                r@ == Self::live_prefix(self.slots@, i as nat),
            decreases self.slots@.len() - i,
        {
            let s = &self.slots[i];
            if s.entry.is_some() {
                r.push(TypedHandle { index: i, generation: s.generation, phantom: PhantomData });
            }
            i += 1;
        }
        r
    }

    /// Takes a shared borrow on the entity of `h`.
    pub fn borrow(&mut self, h: TypedHandle<U>) -> (r: Result<SharedBorrow<U>, AccessError>)
        requires
            old(self).wf(),
        ensures
            final(self).wf(),
            final(self).same_contents(*old(self)),
            !old(self)@.contains_key(h) ==> r == Err::<SharedBorrow<U>, AccessError>(AccessError::InvalidHandle)
                && *final(self) == *old(self),
            old(self)@.contains_key(h) ==> match old(self).borrow_state(h).share() {
                Ok(s) => r matches Ok(b) && b.target() == h && final(self).borrow_state(h) == s,
                Err(e) => r == Err::<SharedBorrow<U>, AccessError>(e) && *final(self) == *old(self),
            },
            forall|g: TypedHandle<U>|
                old(self)@.contains_key(g) && g != h ==> final(self).borrow_state(g) == old(self).borrow_state(g),
    {
        if !self.contains(h) {
            return Err(AccessError::InvalidHandle);
        }
        let next = match self.slots[h.index].borrow {
            BorrowState::Unused => BorrowState::Shared(1),
            BorrowState::Shared(n) => {
                if n < usize::MAX {
                    BorrowState::Shared(n + 1)
                } else {
                    return Err(AccessError::TooManyBorrows);
                }
            },
            BorrowState::Exclusive => {
                return Err(AccessError::AlreadyMutablyBorrowed);
            },
        };
        self.set_borrow(h, next);
        Ok(SharedBorrow { handle: h })
    }

    /// Takes the exclusive borrow on the entity of `h`.
    pub fn borrow_mut(&mut self, h: TypedHandle<U>) -> (r: Result<ExclusiveBorrow<U>, AccessError>)
        requires
            old(self).wf(),
        ensures
            final(self).wf(),
            final(self).same_contents(*old(self)),
            !old(self)@.contains_key(h) ==> r == Err::<ExclusiveBorrow<U>, AccessError>(AccessError::InvalidHandle)
                && *final(self) == *old(self),
            old(self)@.contains_key(h) ==> match old(self).borrow_state(h).lock() {
                Ok(s) => r matches Ok(b) && b.target() == h && final(self).borrow_state(h) == s,
                Err(e) => r == Err::<ExclusiveBorrow<U>, AccessError>(e) && *final(self) == *old(self),
            },
            forall|g: TypedHandle<U>|
                old(self)@.contains_key(g) && g != h ==> final(self).borrow_state(g) == old(self).borrow_state(g),
    {
        if !self.contains(h) {
            return Err(AccessError::InvalidHandle);
        }
        match self.slots[h.index].borrow {
            BorrowState::Unused => {
                self.set_borrow(h, BorrowState::Exclusive);
                Ok(ExclusiveBorrow { handle: h })
            },
            _ => Err(AccessError::AlreadyBorrowed),
        }
    }

    /// Gives back a shared borrow.
    pub fn release(&mut self, b: SharedBorrow<U>)
        requires
            old(self).wf(),
            old(self)@.contains_key(b.target()),
            old(self).borrow_state(b.target()) is Shared,
        ensures
            final(self).wf(),
            final(self).same_contents(*old(self)),
            final(self).borrow_state(b.target()) == old(self).borrow_state(b.target()).unshare(),
            forall|g: TypedHandle<U>|
                old(self)@.contains_key(g) && g != b.target() ==> final(self).borrow_state(g)
                    == old(self).borrow_state(g),
    {
        let h = b.handle;
        let next = match self.slots[h.index].borrow {
            BorrowState::Shared(n) => if n <= 1 {
                BorrowState::Unused
            } else {
                BorrowState::Shared(n - 1)
            },
            other => other,
        };
        self.set_borrow(h, next);
    }

    /// Gives back the exclusive borrow.
    pub fn release_mut(&mut self, b: ExclusiveBorrow<U>)
        requires
            old(self).wf(),
            old(self)@.contains_key(b.target()),
            old(self).borrow_state(b.target()) == BorrowState::Exclusive,
        ensures
            final(self).wf(),
            final(self).same_contents(*old(self)),
            final(self).borrow_state(b.target()) == BorrowState::Unused,
            forall|g: TypedHandle<U>|
                old(self)@.contains_key(g) && g != b.target() ==> final(self).borrow_state(g)
                    == old(self).borrow_state(g),
    {
        self.set_borrow(b.handle, BorrowState::Unused);
    }

    /// Mutable access to an entity through the exclusive borrow held on it.
    pub fn write(&mut self, b: &ExclusiveBorrow<U>) -> (r: &mut T)
        requires
            old(self).wf(),
            old(self)@.contains_key(b.target()),
            old(self).borrow_state(b.target()) == BorrowState::Exclusive,
        ensures
            *r == old(self)@[b.target()],
            final(self).wf(),
            final(self)@ == old(self)@.insert(b.target(), *final(r)),
            final(self).handle_seq() == old(self).handle_seq(),
            final(self).has_vacancy() == old(self).has_vacancy(),
            forall|g: TypedHandle<U>| #[trigger] final(self).dead(g) == old(self).dead(g),
            forall|g: TypedHandle<U>|
                old(self)@.contains_key(g) ==> final(self).borrow_state(g) == old(self).borrow_state(g),
    {
        self.slot_mut(b.handle)
    }

    fn set_borrow(&mut self, h: TypedHandle<U>, state: BorrowState)
        requires
            old(self).wf(),
            old(self)@.contains_key(h),
        ensures
            final(self).wf(),
            final(self).same_contents(*old(self)),
            final(self).borrow_state(h) == state,
            forall|g: TypedHandle<U>|
                old(self)@.contains_key(g) && g != h ==> final(self).borrow_state(g) == old(self).borrow_state(g),
    {
        let s = &mut self.slots[h.index];
        s.borrow = state;
        proof {
            assert(self@ =~= old(self)@);
            Self::lemma_live_prefix_agree(self.slots@, old(self).slots@, self.slots@.len());
        }
    }


    /// A dead handle resolves to nothing.
    pub proof fn lemma_dead_is_absent(&self, h: TypedHandle<U>)
        requires
            self.dead(h),
        ensures
            !self@.contains_key(h),
    {
    }

    /// Once removed, a handle stays unresolvable: along any run of pool
    /// states in which each step keeps dead handles dead (every operation
    /// here does), a handle dead at the start resolves in none of them, so
    /// it can never reach an entity inserted later into its slot.
    pub proof fn lemma_removed_stays_unresolved(states: Seq<Self>, h: TypedHandle<U>)
        requires
            states.len() > 0,
            states[0].dead(h),
            forall|i: int| 0 <= i < states.len() - 1 ==> (#[trigger] states[i]).keeps_dead(states[i + 1]),
        ensures
            forall|i: int| 0 <= i < states.len() ==> (#[trigger] states[i]).dead(h) && !states[i]@.contains_key(h),
        decreases states.len(),
    {
        if states.len() > 1 {
            let init = states.drop_last();
            assert forall|i: int| 0 <= i < init.len() - 1 implies (#[trigger] init[i]).keeps_dead(init[i + 1]) by {
                assert(init[i] == states[i]);
                assert(init[i + 1] == states[i + 1]);
                assert(states[i].keeps_dead(states[i + 1]));
            }
            Self::lemma_removed_stays_unresolved(init, h);
            let n = states.len() - 1;
            assert(init[n - 1].dead(h));
            assert(states[n - 1].keeps_dead(states[n]));
            assert forall|i: int| 0 <= i < states.len() implies (#[trigger] states[i]).dead(h) && !states[i]@.contains_key(h) by {
                if i < n {
                    assert(init[i] == states[i]);
                }
            }
        }
    }

    /// While a shared borrow is held on a live entity, an exclusive borrow
    /// is refused, and another shared borrow is granted unless the count is
    /// at its maximum; while the exclusive borrow is held, every borrow is
    /// refused. From no borrows, two shared borrows in a row both succeed.
    pub proof fn lemma_borrow_exclusivity(&self, h: TypedHandle<U>)
        requires
            self@.contains_key(h),
        ensures
            self.borrow_state(h) is Shared ==> self.borrow_state(h).lock() == Err::<BorrowState, AccessError>(
                AccessError::AlreadyBorrowed,
            ),
            self.borrow_state(h) matches BorrowState::Shared(n) && n < usize::MAX ==> self.borrow_state(h).share() is Ok,
            self.borrow_state(h) == BorrowState::Exclusive ==> self.borrow_state(h).share() is Err
                && self.borrow_state(h).lock() is Err,
            self.borrow_state(h) == BorrowState::Unused ==> self.borrow_state(h).share() == Ok::<BorrowState, AccessError>(
                BorrowState::Shared(1),
            ) && BorrowState::Shared(1).share() == Ok::<BorrowState, AccessError>(BorrowState::Shared(2))
                && BorrowState::Shared(2).lock() is Err,
    {
    }

    proof fn lemma_live_prefix(slots: Seq<Slot<T>>, n: nat)
        requires
            n <= slots.len(),
            slots.len() <= usize::MAX + 1,
        ensures
            forall|k: int|
                0 <= k < Self::live_prefix(slots, n).len() ==> {
                    let h = #[trigger] Self::live_prefix(slots, n)[k];
                    &&& h.index < n
                    &&& slots[h.index as int].entry is Some
                    &&& slots[h.index as int].generation == h.generation
                },
            forall|a: int, b: int|
                0 <= a < b < Self::live_prefix(slots, n).len() ==> Self::live_prefix(slots, n)[a].index
                    < Self::live_prefix(slots, n)[b].index,
            forall|h: TypedHandle<U>|
                h.index < n && slots[h.index as int].entry is Some && slots[h.index as int].generation
                    == h.generation ==> Self::live_prefix(slots, n).contains(h),
        decreases n,
    {
        if n > 0 {
            Self::lemma_live_prefix(slots, (n - 1) as nat);
            let prev = Self::live_prefix(slots, (n - 1) as nat);
            assert forall|h: TypedHandle<U>|
                h.index < n && slots[h.index as int].entry is Some && slots[h.index as int].generation
                    == h.generation implies Self::live_prefix(slots, n).contains(h) by {
                if h.index < n - 1 {
                    assert(prev.contains(h));
                    let k = choose|k: int| 0 <= k < prev.len() && prev[k] == h;
                    assert(Self::live_prefix(slots, n)[k] == h);
                } else {
                    let q = Self::live_prefix(slots, n);
                    assert(q[q.len() - 1] == h);
                }
            }
        }
    }

    proof fn lemma_live_prefix_agree(s1: Seq<Slot<T>>, s2: Seq<Slot<T>>, n: nat)
        requires
            n <= s1.len(),
            n <= s2.len(),
            forall|i: int|
                0 <= i < n ==> s1[i].generation == s2[i].generation && (s1[i].entry is Some <==> s2[i].entry is Some),
        ensures
            Self::live_prefix(s1, n) == Self::live_prefix(s2, n),
        decreases n,
    {
        if n > 0 {
            Self::lemma_live_prefix_agree(s1, s2, (n - 1) as nat);
        }
    }

    /// A handle is among [`handle_seq`](Self::handle_seq) exactly when it is
    /// live, and the sequence holds no handle twice.
    pub proof fn lemma_handle_seq(&self)
        ensures
            forall|h: TypedHandle<U>| self.handle_seq().contains(h) <==> self@.contains_key(h),
            self.handle_seq().no_duplicates(),
    {
        assert(self.slots@.len() == self.slots.len());
        Self::lemma_live_prefix(self.slots@, self.slots@.len());
        let q = self.handle_seq();
        assert forall|h: TypedHandle<U>| q.contains(h) <==> self@.contains_key(h) by {
            if q.contains(h) {
                let k = choose|k: int| 0 <= k < q.len() && q[k] == h;
                assert(q[k] == h);
            }
        }
        assert forall|a: int, b: int| 0 <= a < q.len() && 0 <= b < q.len() && a != b implies q[a] != q[b] by {
            if a < b {
                assert(q[a].index < q[b].index);
            } else {
                assert(q[b].index < q[a].index);
            }
        }
    }
}

} // verus!
