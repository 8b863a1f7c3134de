//! Append-only storage addressed by typed handles.
//!
//! An [`Arena`] only ever grows, so a [`Handle`] that designates an element keeps designating the
//! same element for as long as the arena lives.

use core::marker::PhantomData;
use vstd::prelude::*;

verus! {

// ————————————————————————————————— Handle ————————————————————————————————— //
/// Index into an [`Arena`]. A handle is only a number: it may designate no element of the arena
/// it is used with, even if it was created from that arena.
#[derive(Debug)]
pub struct Handle<T> {
    idx: usize,
    _marker: PhantomData<T>,
}

impl<T> Handle<T> {
    /// The position that this handle designates.
    pub closed spec fn index(self) -> nat {
        self.idx as nat
    }

    /// The handle that designates position `i`.
    pub closed spec fn at(i: nat) -> Self {
        Handle { idx: i as usize, _marker: PhantomData }
    }

    /// `at` and `index` are inverse on the positions that fit a machine word.
    pub broadcast proof fn lemma_at_index(i: nat)
        requires
            i <= usize::MAX,
        ensures
            (#[trigger] Self::at(i)).index() == i,
    {
    }

    /// A handle is its position: two handles of one position are the same handle.
    pub proof fn lemma_same_index(self, other: Self)
        requires
            self.index() == other.index(),
        ensures
            self == other,
    {
    }

    /// The handle of position `idx`.
    pub fn new(idx: usize) -> (h: Self)
        ensures
            h.index() == idx,
            h == Self::at(idx as nat),
    {
        Handle { idx, _marker: PhantomData }
    }

    /// A handle that designates no element of any arena.
    pub fn invalid() -> (h: Self)
        ensures
            h.index() == usize::MAX,
    {
        Handle { idx: usize::MAX, _marker: PhantomData }
    }

    /// The position that this handle designates.
    pub fn idx(self) -> (i: usize)
        ensures
            i == self.index(),
    {
        self.idx
    }
}

impl<T> Clone for Handle<T> {
    fn clone(&self) -> (h: Self)
        ensures
            h == *self,
    {
        Handle { idx: self.idx, _marker: PhantomData }
    }
}

impl<T> Copy for Handle<T> {

}

impl<T> PartialEq for Handle<T> {
    fn eq(&self, other: &Self) -> (r: bool) {
        self.idx == other.idx
    }
}

impl<T> vstd::std_specs::cmp::PartialEqSpecImpl for Handle<T> {
    open spec fn obeys_eq_spec() -> bool {
        true
    }

    open spec fn eq_spec(&self, other: &Self) -> bool {
        self.index() == other.index()
    }
}

impl<T> Eq for Handle<T> {

}

// —————————————————————————————————— Keys —————————————————————————————————— //
/// What can designate a position in an [`Arena`] of `T`.
pub trait Key<T>: Sized {
    /// The position designated.
    spec fn position(self) -> nat;

    fn idx(self) -> (i: usize)
        ensures
            i == self.position(),
    ;
}

impl<T> Key<T> for Handle<T> {
    open spec fn position(self) -> nat {
        self.index()
    }

    fn idx(self) -> (i: usize) {
        self.idx
    }
}

// ————————————————————————————————— Arena —————————————————————————————————— //
/// Append-only sequence of `T`, addressed by [`Handle`]s.
#[derive(Debug)]
pub struct Arena<T> {
    store: Vec<T>,
}

impl<T> View for Arena<T> {
    type V = Seq<T>;

    closed spec fn view(&self) -> Seq<T> {
        self.store@
    }
}

impl<T> Arena<T> {
    /// Whether `h` designates an element of this arena.
    pub open spec fn contains(&self, h: Handle<T>) -> bool {
        h.index() < self@.len()
    }

    /// The element that `h` designates.
    pub open spec fn spec_get(&self, h: Handle<T>) -> Option<T> {
        if self.contains(h) {
            Some(self@[h.index() as int])
        } else {
            None
        }
    }

    /// Creates an empty `Arena`.
    pub fn new() -> (a: Self)
        ensures
            a@ == Seq::<T>::empty(),
    {
        Self { store: Vec::new() }
    }

    /// Number of elements.
    pub fn len(&self) -> (n: usize)
        ensures
            n == self@.len(),
    {
        self.store.len()
    }

    /// Adds `item` at the end of the arena. The handle returned designates the new element: its
    /// position is the number of elements that the arena held before.
    pub fn push(&mut self, item: T) -> (h: Handle<T>)
        ensures
            final(self)@ == old(self)@.push(item),
            h.index() == old(self)@.len(),
            h == Handle::<T>::at(old(self)@.len()),
            final(self).spec_get(h) == Some(item),
    {
        let idx = self.store.len();
        self.store.push(item);
        Handle { idx, _marker: PhantomData }
    }

    /// Returns the element at the given handle, if there is one.
    pub fn get(&self, handle: Handle<T>) -> (r: Option<&T>)
        ensures
            r.is_some() == self.contains(handle),
            r matches Some(x) ==> self.spec_get(handle) == Some(*x),
    {
        if handle.idx < self.store.len() {
            Some(&self.store[handle.idx])
        } else {
            None
        }
    }

    /// Returns a mutable reference to the element at the given handle, if there is one. Whatever
    /// is written through the reference, no other element changes and none is added or removed.
    pub fn get_mut(&mut self, handle: Handle<T>) -> (r: Option<&mut T>)
        ensures
            r.is_some() == old(self).contains(handle),
            r matches Some(x) ==> *x == old(self)@[handle.index() as int] && final(self)@ == old(
                self,
            )@.update(handle.index() as int, *final(x)),
            r.is_none() ==> final(self)@ == old(self)@,
    {
        if handle.idx < self.store.len() {
            Some(&mut self.store[handle.idx])
        } else {
            None
        }
    }

    /// The element at `key`, which must designate one.
    pub fn index<K: Key<T>>(&self, key: K) -> (r: &T)
        requires
            key.position() < self@.len(),
        ensures
            *r == self@[key.position() as int],
    {
        &self.store[key.idx()]
    }

    /// The element at `key`, which must designate one, for writing. No other element changes.
    pub fn index_mut<K: Key<T>>(&mut self, key: K) -> (r: &mut T)
        requires
            key.position() < old(self)@.len(),
        ensures
            *r == old(self)@[key.position() as int],
            final(self)@ == old(self)@.update(key.position() as int, *final(r)),
    {
        &mut self.store[key.idx()]
    }

    /// The elements in insertion order.
    pub fn as_slice(&self) -> (s: &[T])
        ensures
            s@ == self@,
    {
        self.store.as_slice()
    }

    /// Returns a generator of handles, starting at the first position. The generator does not
    /// borrow the arena and does not stop at its end: elements pushed while the generator is in
    /// use are reached, and the caller asks [`Arena::get`] whether a handle designates anything.
    pub fn handle_generator(&self) -> (g: HandleGenerator<T>)
        ensures
            g.position() == 0,
    {
        HandleGenerator::new()
    }

    /// Creates an [`EnumHandleIter`] over the arena, at its first element.
    pub fn enumerate(&self) -> (it: EnumHandleIter<'_, T>)
        ensures
            it.arena() == self,
            it.position() == 0,
    {
        EnumHandleIter { arena: self, pos: 0 }
    }

    /// Creates an [`EnumHandleIterMut`] for the arena, at its first element. The walk borrows
    /// the arena anew at each step, so between two steps the arena can be read and can grow.
    pub fn enumerate_mut(&mut self) -> (it: EnumHandleIterMut<T>)
        ensures
            it.position() == 0,
            *final(self) == *old(self),
    {
        EnumHandleIterMut { pos: 0, _marker: PhantomData }
    }
}

impl<T> Default for Arena<T> {
    fn default() -> (a: Self)
        ensures
            a@ == Seq::<T>::empty(),
    {
        Self::new()
    }
}

// ——————————————————————————————— Iterators ———————————————————————————————— //
/// Yields handles of increasing positions, without end and without looking at any arena.
pub struct HandleGenerator<T> {
    idx: usize,
    _marker: PhantomData<T>,
}

impl<T> HandleGenerator<T> {
    /// The position of the handle that comes next.
    pub closed spec fn position(&self) -> nat {
        self.idx as nat
    }

    /// A generator at position 0.
    pub fn new() -> (g: Self)
        ensures
            g.position() == 0,
    {
        Self { idx: 0, _marker: PhantomData }
    }

    /// The next handle. Always `Some`: positions go up by one until the largest machine word,
    /// which no arena can hold an element at, and stay there.
    pub fn next(&mut self) -> (r: Option<Handle<T>>)
        ensures
            r == Some(Handle::<T>::at(old(self).position())),
            final(self).position() == if old(self).position() < usize::MAX {
                old(self).position() + 1
            } else {
                old(self).position()
            },
    {
        let idx = self.idx;
        if idx < usize::MAX {
            self.idx = idx + 1;
        }
        Some(Handle { idx, _marker: PhantomData })
    }
}

/// Walks an arena from its first element to its last, yielding each element with its handle.
pub struct EnumHandleIter<'a, T> {
    arena: &'a Arena<T>,
    pos: usize,
}

impl<'a, T> EnumHandleIter<'a, T> {
    /// The arena walked.
    pub closed spec fn arena(&self) -> &'a Arena<T> {
        self.arena
    }

    /// The position of the element that comes next.
    pub closed spec fn position(&self) -> nat {
        self.pos as nat
    }

    /// The next element with its handle, or `None` after the last one. A handle yielded here
    /// designates the element yielded with it.
    pub fn next(&mut self) -> (r: Option<(Handle<T>, &'a T)>)
        ensures
            final(self).arena() == old(self).arena(),
            old(self).position() < old(self).arena()@.len() ==> {
                &&& r matches Some((h, x))
                &&& h == Handle::<T>::at(old(self).position())
                &&& h.index() == old(self).position()
                &&& *x == old(self).arena()@[old(self).position() as int]
                &&& old(self).arena().spec_get(h) == Some(*x)
                &&& final(self).position() == old(self).position() + 1
            },
            old(self).position() >= old(self).arena()@.len() ==> {
                &&& r.is_none()
                &&& final(self).position() == old(self).position()
            },
    {
        let arena: &'a Arena<T> = self.arena;
        if self.pos < arena.store.len() {
            let idx = self.pos;
            self.pos = idx + 1;
            Some((Handle { idx, _marker: PhantomData }, &arena.store[idx]))
        } else {
            None
        }
    }
}

/// Walks an arena from its first element to its last, yielding each element for writing, with
/// its handle. The walk keeps only its position: each step is handed the arena.
pub struct EnumHandleIterMut<T> {
    pos: usize,
    _marker: PhantomData<T>,
}

impl<T> EnumHandleIterMut<T> {
    /// The position of the element that comes next.
    pub closed spec fn position(&self) -> nat {
        self.pos as nat
    }

    /// The next element of `arena` with its handle, or `None` behind the last one. Whatever is
    /// written through the reference, no other element changes and none is added or removed.
    pub fn next<'a>(&mut self, arena: &'a mut Arena<T>) -> (r: Option<(Handle<T>, &'a mut T)>)
        ensures
            r.is_some() == (old(self).position() < old(arena)@.len()),
            r matches Some((h, x)) ==> {
                &&& h == Handle::<T>::at(old(self).position())
                &&& h.index() == old(self).position()
                &&& *x == old(arena)@[old(self).position() as int]
                &&& final(arena)@ == old(arena)@.update(old(self).position() as int, *final(x))
                &&& final(self).position() == old(self).position() + 1
            },
            r.is_none() ==> final(arena)@ == old(arena)@ && final(self).position() == old(
                self,
            ).position(),
    {
        let idx = self.pos;
        if idx < arena.store.len() {
            self.pos = idx + 1;
            Some((Handle { idx, _marker: PhantomData }, &mut arena.store[idx]))
        } else {
            None
        }
    }
}

/// A generator of handles, under the name it had first.
pub type HandleIter<T> = HandleGenerator<T>;

// —————————————————————————————————— Laws —————————————————————————————————— //
/// Every handle that [`EnumHandleIter::next`] yields designates an element of the arena walked:
/// a position below the arena's length is found by `get`. (The length of an arena that exists at
/// run time fits a machine word.)
pub proof fn lemma_yielded_handles_are_live<T>(arena: Arena<T>, position: nat)
    requires
        arena@.len() <= usize::MAX,
        position < arena@.len(),
    ensures
        arena.contains(Handle::<T>::at(position)),
        arena.spec_get(Handle::<T>::at(position)) == Some(arena@[position as int]),
{
    Handle::<T>::lemma_at_index(position);
}

/// Pushing never disturbs what a handle designated before.
pub proof fn lemma_push_keeps_handles<T>(before: Arena<T>, after: Arena<T>, item: T, h: Handle<T>)
    requires
        after@ == before@.push(item),
        before.contains(h),
    ensures
        after.contains(h),
        after.spec_get(h) == before.spec_get(h),
{
}

} // verus!
