//! A mutable/immutable pair of reference-counted handles.  `ArcMut` owns a
//! value; `clone_immut` moves it into a cell with a count of one; further
//! `ArcImmut` handles raise the count; `back_to_mut` takes the value back
//! once the count is one.  Dropping a handle lowers the count, and
//! dropping the last one is an error; the cell itself is never freed by a
//! drop.

use crate::counted::{
    count_of, data_of, is_live, with_count, with_data, CellStore, CountedCell, MAX_REFCOUNT,
};
use core::marker::PhantomData;
use vstd::prelude::*;

verus! {

/// One counted immutable reference to a cell of a `CellStore`.
pub struct ArcImmut<T> {
    id: usize,
    phantom: PhantomData<T>,
}

/// Exclusive owner of a value.
pub struct ArcMut<T> {
    data: T,
}

impl<T> View for ArcMut<T> {
    type V = T;

    closed spec fn view(&self) -> T {
        self.data
    }
}

impl<T> ArcImmut<T> {
    /// The cell that this handle refers to.
    pub closed spec fn id(self) -> nat {
        self.id as nat
    }
}

impl<T> ArcImmut<T> {
    /// A further handle to the same cell; the count goes up by one.
    /// Cloning from a count above `MAX_REFCOUNT` aborts, so it is excluded.
    pub fn clone_immut(&self, store: &mut CellStore<T>) -> (r: ArcImmut<T>)
        requires
            is_live(old(store)@, self.id()),
            count_of(old(store)@, self.id()) <= MAX_REFCOUNT,
        ensures
            r.id() == self.id(),
            final(store)@ == with_count(old(store)@, self.id(), count_of(old(store)@, self.id()) + 1),
    {
        let count = store.count(self.id);
        store.set_count(self.id, count + 1);
        ArcImmut { id: self.id, phantom: PhantomData }
    }

    /// The number of live handles to the cell of `this`.
    pub fn strong_count(this: &Self, store: &CellStore<T>) -> (r: usize)
        requires
            is_live(store@, this.id()),
        ensures
            r == count_of(store@, this.id()),
    {
        store.count(this.id)
    }

    /// Shared access to the value of the cell.
    pub fn deref<'a>(&self, store: &'a CellStore<T>) -> (r: &'a T)
        requires
            is_live(store@, self.id()),
        ensures
            *r == data_of(store@, self.id()),
    {
        store.data(self.id)
    }

    /// Mutable access to the value of the cell, whatever its count: every
    /// other handle to the cell sees the change.
    pub fn get_mut_unchecked<'a>(this: &mut Self, store: &'a mut CellStore<T>) -> (r: &'a mut T)
        requires
            is_live(old(store)@, old(this).id()),
        ensures
            final(this).id() == old(this).id(),
            *r == data_of(old(store)@, old(this).id()),
            final(store)@ == with_data(old(store)@, old(this).id(), *final(r)),
    {
        store.data_mut(this.id)
    }

    /// Takes the value back into exclusive ownership.  Any count other than
    /// one panics ("cannot back to mut"), so it is excluded.
    pub fn back_to_mut(this: Self, store: &mut CellStore<T>) -> (r: ArcMut<T>)
        requires
            is_live(old(store)@, this.id()),
            count_of(old(store)@, this.id()) == 1,
        ensures
            r@ == data_of(old(store)@, this.id()),
            final(store)@ == old(store)@.update(this.id() as int, None),
    {
        ArcMut { data: store.take(this.id) }
    }

    /// Drops this handle: the count goes down by one, wrapping around from
    /// zero.  Dropping the handle that holds the count at one panics
    /// ("cannot drop"), so it is excluded.
    pub fn release(self, store: &mut CellStore<T>)
        requires
            is_live(old(store)@, self.id()),
            count_of(old(store)@, self.id()) != 1,
        ensures
            final(store)@ == with_count(
                old(store)@,
                self.id(),
                (if count_of(old(store)@, self.id()) == 0 {
                    usize::MAX as nat
                } else {
                    (count_of(old(store)@, self.id()) - 1) as nat
                }),
            ),
    {
        let count = store.count(self.id);
        store.set_count(self.id, count.wrapping_sub(1));
    }
}

impl<T> core::ops::Deref for ArcMut<T> {
    type Target = T;

    fn deref(&self) -> (r: &T)
        ensures
            *r == self@,
    {
        &self.data
    }
}

impl<T> ArcMut<T> {
    /// Takes exclusive ownership of `data`.
    pub fn new(data: T) -> (r: ArcMut<T>)
        ensures
            r@ == data,
    {
        Self { data: data }
    }

    /// Mutable access to the owned value.
    pub fn get_mut_unchecked(this: &mut Self) -> (r: &mut T)
        ensures
            *r == old(this)@,
            final(this)@ == *final(r),
    {
        &mut this.data
    }

    /// Moves the value into a fresh cell of `store` with a count of one and
    /// returns the first immutable handle to it.
    pub fn clone_immut(self, store: &mut CellStore<T>) -> (r: ArcImmut<T>)
        requires
            old(store)@.len() < usize::MAX,
        ensures
            r.id() == old(store)@.len(),
            final(store)@ == old(store)@.push(Some(CountedCell { ref_count: 1, data: self@ })),
    {
        let id = store.allocate(self.data, 1);
        ArcImmut { id, phantom: PhantomData }
    }
}

} // verus!
