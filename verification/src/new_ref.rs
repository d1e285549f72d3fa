//! Counted references with a checked return to exclusive ownership.
//! `RefMut` owns a value; `to_immut` moves it into a cell with a count of
//! one; `clone_immut` adds a reference; `back_to_mut` takes the value back
//! once exactly one reference is left.  Dropping the last reference frees
//! the cell and reports an error, except while the thread is already
//! unwinding, when the cell is left alone.

use crate::counted::{
    cells_after_removal, count_of, data_of, is_live, removal_leaves_handles, with_count, with_data,
    CellStore, CountedCell, MAX_REFCOUNT,
};
use crate::lending::{can_remove_matching, handle_ids, keeps_handle, remove_matching, CellHandle};
use core::marker::PhantomData;
use vstd::prelude::*;
use vstd::std_specs::cmp::{PartialEqSpec, PartialEqSpecImpl};

verus! {

/// Exclusive owner of a value.
pub struct RefMut<T> {
    data: T,
}

/// One counted immutable reference to a cell of a `CellStore`.
pub struct RefImmut<T> {
    id: usize,
    phantom: PhantomData<T>,
}

impl<T> View for RefMut<T> {
    type V = T;

    closed spec fn view(&self) -> T {
        self.data
    }
}

impl<T> RefImmut<T> {
    /// The cell that this handle refers to.
    pub closed spec fn id(self) -> nat {
        self.id as nat
    }
}

impl<T> RefMut<T> {
    /// Takes exclusive ownership of `data`.
    pub fn new(data: T) -> (r: RefMut<T>)
        ensures
            r@ == data,
    {
        Self { data: data }
    }

    /// Mutable access to the owned value.
    pub fn get_mut_unchecked(this: &mut Self) -> (r: &mut T)
        ensures
            *r == old(this)@,
            final(this)@ == *final(r),
    {
        &mut this.data
    }

    /// Moves the value into a fresh cell of `store` with a count of one and
    /// returns the first immutable handle to it.
    pub fn to_immut(self, store: &mut CellStore<T>) -> (r: RefImmut<T>)
        requires
            old(store)@.len() < usize::MAX,
        ensures
            r.id() == old(store)@.len(),
            final(store)@ == old(store)@.push(Some(CountedCell { ref_count: 1, data: self@ })),
    {
        let id = store.allocate(self.data, 1);
        RefImmut { id, phantom: PhantomData }
    }
}

impl<T> RefImmut<T> {
    /// A further handle to the same cell; the count goes up by one.
    /// Cloning from a count above `MAX_REFCOUNT` aborts, so it is excluded.
    pub fn clone_immut(&self, store: &mut CellStore<T>) -> (r: RefImmut<T>)
        requires
            is_live(old(store)@, self.id()),
            count_of(old(store)@, self.id()) <= MAX_REFCOUNT,
        ensures
            r.id() == self.id(),
            final(store)@ == with_count(old(store)@, self.id(), count_of(old(store)@, self.id()) + 1),
    {
        self.share(store)
    }

    /// The number of live handles to the cell of `this`.
    pub fn strong_count(this: &Self, store: &CellStore<T>) -> (r: usize)
        requires
            is_live(store@, this.id()),
        ensures
            r == count_of(store@, this.id()),
    {
        store.count(this.id)
    }

    /// Shared access to the value of the cell.
    pub fn deref<'a>(&self, store: &'a CellStore<T>) -> (r: &'a T)
        requires
            is_live(store@, self.id()),
        ensures
            *r == data_of(store@, self.id()),
    {
        store.data(self.id)
    }

    /// Mutable access to the value of the cell, whatever its count: every
    /// other handle to the cell sees the change.
    pub fn get_mut_unchecked<'a>(this: &mut Self, store: &'a mut CellStore<T>) -> (r: &'a mut T)
        requires
            is_live(old(store)@, old(this).id()),
        ensures
            final(this).id() == old(this).id(),
            *r == data_of(old(store)@, old(this).id()),
            final(store)@ == with_data(old(store)@, old(this).id(), *final(r)),
    {
        store.data_mut(this.id)
    }

    /// Takes the value back into exclusive ownership and frees the cell.
    /// Any count other than one panics ("cannot back to mut"), so it is
    /// excluded.
    pub fn back_to_mut(self, store: &mut CellStore<T>) -> (r: RefMut<T>)
        requires
            is_live(old(store)@, self.id()),
            count_of(old(store)@, self.id()) == 1,
        ensures
            r@ == data_of(old(store)@, self.id()),
            final(store)@ == old(store)@.update(self.id() as int, None),
    {
        RefMut { data: store.take(self.id) }
    }

    /// Drops this handle.  With other handles left the count goes down by
    /// one.  Outside unwinding the last handle frees the cell and panics
    /// ("cannot drop"), so `requires` admits it only while `panicking` says
    /// the thread is already unwinding: then the count goes to zero and the
    /// cell is left as it was.  A count of zero aborts, so it is excluded.
    pub fn release(self, store: &mut CellStore<T>, panicking: bool)
        requires
            is_live(old(store)@, self.id()),
            count_of(old(store)@, self.id()) >= 1,
            count_of(old(store)@, self.id()) > 1 || panicking,
        ensures
            final(store)@ == with_count(
                old(store)@,
                self.id(),
                (count_of(old(store)@, self.id()) - 1) as nat,
            ),
    {
        let count = store.count(self.id);
        store.set_count(self.id, count - 1);
    }
}

impl<T> core::ops::Deref for RefMut<T> {
    type Target = T;

    fn deref(&self) -> (r: &T)
        ensures
            *r == self@,
    {
        &self.data
    }
}

impl<T: PartialEq> PartialEq for RefMut<T> {
    fn eq(&self, other: &RefMut<T>) -> (r: bool) {
        self.data == other.data
    }
}

impl<T: PartialEq> PartialEqSpecImpl for RefMut<T> {
    open spec fn obeys_eq_spec() -> bool {
        <T as PartialEqSpec>::obeys_eq_spec()
    }

    open spec fn eq_spec(&self, other: &RefMut<T>) -> bool {
        self@.eq_spec(&other@)
    }
}

/// Owners compare by their values: for any two owners, `==` on them is `==`
/// of `T` on what they hold (what `new` put in, as `new`'s contract
/// says), and the one obeys vstd's model of `==` exactly when the other
/// does.
pub proof fn lemma_owner_equality<T: PartialEq>(a: RefMut<T>, b: RefMut<T>)
    ensures
        PartialEqSpec::eq_spec(&a, &b) == a@.eq_spec(&b@),
        <RefMut<T> as PartialEqSpec>::obeys_eq_spec() == <T as PartialEqSpec>::obeys_eq_spec(),
{
}

impl<T: PartialEq> RefImmut<T> {
    /// Whether the values of the cells of `self` and `other` are equal, by
    /// the `==` of `T`.
    pub fn eq(&self, other: &RefImmut<T>, store: &CellStore<T>) -> (r: bool)
        requires
            is_live(store@, self.id()),
            is_live(store@, other.id()),
        ensures
            <T as PartialEqSpec>::obeys_eq_spec() ==> r == data_of(store@, self.id()).eq_spec(
                &data_of(store@, other.id()),
            ),
    {
        *self.deref(store) == *other.deref(store)
    }

    /// Whether the values of the cells of `self` and `other` differ, by the
    /// `==` of `T`.
    pub fn ne(&self, other: &RefImmut<T>, store: &CellStore<T>) -> (r: bool)
        requires
            is_live(store@, self.id()),
            is_live(store@, other.id()),
        ensures
            <T as PartialEqSpec>::obeys_eq_spec() ==> r == !data_of(store@, self.id()).eq_spec(
                &data_of(store@, other.id()),
            ),
    {
        !self.eq(other, store)
    }
}

impl<T> CellHandle for RefImmut<T> {
    type Value = T;

    open spec fn cell(&self) -> nat {
        self.id()
    }

    fn cell_index(&self) -> (r: usize) {
        self.id
    }

    fn share(&self, store: &mut CellStore<T>) -> (r: Self) {
        let count = store.count(self.id);
        store.set_count(self.id, count + 1);
        RefImmut { id: self.id, phantom: PhantomData }
    }

    fn unshare(self, store: &mut CellStore<T>) {
        let count = store.count(self.id);
        store.set_count(self.id, count - 1);
    }
}

/// Drops from `vec` every handle whose value equals `s`, keeping the order
/// of the others, as `Vec::retain` does; each dropped handle is released.
/// Dropping the last handle of a cell panics, so `requires` leaves room in
/// every matching cell for all of its handles in `vec`.
pub fn remove_string(vec: &mut Vec<RefImmut<String>>, s: String, store: &mut CellStore<String>)
    requires
        forall|j: int| 0 <= j < old(vec)@.len() ==> is_live(old(store)@, #[trigger] old(vec)@[j].id()),
        removal_leaves_handles(old(store)@, handle_ids(old(vec)@), s@),
    ensures
        final(vec)@ == old(vec)@.filter(keeps_handle::<RefImmut<String>>(old(store)@, s@)),
        final(store)@ == cells_after_removal(old(store)@, handle_ids(old(vec)@), s@),
{
    remove_matching(vec, &s, store);
}

/// Whether `remove_string(vec, s, store)` would leave every cell it touches
/// at least one handle, which is what it requires; where this is false the
/// removal would drop a last handle.
pub fn can_remove_string(vec: &Vec<RefImmut<String>>, s: &String, store: &CellStore<String>) -> (r: bool)
    requires
        forall|j: int| 0 <= j < vec@.len() ==> is_live(store@, #[trigger] vec@[j].id()),
    ensures
        r == removal_leaves_handles(store@, handle_ids(vec@), s@),
{
    can_remove_matching(vec, s, store)
}

} // verus!
