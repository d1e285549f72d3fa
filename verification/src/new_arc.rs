//! An atomically-counted shared pointer after the pattern of `Arc`, with a
//! strong count and a weak count, and two ways out: `into_inner`, which
//! hands the value to whoever drops the last strong reference, and
//! `into_read`, which hands out a copy of the value without giving up the
//! reference.

use crate::counted::{word_dec, MAX_REFCOUNT};
use core::marker::PhantomData;
use vstd::prelude::*;

verus! {

/// A cell: the value, while it has not been moved out, and the counts of
/// strong and weak references.  All strong references together hold one
/// weak reference.
pub struct NewArcInner<T> {
    pub strong: usize,
    pub weak: usize,
    pub data: Option<T>,
}

/// The cells that the handles of one program refer to; `None` is a freed
/// cell.
pub struct NewArcStore<T> {
    cells: Vec<Option<NewArcInner<T>>>,
}

/// A strong reference.
pub struct NewArc<T> {
    id: usize,
    phantom: PhantomData<T>,
}

/// A weak reference.
pub struct NewWeak<T> {
    id: usize,
    phantom: PhantomData<T>,
}

impl<T> View for NewArcStore<T> {
    type V = Seq<Option<NewArcInner<T>>>;

    closed spec fn view(&self) -> Seq<Option<NewArcInner<T>>> {
        self.cells@
    }
}

impl<T> NewArc<T> {
    /// The cell that this handle refers to.
    pub closed spec fn id(self) -> nat {
        self.id as nat
    }
}

impl<T> NewWeak<T> {
    /// The cell that this handle refers to.
    pub closed spec fn id(self) -> nat {
        self.id as nat
    }
}

/// The cell `id` exists and still holds its value.
pub open spec fn holds_value<T>(cells: Seq<Option<NewArcInner<T>>>, id: nat) -> bool {
    id < cells.len() && cells[id as int] is Some && cells[id as int]->0.data is Some
}

/// The cell `id`.
pub open spec fn cell<T>(cells: Seq<Option<NewArcInner<T>>>, id: nat) -> NewArcInner<T> {
    cells[id as int]->0
}

/// The value of the cell `id`.
pub open spec fn value_of<T>(cells: Seq<Option<NewArcInner<T>>>, id: nat) -> T {
    cells[id as int]->0.data->0
}

/// The cells after cell `id` gets the strong count `strong`.
pub open spec fn with_strong<T>(cells: Seq<Option<NewArcInner<T>>>, id: nat, strong: usize) -> Seq<
    Option<NewArcInner<T>>,
> {
    cells.update(id as int, Some(NewArcInner { strong, ..cell(cells, id) }))
}

/// What `NewArc::into_inner` does to the cells and returns: the strong
/// count goes down by one, wrapping around from zero; if it was one, the
/// value is moved out and returned, and the weak reference that the strong
/// ones held together is dropped, which frees the cell when it was the last.
pub open spec fn into_inner_effect<T>(cells: Seq<Option<NewArcInner<T>>>, id: nat) -> (
    Seq<Option<NewArcInner<T>>>,
    Option<T>,
) {
    let c = cell(cells, id);
    if c.strong != 1 {
        (with_strong(cells, id, word_dec(c.strong)), None)
    } else if c.weak == 1 {
        (cells.update(id as int, None), Some(value_of(cells, id)))
    } else {
        (
            cells.update(
                id as int,
                Some(NewArcInner { strong: 0, weak: (c.weak - 1) as usize, data: None }),
            ),
            Some(value_of(cells, id)),
        )
    }
}

/// The cells and the results after `k` calls of `NewArc::into_inner` on
/// handles of cell `id`, one after the other.
pub open spec fn into_inner_repeated<T>(cells: Seq<Option<NewArcInner<T>>>, id: nat, k: nat) -> (
    Seq<Option<NewArcInner<T>>>,
    Seq<Option<T>>,
)
    decreases k,
{
    if k == 0 {
        (cells, Seq::empty())
    } else {
        let before = into_inner_repeated(cells, id, (k - 1) as nat);
        let step = into_inner_effect(before.0, id);
        (step.0, before.1.push(step.1))
    }
}

impl<T> NewArcStore<T> {
    /// A cell that still holds its value has at least one strong and one
    /// weak reference.
    pub open spec fn wf(&self) -> bool {
        forall|i: int|
            0 <= i < self@.len() && #[trigger] self@[i] is Some && self@[i]->0.data is Some ==> self@[i]->0.strong
                >= 1 && self@[i]->0.weak >= 1
    }

    /// An empty store.
    pub fn new() -> (store: Self)
        ensures
            store@ == Seq::<Option<NewArcInner<T>>>::empty(),
            store.wf(),
    {
        NewArcStore { cells: Vec::new() }
    }

    /// The number of cells ever made, freed ones included.
    pub fn len(&self) -> (r: usize)
        ensures
            r == self@.len(),
    {
        self.cells.len()
    }

    fn counts(&self, id: usize) -> (r: (usize, usize))
        requires
            id < self@.len(),
            self@[id as int] is Some,
        ensures
            r == (cell(self@, id as nat).strong, cell(self@, id as nat).weak),
    {
        let c = self.cells[id].as_ref().unwrap();
        (c.strong, c.weak)
    }

    fn set_strong(&mut self, id: usize, strong: usize)
        requires
            id < old(self)@.len(),
            old(self)@[id as int] is Some,
        ensures
            final(self)@ == with_strong(old(self)@, id as nat, strong),
    {
        let c = self.cells[id].as_mut().unwrap();
        c.strong = strong;
    }
}

impl<T> NewArc<T> {
    /// Puts `data` in a fresh cell with one strong and one weak reference,
    /// and returns the strong reference.
    pub fn new(data: T, store: &mut NewArcStore<T>) -> (r: NewArc<T>)
        requires
            old(store)@.len() < usize::MAX,
        ensures
            old(store).wf() ==> final(store).wf(),
            r.id() == old(store)@.len(),
            final(store)@ == old(store)@.push(
                Some(NewArcInner { strong: 1, weak: 1, data: Some(data) }),
            ),
    {
        let id = store.cells.len();
        store.cells.push(Some(NewArcInner { strong: 1, weak: 1, data: Some(data) }));
        NewArc { id, phantom: PhantomData }
    }

    /// A further strong reference: the strong count goes up by one.
    /// Cloning from a count above `MAX_REFCOUNT` aborts, so it is excluded.
    pub fn clone(&self, store: &mut NewArcStore<T>) -> (r: NewArc<T>)
        requires
            holds_value(old(store)@, self.id()),
            cell(old(store)@, self.id()).strong <= MAX_REFCOUNT,
        ensures
            old(store).wf() ==> final(store).wf(),
            r.id() == self.id(),
            final(store)@ == with_strong(
                old(store)@,
                self.id(),
                (cell(old(store)@, self.id()).strong + 1) as usize,
            ),
    {
        let (strong, _weak) = store.counts(self.id);
        store.set_strong(self.id, strong + 1);
        NewArc { id: self.id, phantom: PhantomData }
    }

    /// The strong count of the cell of `this`.
    pub fn strong_count(this: &Self, store: &NewArcStore<T>) -> (r: usize)
        requires
            this.id() < store@.len(),
            store@[this.id() as int] is Some,
        ensures
            r == cell(store@, this.id()).strong,
    {
        store.counts(this.id).0
    }

    /// Gives up this strong reference.  If it was the last one, the value is
    /// moved out and returned and the weak reference that the strong ones
    /// held together is dropped; otherwise the result is `None`.  The strong
    /// count goes down by one either way, wrapping around from zero.
    pub fn into_inner(this: Self, store: &mut NewArcStore<T>) -> (r: Option<T>)
        requires
            old(store).wf(),
            holds_value(old(store)@, this.id()),
        ensures
            final(store).wf(),
            final(store)@ == into_inner_effect(old(store)@, this.id()).0,
            r == into_inner_effect(old(store)@, this.id()).1,
    {
        let id = this.id;
        let (strong, _weak) = store.counts(id);
        store.set_strong(id, strong.wrapping_sub(1));
        if strong != 1 {
            return None;
        }
        let inner = store.cells[id].as_mut().unwrap().data.take();
        NewWeak::<T> { id, phantom: PhantomData }.release(store);
        assert(store@ =~= into_inner_effect(old(store)@, this.id()).0);
        inner
    }

    /// Mutable access to the value, whatever the counts.
    pub fn get_mut_unchecked<'a>(this: &mut Self, store: &'a mut NewArcStore<T>) -> (r: &'a mut T)
        requires
            holds_value(old(store)@, old(this).id()),
        ensures
            old(store).wf() ==> final(store).wf(),
            final(this).id() == old(this).id(),
            *r == value_of(old(store)@, old(this).id()),
            final(store)@ == old(store)@.update(
                old(this).id() as int,
                Some(NewArcInner { data: Some(*final(r)), ..cell(old(store)@, old(this).id()) }),
            ),
    {
        self::value_mut(store, this.id)
    }
}

impl<T: Clone> NewArc<T> {
    /// Gives up this reference without touching the counts and returns a
    /// copy of the value.  Every strong reference can do this, so the
    /// value can be read out more than once.
    pub fn into_read(this: Self, store: &NewArcStore<T>) -> (r: Option<T>)
        requires
            holds_value(store@, this.id()),
        ensures
            r matches Some(v) && cloned(value_of(store@, this.id()), v),
    {
        let v = store.cells[this.id].as_ref().unwrap().data.as_ref().unwrap();
        Some(v.clone())
    }
}

fn value_mut<T>(store: &mut NewArcStore<T>, id: usize) -> (r: &mut T)
    requires
        holds_value(old(store)@, id as nat),
    ensures
        *r == value_of(old(store)@, id as nat),
        final(store)@ == old(store)@.update(
            id as int,
            Some(NewArcInner { data: Some(*final(r)), ..cell(old(store)@, id as nat) }),
        ),
{
    store.cells[id].as_mut().unwrap().data.as_mut().unwrap()
}

impl<T> NewWeak<T> {
    /// Drops this weak reference: the weak count goes down by one, and the
    /// cell is freed when it was the last one.
    pub fn release(self, store: &mut NewArcStore<T>)
        requires
            self.id() < old(store)@.len(),
            old(store)@[self.id() as int] is Some,
            cell(old(store)@, self.id()).weak >= 1,
        ensures
            old(store).wf() ==> final(store).wf(),
            final(store)@ == (if cell(old(store)@, self.id()).weak == 1 {
                old(store)@.update(self.id() as int, None)
            } else {
                old(store)@.update(
                    self.id() as int,
                    Some(
                        NewArcInner {
                            weak: (cell(old(store)@, self.id()).weak - 1) as usize,
                            ..cell(old(store)@, self.id())
                        },
                    ),
                )
            }),
    {
        let (_strong, weak) = store.counts(self.id);
        if weak == 1 {
            store.cells.set(self.id, None);
        } else {
            let c = store.cells[self.id].as_mut().unwrap();
            c.weak = weak - 1;
        }
    }
}

/// A value put behind a fresh `NewArc` and given up again by that only
/// strong reference (`into_inner`) comes back whole, and its cell is freed.
pub proof fn lemma_new_then_into_inner<T>(cells: Seq<Option<NewArcInner<T>>>, data: T)
    ensures
        ({
            let made = cells.push(Some(NewArcInner { strong: 1, weak: 1, data: Some(data) }));
            let id = cells.len();
            &&& holds_value(made, id)
            &&& cell(made, id).strong == 1
            &&& cell(made, id).weak == 1
            &&& value_of(made, id) == data
            &&& made.update(id as int, None) == cells.push(None)
        }),
{
    let made = cells.push(Some(NewArcInner { strong: 1, weak: 1, data: Some(data) }));
    assert(made.update(cells.len() as int, None) =~= cells.push(None));
}

/// With a second strong reference made by `clone`, giving up one of them by
/// `into_inner` yields `None` and gives back the store as it was.
pub proof fn lemma_clone_then_into_inner<T>(cells: Seq<Option<NewArcInner<T>>>, id: nat)
    requires
        holds_value(cells, id),
        1 <= cell(cells, id).strong <= MAX_REFCOUNT,
    ensures
        ({
            let cloned = with_strong(cells, id, (cell(cells, id).strong + 1) as usize);
            &&& holds_value(cloned, id)
            &&& into_inner_effect(cloned, id).1 is None
            &&& into_inner_effect(cloned, id).0 == cells
        }),
{
    assert(MAX_REFCOUNT < usize::MAX);
    let cloned = with_strong(cells, id, (cell(cells, id).strong + 1) as usize);
    let back = into_inner_effect(cloned, id).0;
    assert(back[id as int] == cells[id as int]);
    assert(back =~= cells);
}

/// Before the last of `n` strong references gives itself up, the first `k`
/// calls of `into_inner` have all returned `None` and left the strong
/// count at `n - k`.
proof fn lemma_into_inner_prefix<T>(cells: Seq<Option<NewArcInner<T>>>, id: nat, n: nat, k: nat)
    requires
        holds_value(cells, id),
        cell(cells, id).strong == n,
        k < n,
    ensures
        into_inner_repeated(cells, id, k).0 == with_strong(cells, id, (n - k) as usize),
        into_inner_repeated(cells, id, k).1 == Seq::new(k, |j: int| None::<T>),
    decreases k,
{
    if k == 0 {
        assert(with_strong(cells, id, n as usize) =~= cells);
        assert(Seq::new(0, |j: int| None::<T>) =~= Seq::<Option<T>>::empty());
    } else {
        lemma_into_inner_prefix(cells, id, n, (k - 1) as nat);
        let before = with_strong(cells, id, (n - (k - 1)) as usize);
        assert(cell(before, id).strong == n - (k - 1));
        assert(into_inner_effect(before, id).0 =~= with_strong(cells, id, (n - k) as usize));
        assert(into_inner_repeated(cells, id, (k - 1) as nat).1.push(None::<T>) =~= Seq::new(k, |j: int| None::<T>));
    }
}

/// When the `n` strong references of a cell holding `v` each give
/// themselves up by `into_inner`, one after the other, every call finds the
/// value still in the cell, exactly one call (the last) returns `Some(v)`,
/// the others return `None`, and the value ends up neither dropped nor
/// duplicated: it leaves the cell only through that one result.
pub proof fn lemma_into_inner_exactly_once<T>(cells: Seq<Option<NewArcInner<T>>>, id: nat, n: nat)
    requires
        holds_value(cells, id),
        cell(cells, id).strong == n,
        n >= 1,
    ensures
        forall|k: nat| k < n ==> holds_value(#[trigger] into_inner_repeated(cells, id, k).0, id),
        into_inner_repeated(cells, id, n).1.len() == n,
        forall|j: int| 0 <= j < n - 1 ==> into_inner_repeated(cells, id, n).1[j] is None,
        into_inner_repeated(cells, id, n).1[n - 1] == Some(value_of(cells, id)),
        !holds_value(into_inner_repeated(cells, id, n).0, id),
{
    assert forall|k: nat| k < n implies holds_value(#[trigger] into_inner_repeated(cells, id, k).0, id) by {
        lemma_into_inner_prefix(cells, id, n, k);
    }
    lemma_into_inner_prefix(cells, id, n, (n - 1) as nat);
    let before = into_inner_repeated(cells, id, (n - 1) as nat);
    assert(cell(before.0, id).strong == 1);
    assert(value_of(before.0, id) == value_of(cells, id));
    let all = into_inner_repeated(cells, id, n);
    assert(all.1 == before.1.push(Some(value_of(cells, id))));
}

} // verus!
