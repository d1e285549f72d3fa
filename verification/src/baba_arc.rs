//! Handles that keep separate tallies of writers and readers.  A cell holds
//! a strong count, which stays one, a write count and a read count; both
//! tallies wrap around as machine words do.  `BabaArcMut::clone_immut`
//! turns the writer into a reader; a cell is never freed.

use crate::counted::{word_dec, word_inc, MAX_REFCOUNT};
use core::marker::PhantomData;
use vstd::prelude::*;

verus! {

/// A cell: the value and its three counters.
pub struct BabaArcInner<T> {
    pub strong: usize,
    pub write: usize,
    pub read: usize,
    pub data: T,
}

/// The cells that the handles of one program refer to.
pub struct BabaArcStore<T> {
    cells: Vec<BabaArcInner<T>>,
}

/// A reading handle.
pub struct BabaArcImmut<T> {
    id: usize,
    phantom: PhantomData<T>,
}

/// The writing handle.
pub struct BabaArcMut<T> {
    id: usize,
    phantom: PhantomData<T>,
}

impl<T> View for BabaArcStore<T> {
    type V = Seq<BabaArcInner<T>>;

    closed spec fn view(&self) -> Seq<BabaArcInner<T>> {
        self.cells@
    }
}

impl<T> BabaArcImmut<T> {
    /// The cell that this handle refers to.
    pub closed spec fn id(self) -> nat {
        self.id as nat
    }
}

impl<T> BabaArcMut<T> {
    /// The cell that this handle refers to.
    pub closed spec fn id(self) -> nat {
        self.id as nat
    }
}

/// The cells after cell `id` gets the write and read counts `write` and
/// `read`, its strong count and value unchanged.
pub open spec fn with_tallies<T>(cells: Seq<BabaArcInner<T>>, id: nat, write: usize, read: usize) -> Seq<
    BabaArcInner<T>,
> {
    cells.update(
        id as int,
        BabaArcInner { strong: cells[id as int].strong, write, read, data: cells[id as int].data },
    )
}

impl<T> BabaArcStore<T> {
    /// Every cell has a strong count of one.
    pub open spec fn wf(&self) -> bool {
        forall|i: int| 0 <= i < self@.len() ==> (#[trigger] self@[i]).strong == 1
    }

    /// An empty store.
    pub fn new() -> (store: Self)
        ensures
            store@ == Seq::<BabaArcInner<T>>::empty(),
            store.wf(),
    {
        BabaArcStore { cells: Vec::new() }
    }

    /// The number of cells made.
    pub fn len(&self) -> (r: usize)
        ensures
            r == self@.len(),
    {
        self.cells.len()
    }

    fn counters(&self, id: usize) -> (r: (usize, usize, usize))
        requires
            id < self@.len(),
        ensures
            r == (self@[id as int].strong, self@[id as int].write, self@[id as int].read),
    {
        let cell = &self.cells[id];
        (cell.strong, cell.write, cell.read)
    }

    fn set_tallies(&mut self, id: usize, write: usize, read: usize)
        requires
            id < old(self)@.len(),
            old(self).wf(),
        ensures
            final(self)@ == with_tallies(old(self)@, id as nat, write, read),
            final(self).wf(),
    {
        let cell = &mut self.cells[id];
        cell.write = write;
        cell.read = read;
    }
}

impl<T> BabaArcMut<T> {
    /// Puts `data` in a fresh cell with a strong count of one and no writers
    /// or readers counted, and returns the writing handle to it.
    pub fn new(data: T, store: &mut BabaArcStore<T>) -> (r: BabaArcMut<T>)
        requires
            old(store).wf(),
            old(store)@.len() < usize::MAX,
        ensures
            final(store).wf(),
            r.id() == old(store)@.len(),
            final(store)@ == old(store)@.push(BabaArcInner { strong: 1, write: 0, read: 0, data }),
    {
        let id = store.cells.len();
        store.cells.push(BabaArcInner { strong: 1, write: 0, read: 0, data });
        BabaArcMut { id, phantom: PhantomData }
    }

    /// Turns the writer into a reader of the same cell: the read count goes
    /// up by one and, as the writer is dropped, the write count down by one.
    /// A read count above `MAX_REFCOUNT` aborts, so it is excluded.
    pub fn clone_immut(self, store: &mut BabaArcStore<T>) -> (r: BabaArcImmut<T>)
        requires
            old(store).wf(),
            self.id() < old(store)@.len(),
            old(store)@[self.id() as int].read <= MAX_REFCOUNT,
        ensures
            final(store).wf(),
            r.id() == self.id(),
            final(store)@ == with_tallies(
                old(store)@,
                self.id(),
                word_dec(old(store)@[self.id() as int].write),
                word_inc(old(store)@[self.id() as int].read),
            ),
    {
        let (_strong, write, read) = store.counters(self.id);
        store.set_tallies(self.id, write.wrapping_sub(1), read.wrapping_add(1));
        BabaArcImmut { id: self.id, phantom: PhantomData }
    }

    /// The write count of the cell of `this`.
    pub fn write_count(this: &Self, store: &BabaArcStore<T>) -> (r: usize)
        requires
            this.id() < store@.len(),
        ensures
            r == store@[this.id() as int].write,
    {
        store.counters(this.id).1
    }

    /// The read count of the cell of `this`.
    pub fn read_count(this: &Self, store: &BabaArcStore<T>) -> (r: usize)
        requires
            this.id() < store@.len(),
        ensures
            r == store@[this.id() as int].read,
    {
        store.counters(this.id).2
    }

    /// The strong count of the cell of `this`.
    pub fn strong_count(this: &Self, store: &BabaArcStore<T>) -> (r: usize)
        requires
            this.id() < store@.len(),
        ensures
            r == store@[this.id() as int].strong,
    {
        store.counters(this.id).0
    }

    /// Adds one to the write count, wrapping around.
    pub fn increment_write_count(this: &Self, store: &mut BabaArcStore<T>)
        requires
            old(store).wf(),
            this.id() < old(store)@.len(),
        ensures
            final(store).wf(),
            final(store)@ == with_tallies(
                old(store)@,
                this.id(),
                word_inc(old(store)@[this.id() as int].write),
                old(store)@[this.id() as int].read,
            ),
    {
        let (_strong, write, read) = store.counters(this.id);
        store.set_tallies(this.id, write.wrapping_add(1), read);
    }

    /// Takes one from the write count, wrapping around.
    pub fn decrement_write_count(this: &Self, store: &mut BabaArcStore<T>)
        requires
            old(store).wf(),
            this.id() < old(store)@.len(),
        ensures
            final(store).wf(),
            final(store)@ == with_tallies(
                old(store)@,
                this.id(),
                word_dec(old(store)@[this.id() as int].write),
                old(store)@[this.id() as int].read,
            ),
    {
        let (_strong, write, read) = store.counters(this.id);
        store.set_tallies(this.id, write.wrapping_sub(1), read);
    }

    /// Adds one to the read count, wrapping around.
    pub fn increment_read_count(this: &Self, store: &mut BabaArcStore<T>)
        requires
            old(store).wf(),
            this.id() < old(store)@.len(),
        ensures
            final(store).wf(),
            final(store)@ == with_tallies(
                old(store)@,
                this.id(),
                old(store)@[this.id() as int].write,
                word_inc(old(store)@[this.id() as int].read),
            ),
    {
        let (_strong, write, read) = store.counters(this.id);
        store.set_tallies(this.id, write, read.wrapping_add(1));
    }

    /// Takes one from the read count, wrapping around.
    pub fn decrement_read_count(this: &Self, store: &mut BabaArcStore<T>)
        requires
            old(store).wf(),
            this.id() < old(store)@.len(),
        ensures
            final(store).wf(),
            final(store)@ == with_tallies(
                old(store)@,
                this.id(),
                old(store)@[this.id() as int].write,
                word_dec(old(store)@[this.id() as int].read),
            ),
    {
        let (_strong, write, read) = store.counters(this.id);
        store.set_tallies(this.id, write, read.wrapping_sub(1));
    }

    /// Shared access to the value.
    pub fn deref<'a>(&self, store: &'a BabaArcStore<T>) -> (r: &'a T)
        requires
            self.id() < store@.len(),
        ensures
            *r == store@[self.id() as int].data,
    {
        &store.cells[self.id].data
    }

    /// Mutable access to the value; the counters do not change.
    pub fn deref_mut<'a>(&mut self, store: &'a mut BabaArcStore<T>) -> (r: &'a mut T)
        requires
            old(store).wf(),
            old(self).id() < old(store)@.len(),
        ensures
            final(self).id() == old(self).id(),
            *r == old(store)@[old(self).id() as int].data,
            final(store)@ == old(store)@.update(
                old(self).id() as int,
                BabaArcInner { data: *final(r), ..old(store)@[old(self).id() as int] },
            ),
    {
        &mut store.cells[self.id].data
    }

    /// Drops the writing handle: the write count goes down by one, wrapping
    /// around.
    pub fn release(self, store: &mut BabaArcStore<T>)
        requires
            old(store).wf(),
            self.id() < old(store)@.len(),
        ensures
            final(store).wf(),
            final(store)@ == with_tallies(
                old(store)@,
                self.id(),
                word_dec(old(store)@[self.id() as int].write),
                old(store)@[self.id() as int].read,
            ),
    {
        Self::decrement_write_count(&self, store);
    }
}

impl<T> BabaArcImmut<T> {
    /// A further reader of the same cell: the read count goes up by one.
    /// A read count above `MAX_REFCOUNT` aborts, so it is excluded.
    pub fn clone_immut(&self, store: &mut BabaArcStore<T>) -> (r: BabaArcImmut<T>)
        requires
            old(store).wf(),
            self.id() < old(store)@.len(),
            old(store)@[self.id() as int].read <= MAX_REFCOUNT,
        ensures
            final(store).wf(),
            r.id() == self.id(),
            final(store)@ == with_tallies(
                old(store)@,
                self.id(),
                old(store)@[self.id() as int].write,
                word_inc(old(store)@[self.id() as int].read),
            ),
    {
        let (_strong, write, read) = store.counters(self.id);
        store.set_tallies(self.id, write, read.wrapping_add(1));
        BabaArcImmut { id: self.id, phantom: PhantomData }
    }

    /// The write count of the cell of `this`.
    pub fn write_count(this: &Self, store: &BabaArcStore<T>) -> (r: usize)
        requires
            this.id() < store@.len(),
        ensures
            r == store@[this.id() as int].write,
    {
        store.counters(this.id).1
    }

    /// The read count of the cell of `this`.
    pub fn read_count(this: &Self, store: &BabaArcStore<T>) -> (r: usize)
        requires
            this.id() < store@.len(),
        ensures
            r == store@[this.id() as int].read,
    {
        store.counters(this.id).2
    }

    /// The strong count of the cell of `this`.
    pub fn strong_count(this: &Self, store: &BabaArcStore<T>) -> (r: usize)
        requires
            this.id() < store@.len(),
        ensures
            r == store@[this.id() as int].strong,
    {
        store.counters(this.id).0
    }

    /// Adds one to the read count, wrapping around.
    pub fn increment_read_count(this: &Self, store: &mut BabaArcStore<T>)
        requires
            old(store).wf(),
            this.id() < old(store)@.len(),
        ensures
            final(store).wf(),
            final(store)@ == with_tallies(
                old(store)@,
                this.id(),
                old(store)@[this.id() as int].write,
                word_inc(old(store)@[this.id() as int].read),
            ),
    {
        let (_strong, write, read) = store.counters(this.id);
        store.set_tallies(this.id, write, read.wrapping_add(1));
    }

    /// Takes one from the read count, wrapping around.
    pub fn decrement_read_count(this: &Self, store: &mut BabaArcStore<T>)
        requires
            old(store).wf(),
            this.id() < old(store)@.len(),
        ensures
            final(store).wf(),
            final(store)@ == with_tallies(
                old(store)@,
                this.id(),
                old(store)@[this.id() as int].write,
                word_dec(old(store)@[this.id() as int].read),
            ),
    {
        let (_strong, write, read) = store.counters(this.id);
        store.set_tallies(this.id, write, read.wrapping_sub(1));
    }

    /// Shared access to the value.
    pub fn deref<'a>(&self, store: &'a BabaArcStore<T>) -> (r: &'a T)
        requires
            self.id() < store@.len(),
        ensures
            *r == store@[self.id() as int].data,
    {
        &store.cells[self.id].data
    }

    /// Drops the reading handle: the read count goes down by one, wrapping
    /// around.
    pub fn release(self, store: &mut BabaArcStore<T>)
        requires
            old(store).wf(),
            self.id() < old(store)@.len(),
        ensures
            final(store).wf(),
            final(store)@ == with_tallies(
                old(store)@,
                self.id(),
                old(store)@[self.id() as int].write,
                word_dec(old(store)@[self.id() as int].read),
            ),
    {
        Self::decrement_read_count(&self, store);
    }
}

/// Adding one to a tally and taking one away again, in either order, gives
/// back the store as it was, wrap-around included; the strong count and the
/// value are never touched.
pub proof fn lemma_tally_round_trip<T>(cells: Seq<BabaArcInner<T>>, id: nat)
    requires
        id < cells.len(),
    ensures
        ({
            let c = cells[id as int];
            &&& with_tallies(
                with_tallies(cells, id, c.write, word_inc(c.read)),
                id,
                c.write,
                word_dec(word_inc(c.read)),
            ) == cells
            &&& with_tallies(
                with_tallies(cells, id, word_inc(c.write), c.read),
                id,
                word_dec(word_inc(c.write)),
                c.read,
            ) == cells
            &&& with_tallies(
                with_tallies(cells, id, c.write, word_dec(c.read)),
                id,
                c.write,
                word_inc(word_dec(c.read)),
            ) == cells
            &&& with_tallies(
                with_tallies(cells, id, word_dec(c.write), c.read),
                id,
                word_inc(word_dec(c.write)),
                c.read,
            ) == cells
        }),
{
    let c = cells[id as int];
    assert(with_tallies(with_tallies(cells, id, c.write, word_inc(c.read)), id, c.write, word_dec(word_inc(c.read))) =~= cells);
    assert(with_tallies(with_tallies(cells, id, word_inc(c.write), c.read), id, word_dec(word_inc(c.write)), c.read) =~= cells);
    assert(with_tallies(with_tallies(cells, id, c.write, word_dec(c.read)), id, c.write, word_inc(word_dec(c.read))) =~= cells);
    assert(with_tallies(with_tallies(cells, id, word_dec(c.write), c.read), id, word_inc(word_dec(c.write)), c.read) =~= cells);
}

/// Turning the writer into a reader (`BabaArcMut::clone_immut`) and then
/// dropping that reader (`BabaArcImmut::release`) leaves the read count as
/// it was and the write count one lower.
pub proof fn lemma_writer_to_reader_then_release<T>(cells: Seq<BabaArcInner<T>>, id: nat)
    requires
        id < cells.len(),
    ensures
        ({
            let c = cells[id as int];
            let turned = with_tallies(cells, id, word_dec(c.write), word_inc(c.read));
            with_tallies(turned, id, turned[id as int].write, word_dec(turned[id as int].read))
                == with_tallies(cells, id, word_dec(c.write), c.read)
        }),
{
    let c = cells[id as int];
    let turned = with_tallies(cells, id, word_dec(c.write), word_inc(c.read));
    assert(with_tallies(turned, id, turned[id as int].write, word_dec(turned[id as int].read))
        =~= with_tallies(cells, id, word_dec(c.write), c.read));
}

/// One operation on a cell that changes its read count.
pub enum ReadStep {
    /// `BabaArcImmut::clone_immut`: one more reader.
    AddReader,
    /// `BabaArcImmut::release`: one reader fewer.
    DropReader,
    /// `increment_read_count`.
    Increment,
    /// `decrement_read_count`.
    Decrement,
}

/// The read count after `steps`, each applied as its function's contract
/// says, starting from `read`.
pub open spec fn read_after(read: usize, steps: Seq<ReadStep>) -> usize
    decreases steps.len(),
{
    if steps.len() == 0 {
        read
    } else {
        let before = read_after(read, steps.drop_last());
        match steps.last() {
            ReadStep::AddReader => word_inc(before),
            ReadStep::Increment => word_inc(before),
            ReadStep::DropReader => word_dec(before),
            ReadStep::Decrement => word_dec(before),
        }
    }
}

/// How many of `steps` are `AddReader`, `DropReader`, `Increment` and
/// `Decrement`, in that order.
pub open spec fn step_counts(steps: Seq<ReadStep>) -> (nat, nat, nat, nat)
    decreases steps.len(),
{
    if steps.len() == 0 {
        (0, 0, 0, 0)
    } else {
        let c = step_counts(steps.drop_last());
        match steps.last() {
            ReadStep::AddReader => (c.0 + 1, c.1, c.2, c.3),
            ReadStep::DropReader => (c.0, c.1 + 1, c.2, c.3),
            ReadStep::Increment => (c.0, c.1, c.2 + 1, c.3),
            ReadStep::Decrement => (c.0, c.1, c.2, c.3 + 1),
        }
    }
}

/// The number of values of a machine word.
pub open spec fn word_modulus() -> int {
    usize::MAX as int + 1
}

proof fn lemma_word_steps(x: int)
    ensures
        word_inc((x % word_modulus()) as usize) == (x + 1) % word_modulus(),
        word_dec((x % word_modulus()) as usize) == (x - 1) % word_modulus(),
{
    let m = word_modulus();
    let a = x % m;
    vstd::arithmetic::div_mod::lemma_add_mod_noop(x, 1, m);
    vstd::arithmetic::div_mod::lemma_add_mod_noop(x, -1, m);
    vstd::arithmetic::div_mod::lemma_small_mod(1, m as nat);
    vstd::arithmetic::div_mod::lemma_mod_add_multiples_vanish(-1, m);
    vstd::arithmetic::div_mod::lemma_small_mod((m - 1) as nat, m as nat);
    vstd::arithmetic::div_mod::lemma_mod_self_0(m);
    vstd::arithmetic::div_mod::lemma_mod_add_multiples_vanish(a - 1, m);
    assert(0 <= a < m);
    if a == m - 1 {
        vstd::arithmetic::div_mod::lemma_mod_add_multiples_vanish(0, m);
        assert((a + 1) % m == 0);
    } else {
        vstd::arithmetic::div_mod::lemma_small_mod((a + 1) as nat, m as nat);
    }
    if a == 0 {
        assert((a + (m - 1)) % m == m - 1);
    } else {
        vstd::arithmetic::div_mod::lemma_small_mod((a - 1) as nat, m as nat);
        assert((a + (m - 1)) % m == a - 1);
    }
}

/// The read count tallies readers and explicit adjustments: after any
/// sequence of reader clones, reader drops, increments and decrements, it
/// equals, in machine-word arithmetic, where it started plus the readers
/// added and the increments, minus the readers dropped and the decrements.
/// Starting from a new cell turned into its first reader (read count one,
/// one reader), it is the number of live readers plus increments minus
/// decrements.
pub proof fn lemma_read_count_tallies(read: usize, steps: Seq<ReadStep>)
    ensures
        ({
            let c = step_counts(steps);
            read_after(read, steps) == (read + c.0 - c.1 + c.2 - c.3) % word_modulus()
        }),
    decreases steps.len(),
{
    let m = word_modulus();
    if steps.len() == 0 {
        vstd::arithmetic::div_mod::lemma_small_mod(read as nat, m as nat);
    } else {
        lemma_read_count_tallies(read, steps.drop_last());
        let c = step_counts(steps.drop_last());
        let x = read + c.0 - c.1 + c.2 - c.3;
        lemma_word_steps(x);
    }
}

} // verus!
