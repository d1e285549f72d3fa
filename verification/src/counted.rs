//! The store of counted cells shared by the single-count families
//! (`fractional_ref`, `new_ref`, `split_arc`).  A cell holds a value and the
//! number of immutable handles that refer to it; a freed cell is `None`.
//! Cells are never reused, so a cell's index names it for the store's life.

use vstd::prelude::*;

verus! {

/// Largest reference count that a clone may start from; a clone of a cell
/// whose count is above it aborts the process.
pub const MAX_REFCOUNT: usize = isize::MAX as usize;

/// A shared cell: the value and the number of live handles to it.
pub struct CountedCell<T> {
    pub ref_count: usize,
    pub data: T,
}

/// The cells that the immutable handles of one program refer to.
pub struct CellStore<T> {
    cells: Vec<Option<CountedCell<T>>>,
}

impl<T> View for CellStore<T> {
    type V = Seq<Option<CountedCell<T>>>;

    closed spec fn view(&self) -> Seq<Option<CountedCell<T>>> {
        self.cells@
    }
}

/// `x + 1` on a machine word, wrapping around.
pub open spec fn word_inc(x: usize) -> usize {
    if x == usize::MAX {
        0
    } else {
        (x + 1) as usize
    }
}

/// `x - 1` on a machine word, wrapping around.
pub open spec fn word_dec(x: usize) -> usize {
    if x == 0 {
        usize::MAX
    } else {
        (x - 1) as usize
    }
}

/// The cell `id` holds a value.
pub open spec fn is_live<T>(cells: Seq<Option<CountedCell<T>>>, id: nat) -> bool {
    id < cells.len() && cells[id as int] is Some
}

/// The reference count of the cell `id`.
pub open spec fn count_of<T>(cells: Seq<Option<CountedCell<T>>>, id: nat) -> nat {
    cells[id as int]->0.ref_count as nat
}

/// The value of the cell `id`.
pub open spec fn data_of<T>(cells: Seq<Option<CountedCell<T>>>, id: nat) -> T {
    cells[id as int]->0.data
}

/// The cells after the count of cell `id` is set to `n`, its value unchanged.
pub open spec fn with_count<T>(cells: Seq<Option<CountedCell<T>>>, id: nat, n: nat) -> Seq<
    Option<CountedCell<T>>,
> {
    cells.update(id as int, Some(CountedCell { ref_count: n as usize, data: data_of(cells, id) }))
}

/// The cells after the value of cell `id` is replaced by `data`, its count unchanged.
pub open spec fn with_data<T>(cells: Seq<Option<CountedCell<T>>>, id: nat, data: T) -> Seq<
    Option<CountedCell<T>>,
> {
    cells.update(id as int, Some(CountedCell { ref_count: cells[id as int]->0.ref_count, data }))
}

/// Every live cell is referenced by at least one handle.
pub open spec fn counts_positive<T>(cells: Seq<Option<CountedCell<T>>>) -> bool {
    forall|i: int| 0 <= i < cells.len() && #[trigger] cells[i] is Some ==> cells[i]->0.ref_count >= 1
}

/// How many entries of `ids` name cell `id`.
pub open spec fn occurrences(ids: Seq<nat>, id: nat) -> nat
    decreases ids.len(),
{
    if ids.len() == 0 {
        0
    } else {
        occurrences(ids.drop_last(), id) + if ids.last() == id {
            1nat
        } else {
            0nat
        }
    }
}

/// Counting in a prefix never exceeds counting in the whole.
pub proof fn lemma_occurrences_prefix(ids: Seq<nat>, k: int, id: nat)
    requires
        0 <= k <= ids.len(),
    ensures
        occurrences(ids.take(k), id) <= occurrences(ids, id),
    decreases ids.len(),
{
    if k < ids.len() {
        assert(ids.drop_last().take(k) =~= ids.take(k));
        lemma_occurrences_prefix(ids.drop_last(), k, id);
    } else {
        assert(ids.take(k) =~= ids);
    }
}

/// A sequence of ids names any one cell at most as often as it is long.
pub proof fn lemma_occurrences_len(ids: Seq<nat>, id: nat)
    ensures
        occurrences(ids, id) <= ids.len(),
    decreases ids.len(),
{
    if ids.len() > 0 {
        lemma_occurrences_len(ids.drop_last(), id);
    }
}

/// Appending one id adds one occurrence of that id and none of any other.
pub proof fn lemma_occurrences_push(ids: Seq<nat>, x: nat, id: nat)
    ensures
        occurrences(ids.push(x), id) == occurrences(ids, id) + if x == id {
            1nat
        } else {
            0nat
        },
{
    assert(ids.push(x).drop_last() =~= ids);
}

/// The cells after one handle per entry of `added` is cloned: every live
/// cell gains one count per entry that names it.
pub open spec fn cells_after_clones<T>(cells: Seq<Option<CountedCell<T>>>, added: Seq<nat>) -> Seq<
    Option<CountedCell<T>>,
> {
    Seq::new(
        cells.len(),
        |i: int|
            if cells[i] is Some {
                Some(
                    CountedCell {
                        ref_count: (cells[i]->0.ref_count + occurrences(added, i as nat)) as usize,
                        data: cells[i]->0.data,
                    },
                )
            } else {
                cells[i]
            },
    )
}

/// Dropping, for every entry of `ids` whose cell holds `s`, one handle of
/// that cell leaves every such cell at least one handle.
pub open spec fn removal_leaves_handles(
    cells: Seq<Option<CountedCell<String>>>,
    ids: Seq<nat>,
    s: Seq<char>,
) -> bool {
    forall|j: int|
        0 <= j < ids.len() && data_of(cells, #[trigger] ids[j])@ == s ==> occurrences(ids, ids[j])
            < count_of(cells, ids[j])
}

/// Removing handles to `s` touches only cells whose value is `s`: every
/// other cell, live or freed, stays exactly as it was, and a cell whose
/// value is `s` keeps its value and loses exactly one count per entry of
/// `removed` that names it.
pub proof fn lemma_removal_touches_only_equal_cells(
    cells: Seq<Option<CountedCell<String>>>,
    removed: Seq<nat>,
    s: Seq<char>,
    i: int,
)
    requires
        0 <= i < cells.len(),
    ensures
        cells_after_removal(cells, removed, s).len() == cells.len(),
        !(cells[i] is Some && cells[i]->0.data@ == s) ==> cells_after_removal(cells, removed, s)[i] == cells[i],
        cells[i] is Some && cells[i]->0.data@ == s && occurrences(removed, i as nat) <= cells[i]->0.ref_count ==> {
            &&& cells_after_removal(cells, removed, s)[i] is Some
            &&& cells_after_removal(cells, removed, s)[i]->0.data == cells[i]->0.data
            &&& cells_after_removal(cells, removed, s)[i]->0.ref_count + occurrences(removed, i as nat)
                == cells[i]->0.ref_count
        },
{
}

/// The removal check depends only on cells whose value is `s`: it holds
/// exactly when each handle named in `ids` whose cell holds `s` leaves that
/// cell more counts than `ids` names it.  A cell whose value differs from
/// `s`, such as one holding a prefix of `s`, never makes it false.
pub proof fn lemma_removal_check_only_equal_cells(
    cells: Seq<Option<CountedCell<String>>>,
    ids: Seq<nat>,
    s: Seq<char>,
)
    ensures
        removal_leaves_handles(cells, ids, s) <==> (forall|j: int|
            0 <= j < ids.len() ==> (cells[ids[j] as int]->0.data@ != s || occurrences(ids, #[trigger] ids[j])
                < cells[ids[j] as int]->0.ref_count)),
{
}

/// The string cells after one handle per entry of `removed` is dropped from
/// every cell whose value is `s`; the other cells are unchanged.
pub open spec fn cells_after_removal(
    cells: Seq<Option<CountedCell<String>>>,
    removed: Seq<nat>,
    s: Seq<char>,
) -> Seq<Option<CountedCell<String>>> {
    Seq::new(
        cells.len(),
        |i: int|
            if cells[i] is Some && cells[i]->0.data@ == s {
                Some(
                    CountedCell {
                        ref_count: (cells[i]->0.ref_count - occurrences(removed, i as nat)) as usize,
                        data: cells[i]->0.data,
                    },
                )
            } else {
                cells[i]
            },
    )
}

/// Lending a value out (`FRefMut::to_immut`, `RefMut::to_immut`,
/// `ArcMut::clone_immut`) and taking it straight back (`back_to_mut`) is
/// allowed, gives back the same value, and leaves nothing behind but the
/// freed cell.
pub proof fn lemma_lend_then_take_back<T>(cells: Seq<Option<CountedCell<T>>>, data: T)
    ensures
        ({
            let lent = cells.push(Some(CountedCell { ref_count: 1, data }));
            let id = cells.len();
            &&& is_live(lent, id)
            &&& count_of(lent, id) == 1
            &&& data_of(lent, id) == data
            &&& lent.update(id as int, None) == cells.push(None)
        }),
{
    let lent = cells.push(Some(CountedCell { ref_count: 1, data }));
    assert(lent.update(cells.len() as int, None) =~= cells.push(None));
}

/// Cloning a handle (`clone_immut`) and then dropping one handle of the same
/// cell (`release`) finds other handles left and gives back the store as it
/// was; the value of the cell is never touched.
pub proof fn lemma_clone_then_release<T>(cells: Seq<Option<CountedCell<T>>>, id: nat)
    requires
        is_live(cells, id),
        1 <= count_of(cells, id) <= MAX_REFCOUNT,
    ensures
        ({
            let cloned = with_count(cells, id, count_of(cells, id) + 1);
            &&& is_live(cloned, id)
            &&& count_of(cloned, id) > 1
            &&& data_of(cloned, id) == data_of(cells, id)
            &&& with_count(cloned, id, (count_of(cloned, id) - 1) as nat) == cells
        }),
{
    assert(MAX_REFCOUNT < usize::MAX);
    let cloned = with_count(cells, id, count_of(cells, id) + 1);
    assert(count_of(cloned, id) == count_of(cells, id) + 1);
    let back = with_count(cloned, id, (count_of(cloned, id) - 1) as nat);
    assert(back[id as int] == cells[id as int]);
    assert(back =~= cells);
}

/// When every id in `ids` names a live cell whose value is `s`, no other
/// cell is named.
pub proof fn lemma_only_matching_named(
    cells: Seq<Option<CountedCell<String>>>,
    ids: Seq<nat>,
    s: Seq<char>,
    i: nat,
)
    requires
        forall|j: int| 0 <= j < ids.len() ==> is_live(cells, #[trigger] ids[j]) && data_of(cells, ids[j])@ == s,
        !(is_live(cells, i) && data_of(cells, i)@ == s),
    ensures
        occurrences(ids, i) == 0,
    decreases ids.len(),
{
    if ids.len() > 0 {
        assert(ids.last() == ids[ids.len() - 1]);
        lemma_only_matching_named(cells, ids.drop_last(), s, i);
    }
}

/// Handing out clones of string cells (`lend_clones`,
/// `push_random_clones`) and then removing every handle to a value `s`
/// (`remove_string`, `remove_matching`) gives back the
/// store as it was, when all the clones were of cells holding `s`.  The
/// removal never drops a last handle, so `remove_string` may always be
/// called there; a cell whose count was one can then be taken back by
/// `back_to_mut`.
pub proof fn lemma_clones_then_removal(
    cells: Seq<Option<CountedCell<String>>>,
    ids: Seq<nat>,
    s: Seq<char>,
)
    requires
        counts_positive(cells),
        forall|j: int| 0 <= j < ids.len() ==> is_live(cells, #[trigger] ids[j]) && data_of(cells, ids[j])@ == s,
        forall|i: nat| is_live(cells, i) ==> #[trigger] count_of(cells, i) + occurrences(ids, i) <= usize::MAX,
    ensures
        removal_leaves_handles(cells_after_clones(cells, ids), ids, s),
        cells_after_removal(cells_after_clones(cells, ids), ids, s) == cells,
{
    let grown = cells_after_clones(cells, ids);
    assert forall|j: int|
        0 <= j < ids.len() && data_of(grown, #[trigger] ids[j])@ == s implies occurrences(ids, ids[j]) < count_of(grown, ids[j]) by {
        let i = ids[j];
        assert(is_live(cells, i));
        assert(cells[i as int]->0.ref_count >= 1);
        assert(count_of(cells, i) + occurrences(ids, i) <= usize::MAX);
        assert(count_of(grown, i) == count_of(cells, i) + occurrences(ids, i));
    }
    assert forall|i: int| 0 <= i < cells.len() implies #[trigger] cells_after_removal(grown, ids, s)[i] == cells[i] by {
        if cells[i] is Some {
            assert(is_live(cells, i as nat));
            assert(count_of(cells, i as nat) + occurrences(ids, i as nat) <= usize::MAX);
            if cells[i]->0.data@ != s {
                lemma_only_matching_named(cells, ids, s, i as nat);
                assert(grown[i] == cells[i]);
            } else {
                assert(count_of(grown, i as nat) == count_of(cells, i as nat) + occurrences(ids, i as nat));
            }
        }
    }
    assert(cells_after_removal(grown, ids, s) =~= cells);
}

impl<T> CellStore<T> {
    /// An empty store.
    pub fn new() -> (store: Self)
        ensures
            store@ == Seq::<Option<CountedCell<T>>>::empty(),
    {
        CellStore { cells: Vec::new() }
    }

    /// The number of cells ever allocated, freed ones included.
    pub fn len(&self) -> (r: usize)
        ensures
            r == self@.len(),
    {
        self.cells.len()
    }

    /// Whether cell `id` holds a value.
    pub fn is_live(&self, id: usize) -> (r: bool)
        ensures
            r == is_live(self@, id as nat),
    {
        id < self.cells.len() && self.cells[id].is_some()
    }

    /// Adds a cell holding `data` with count `count`; returns its index.
    pub(crate) fn allocate(&mut self, data: T, count: usize) -> (id: usize)
        requires
            old(self)@.len() < usize::MAX,
        ensures
            id == old(self)@.len(),
            final(self)@ == old(self)@.push(Some(CountedCell { ref_count: count, data })),
    {
        let id = self.cells.len();
        self.cells.push(Some(CountedCell { ref_count: count, data }));
        id
    }

    /// The count of a live cell.
    pub(crate) fn count(&self, id: usize) -> (r: usize)
        requires
            is_live(self@, id as nat),
        ensures
            r == count_of(self@, id as nat),
    {
        self.cells[id].as_ref().unwrap().ref_count
    }

    /// Sets the count of a live cell.
    pub(crate) fn set_count(&mut self, id: usize, n: usize)
        requires
            is_live(old(self)@, id as nat),
        ensures
            final(self)@ == with_count(old(self)@, id as nat, n as nat),
    {
        match &mut self.cells[id] {
            Some(cell) => {
                cell.ref_count = n;
            },
            None => {},
        }
    }

    /// Shared access to the value of a live cell.
    pub(crate) fn data(&self, id: usize) -> (r: &T)
        requires
            is_live(self@, id as nat),
        ensures
            *r == data_of(self@, id as nat),
    {
        &self.cells[id].as_ref().unwrap().data
    }

    /// Mutable access to the value of a live cell.
    pub(crate) fn data_mut(&mut self, id: usize) -> (r: &mut T)
        requires
            is_live(old(self)@, id as nat),
        ensures
            *r == data_of(old(self)@, id as nat),
            final(self)@ == with_data(old(self)@, id as nat, *final(r)),
    {
        &mut self.cells[id].as_mut().unwrap().data
    }

    /// Frees a live cell and returns its value.
    pub(crate) fn take(&mut self, id: usize) -> (r: T)
        requires
            is_live(old(self)@, id as nat),
        ensures
            r == data_of(old(self)@, id as nat),
            final(self)@ == old(self)@.update(id as int, None),
    {
        let cell = self.cells[id].take();
        cell.unwrap().data
    }
}

} // verus!
