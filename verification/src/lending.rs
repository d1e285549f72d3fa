//! Operations on many immutable handles at once, shared by the families
//! whose cells live in a `CellStore`: lending clones of two handles as a
//! sequence of choices says, and dropping every handle to a given string.

use crate::counted::{
    cells_after_clones, cells_after_removal, count_of, counts_positive, data_of, is_live,
    lemma_occurrences_len, lemma_occurrences_prefix, lemma_occurrences_push, occurrences,
    removal_leaves_handles, with_count, CellStore, CountedCell, MAX_REFCOUNT,
};
use vstd::prelude::*;

verus! {

/// A counted immutable handle to a cell of a `CellStore`.
pub trait CellHandle: Sized {
    type Value;

    /// The cell that the handle refers to.
    spec fn cell(&self) -> nat;

    /// The index of that cell.
    fn cell_index(&self) -> (r: usize)
        ensures
            r == self.cell(),
    ;

    /// A further handle to the same cell; the count goes up by one.
    fn share(&self, store: &mut CellStore<Self::Value>) -> (r: Self)
        requires
            is_live(old(store)@, self.cell()),
            count_of(old(store)@, self.cell()) <= MAX_REFCOUNT,
        ensures
            r.cell() == self.cell(),
            final(store)@ == with_count(
                old(store)@,
                self.cell(),
                count_of(old(store)@, self.cell()) + 1,
            ),
    ;

    /// Drops the handle while other handles to its cell remain; the count
    /// goes down by one.
    fn unshare(self, store: &mut CellStore<Self::Value>)
        requires
            is_live(old(store)@, self.cell()),
            count_of(old(store)@, self.cell()) > 1,
        ensures
            final(store)@ == with_count(
                old(store)@,
                self.cell(),
                (count_of(old(store)@, self.cell()) - 1) as nat,
            ),
    ;
}

/// The cells that `handles` refer to, in order.
pub open spec fn handle_ids<H: CellHandle>(handles: Seq<H>) -> Seq<nat> {
    handles.map_values(|h: H| h.cell())
}

/// The cells picked by `choices`: `a` for `true`, `b` for `false`.
pub open spec fn picked_ids(choices: Seq<bool>, a: nat, b: nat) -> Seq<nat> {
    choices.map_values(|c: bool| if c { a } else { b })
}

/// A handle is kept by `remove_matching` when its value differs from `s`.
pub open spec fn keeps_handle<H: CellHandle>(cells: Seq<Option<CountedCell<String>>>, s: Seq<char>) -> spec_fn(H) -> bool {
    |h: H| data_of(cells, h.cell())@ != s
}

/// `remove_matching` keeps a handle exactly when the value of its cell is
/// not the string `s`, character for character.
pub proof fn lemma_kept_exactly_when_unequal<H: CellHandle>(
    cells: Seq<Option<CountedCell<String>>>,
    s: Seq<char>,
    h: H,
)
    ensures
        keeps_handle::<H>(cells, s)(h) <==> cells[h.cell() as int]->0.data@ != s,
{
}

/// What `remove_matching` leaves in the vector: every kept handle names a
/// cell whose value is not `s`, and every handle of the input whose value
/// is not `s` is kept, the kept ones in their original order.
pub proof fn lemma_removal_keeps_the_unequal<H: CellHandle>(
    cells: Seq<Option<CountedCell<String>>>,
    handles: Seq<H>,
    s: Seq<char>,
)
    ensures
        forall|k: int|
            0 <= k < handles.filter(keeps_handle::<H>(cells, s)).len() ==> cells[(#[trigger] handles.filter(
                keeps_handle::<H>(cells, s),
            )[k]).cell() as int]->0.data@ != s,
        forall|j: int|
            0 <= j < handles.len() && cells[(#[trigger] handles[j]).cell() as int]->0.data@ != s
                ==> handles.filter(keeps_handle::<H>(cells, s)).contains(handles[j]),
        handles.filter(keeps_handle::<H>(cells, s)).len() <= handles.len(),
{
    let pred = keeps_handle::<H>(cells, s);
    handles.filter_lemma(pred);
    assert forall|j: int|
        0 <= j < handles.len() && cells[(#[trigger] handles[j]).cell() as int]->0.data@ != s implies handles.filter(
            pred,
        ).contains(handles[j]) by {
        handles.lemma_filter_contains(pred, j);
    }
}

/// Appends one clone per entry of `choices` to `vec`: a clone of `a` for
/// `true`, of `b` for `false`.  Each clone raises the count of its cell by
/// one; a clone from a count above `MAX_REFCOUNT` aborts, so `requires`
/// leaves room for every entry in both cells.
pub fn lend_clones<H: CellHandle>(
    vec: &mut Vec<H>,
    a: &H,
    b: &H,
    store: &mut CellStore<H::Value>,
    choices: &Vec<bool>,
)
    requires
        is_live(old(store)@, a.cell()),
        is_live(old(store)@, b.cell()),
        count_of(old(store)@, a.cell()) + choices@.len() <= MAX_REFCOUNT + 1,
        count_of(old(store)@, b.cell()) + choices@.len() <= MAX_REFCOUNT + 1,
        old(vec)@.len() + choices@.len() <= usize::MAX,
    ensures
        final(vec)@.len() == old(vec)@.len() + choices@.len(),
        final(vec)@.take(old(vec)@.len() as int) == old(vec)@,
        handle_ids(final(vec)@.skip(old(vec)@.len() as int)) == picked_ids(choices@, a.cell(), b.cell()),
        final(store)@ == cells_after_clones(old(store)@, picked_ids(choices@, a.cell(), b.cell())),
        counts_positive(old(store)@) ==> counts_positive(final(store)@),
{
    let ghost cells0 = store@;
    let ghost vec0 = vec@;
    let ghost len0 = vec0.len();
    let ghost all = picked_ids(choices@, a.cell(), b.cell());
    let mut k: usize = 0;
    proof {
        assert(vec@.skip(len0 as int) =~= Seq::<H>::empty());
        assert(handle_ids(vec@.skip(len0 as int)) =~= all.take(0));
        assert(cells_after_clones(cells0, all.take(0)) =~= cells0);
    }
    while k < choices.len()
        invariant
            0 <= k <= choices@.len(),
            all == picked_ids(choices@, a.cell(), b.cell()),
            is_live(cells0, a.cell()),
            is_live(cells0, b.cell()),
            count_of(cells0, a.cell()) + choices@.len() <= MAX_REFCOUNT + 1,
            count_of(cells0, b.cell()) + choices@.len() <= MAX_REFCOUNT + 1,
            len0 + choices@.len() <= usize::MAX,
            vec@.len() == len0 + k,
            vec@.take(len0 as int) == vec0,
            handle_ids(vec@.skip(len0 as int)) == all.take(k as int),
            store@ == cells_after_clones(cells0, all.take(k as int)),
            counts_positive(cells0) ==> counts_positive(store@),
        decreases choices@.len() - k,
    {
        let ghost added = all.take(k as int);
        let picked = if choices[k] { a } else { b };
        assert(all[k as int] == picked.cell());
        proof {
            lemma_occurrences_len(added, picked.cell());
            assert(store@[picked.cell() as int] == cells_after_clones(cells0, added)[picked.cell() as int]);
        }
        let c = picked.share(store);
        let ghost before = vec@;
        vec.push(c);
        proof {
            assert(vec@.skip(len0 as int) =~= before.skip(len0 as int).push(c));
            let added2 = all.take(k + 1);
            assert(added2 =~= added.push(picked.cell()));
            assert(handle_ids(vec@.skip(len0 as int)) =~= added2);
            assert forall|i: nat| true implies occurrences(added2, i) == occurrences(added, i) + if picked.cell() == i { 1nat } else { 0nat } by {
                lemma_occurrences_push(added, picked.cell(), i);
            }
            assert(store@ =~= cells_after_clones(cells0, added2));
            assert(vec@.take(len0 as int) =~= vec0);
        }
        k = k + 1;
    }
    assert(all.take(choices@.len() as int) =~= all);
}

/// Drops from `vec` every handle whose value equals `s`, keeping the order
/// of the others, as `Vec::retain` does; each dropped handle gives up its
/// count.  `requires` leaves every matching cell at least one handle.
pub fn remove_matching<H: CellHandle<Value = String>>(
    vec: &mut Vec<H>,
    s: &String,
    store: &mut CellStore<String>,
)
    requires
        forall|j: int| 0 <= j < old(vec)@.len() ==> is_live(old(store)@, #[trigger] old(vec)@[j].cell()),
        removal_leaves_handles(old(store)@, handle_ids(old(vec)@), s@),
    ensures
        final(vec)@ == old(vec)@.filter(keeps_handle::<H>(old(store)@, s@)),
        final(store)@ == cells_after_removal(old(store)@, handle_ids(old(vec)@), s@),
        counts_positive(old(store)@) ==> counts_positive(final(store)@),
{
    let ghost cells0 = store@;
    let ghost orig = vec@;
    let ghost pred = keeps_handle::<H>(cells0, s@);
    let ghost ids = handle_ids(orig);
    let len0 = vec.len();
    let mut rest: Vec<H> = Vec::new();
    std::mem::swap(vec, &mut rest);
    let ghost n = orig.len();
    let mut k: usize = 0;
    proof {
        assert(orig.take(0) =~= Seq::<H>::empty());
        assert(orig.take(0).filter(pred) =~= Seq::<H>::empty()) by {
            reveal(Seq::filter);
        }
        assert(cells_after_removal(cells0, ids.take(0), s@) =~= cells0);
    }
    while rest.len() > 0
        invariant
            counts_positive(cells0) ==> counts_positive(store@),
            0 <= k <= n,
            n == orig.len(),
            n == len0,
            rest@ =~= orig.subrange(k as int, n as int),
            vec@ == orig.take(k as int).filter(pred),
            pred == keeps_handle::<H>(cells0, s@),
            ids == handle_ids(orig),
            store@ == cells_after_removal(cells0, ids.take(k as int), s@),
            forall|j: int| 0 <= j < orig.len() ==> is_live(cells0, #[trigger] orig[j].cell()),
            removal_leaves_handles(cells0, ids, s@),
        decreases rest.len(),
    {
        assert(k < n);
        let h = rest.remove(0);
        let ghost id = h.cell();
        assert(h == orig[k as int]);
        assert(orig.take(k + 1) =~= orig.take(k as int).push(h));
        assert(ids.take(k + 1).drop_last() =~= ids.take(k as int));
        assert(ids[k as int] == id);
        proof {
            orig.take(k as int).lemma_filter_push(h, pred);
        }
        let index = h.cell_index();
        let matches = store.data(index).eq(s);
        if matches {
            proof {
                lemma_occurrences_prefix(ids, k + 1, id);
                assert(is_live(cells0, id));
                assert(data_of(cells0, ids[k as int])@ == s@);
                assert(count_of(cells0, id) > occurrences(ids, id));
            }
            h.unshare(store);
            assert(store@ =~= cells_after_removal(cells0, ids.take(k + 1), s@));
        } else {
            vec.push(h);
            assert(store@ =~= cells_after_removal(cells0, ids.take(k + 1), s@));
        }
        k = k + 1;
    }
    assert(orig.take(n as int) =~= orig);
    assert(ids.take(n as int) =~= ids);
}

/// How many handles of `vec` refer to cell `id`.
fn occurrences_in<H: CellHandle>(vec: &Vec<H>, id: usize) -> (r: usize)
    ensures
        r == occurrences(handle_ids(vec@), id as nat),
{
    let ghost ids = handle_ids(vec@);
    let mut n: usize = 0;
    let mut k: usize = 0;
    proof {
        assert(ids.take(0) =~= Seq::<nat>::empty());
    }
    while k < vec.len()
        invariant
            0 <= k <= vec@.len(),
            ids == handle_ids(vec@),
            n <= k,
            n == occurrences(ids.take(k as int), id as nat),
        decreases vec@.len() - k,
    {
        proof {
            assert(ids.take(k + 1) =~= ids.take(k as int).push(ids[k as int]));
            lemma_occurrences_push(ids.take(k as int), ids[k as int], id as nat);
        }
        if vec[k].cell_index() == id {
            n = n + 1;
        }
        k = k + 1;
    }
    assert(ids.take(vec@.len() as int) =~= ids);
    n
}

/// Whether `remove_matching(vec, s, store)` would leave every cell it
/// touches at least one handle, which is what it requires.
pub fn can_remove_matching<H: CellHandle<Value = String>>(
    vec: &Vec<H>,
    s: &String,
    store: &CellStore<String>,
) -> (r: bool)
    requires
        forall|j: int| 0 <= j < vec@.len() ==> is_live(store@, #[trigger] vec@[j].cell()),
    ensures
        r == removal_leaves_handles(store@, handle_ids(vec@), s@),
{
    let ghost ids = handle_ids(vec@);
    let mut j: usize = 0;
    while j < vec.len()
        invariant
            0 <= j <= vec@.len(),
            ids == handle_ids(vec@),
            forall|jj: int| 0 <= jj < vec@.len() ==> is_live(store@, #[trigger] vec@[jj].cell()),
            forall|jj: int|
                0 <= jj < j && data_of(store@, #[trigger] ids[jj])@ == s@ ==> occurrences(ids, ids[jj])
                    < count_of(store@, ids[jj]),
        decreases vec@.len() - j,
    {
        assert(ids[j as int] == vec@[j as int].cell());
        let id = vec[j].cell_index();
        if store.data(id).eq(s) {
            let n = occurrences_in(vec, id);
            if n >= store.count(id) {
                return false;
            }
        }
        j = j + 1;
    }
    true
}

} // verus!
