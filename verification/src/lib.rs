//! Runtime-checked shared references.  A value is owned exclusively through
//! a mutable handle, lent out as any number of counted immutable handles,
//! and handed back to exclusive ownership only once a single immutable
//! handle is left; dropping the last immutable handle without handing the
//! value back is reported as an ownership error.
//!
//! The shared cells live in a store that the caller owns and passes to
//! every operation, and a handle names a cell of its store.  The counts are
//! therefore plain values of the store, and every rule about them is stated
//! in the contracts.  A handle must be used with the store that made it.
//!
//! - `counted`: the store of single-count cells and the facts about it.
//! - `fractional_ref`: `FRefMut` / `FRefImmut`.
//! - `new_ref`: `RefMut` / `RefImmut`, whose last drop is excused while the
//!   thread unwinds.
//! - `split_arc`: `ArcMut` / `ArcImmut`, whose drops never free a cell.
//! - `baba_arc`: `BabaArcMut` / `BabaArcImmut`, with separate write and read
//!   tallies.
//! - `new_arc`: `NewArc` / `NewWeak`, strong and weak counts.
//! - `lending`: the `CellHandle` trait and the operations on many handles
//!   of a `CellStore` at once: lending clones by a list of choices, and
//!   dropping every handle to a given string.
//! - `random_clones`: coin flips that decide the choices.

pub mod baba_arc;
pub mod counted;
pub mod fractional_ref;
pub mod lending;
pub mod new_arc;
pub mod new_ref;
pub mod random_clones;
pub mod split_arc;
