# shared_refs

Runtime-checked shared references, verified with Verus.

A value is owned through a mutable handle, lent out as counted immutable
handles, and taken back into exclusive ownership only when one immutable
handle is left.  The shared cells are kept in a store owned by the caller,
so the reference counts are ordinary values and the rules about them are
stated and proved in the contracts.

- `src/` — the verified library (`counted`, `lending`, `fractional_ref`, `new_ref`,
  `split_arc`, `baba_arc`, `new_arc`, `random_clones`).
- `tests/` — tests of the library.
- `app/` — the experiments as subcommands of one program: threads, locks,
  channels, printing, and the panics that the library reports to its caller.
