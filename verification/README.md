# delila

The data-path logic of a data-acquisition system for CAEN digitizers,
written in Verus: decoders for the PSD1/PHA1, PSD2/PHA2 and AMax raw data
formats, timestamp rollover tracking, the reorder stage of the parallel
decode pipeline, the read loop's run-state, back-pressure and error
decisions, the Operator's run-start sequence, device-tree parameter
metadata, the V1743 configuration sequence, and the bookkeeping of
applying a configuration.

- `src/` — the verified library. Every function carries a contract, and the
  properties that span several calls (sorting, reordering over any
  sequence of pushes, rollover over a whole forward sequence of readings,
  synchronisation with the Operator's target state, no read block ever
  dropped, a run started only after every phase succeeded) are proved as
  `law_*` proof functions.
- `tests/` — tests of the library on concrete data.
- `app/` — what stays outside the proofs: floating-point timing and
  parameter snapping, serialisable copies of the result types, JSON parsing
  of the device tree, the loops that apply parameters and wait for a board,
  and the execution of the V1743 configuration plan through a board trait.

Event times are kept as clock ticks and fractions of a tick; conversion to
nanoseconds happens in `app/timing.rs`.
