# via_core

The Tier-1 side of the VIA anomaly-detection system, written in Verus: the
memory-bounded profile registry with its eviction policy, per-entity behavioural
profiles and their least-recently-used store, frequency and cardinality sketches,
checkpoint and feedback bookkeeping, Tier-2 forwarding decisions, policy rule
indexing, the simulator's scheduler, OTel log records and ground-truth tracking, and
the integer side of the benchmarks. Every function in `src/` is verified by Verus
against its contract; the few that read the system clock promise nothing of the
reading.

- `src/` — the verified library (see the module list in `src/lib.rs`).
- `tests/` — tests of the library on concrete values.
- `app/` — what the library leaves out: serialisable copies of its types, bincode
  checkpoint encoding, the registry's floating-point eviction score, the crossbeam
  feedback channel, floating-point scores and reports, process-wide seeding and policy
  state, and the C interface.
