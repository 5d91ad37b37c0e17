# noip_ioi_capacity

Capacity model for real-time feedback at a national programming contest.

- `src/` is the verified integer core: the SplitMix64 generator (`rng`), seed
  derivation and scenario tags (`seeds`), stratum lookup (`population`), the
  per-task submission cap (`submissions`), replication hand-out to workers
  (`schedule`), bootstrap resampling indices (`bootstrap`) and the FIFO
  backlog count of the fluid queue over order keys of instants (`backlog`).
- `app/main.rs` is the program: floating-point sampling, the fluid-queue
  evaluation, the core-count bisection, threads and the CSV report.
- `tests/` exercises the library on concrete values.
