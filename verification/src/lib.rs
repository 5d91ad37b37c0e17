//! Integer core of a Monte Carlo capacity model for real-time judging of a
//! programming contest: the SplitMix64 generator, seed derivation, stratum
//! lookup, submission capping, bootstrap resampling indices, replication
//! hand-out and the FIFO backlog count of the fluid queue.

pub mod rng;
pub mod seeds;
pub mod population;
pub mod submissions;
pub mod schedule;
pub mod bootstrap;
pub mod backlog;
