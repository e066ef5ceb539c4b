//! Temporal point processes on the half-line: homogeneous Poisson sampling,
//! intensity-thinning for a bounded time-varying rate, and two exponential-kernel
//! Hawkes simulators (a thinning variant and the exact Dassios-Zhao algorithm).
//!
//! All times, rates and marks are fixed-point values counted in ticks of
//! `1 / SCALE`, so that every step of each algorithm is plain integer
//! arithmetic with a proved contract. The random draws an algorithm consumes
//! (Poisson counts, unit-interval variates, unit-rate exponential variates and
//! the exponential decay factors computed from them) enter as explicit
//! arguments, so each simulator is a deterministic, fully specified function
//! of its draws; a driver supplies fresh randomness per run.

pub mod event;
pub mod order;
pub mod rng;
pub mod poisson;
pub mod thinning;
pub mod hawkes_thinning;
pub mod hawkes_exact;
