//! Estimation, sampling, and scoring of discrete-time binary Markov chains of
//! unknown order.
//!
//! Given an observed bit sequence, the library fits an order-k Markov model by
//! maximum likelihood, samples synthetic data from a fitted or hand-authored
//! model, and exposes the exact per-window conditional probabilities and the
//! parameter-table complexity from which a caller computes
//! minimum-description-length style scores.
//!
//! Conditional probabilities are kept as exact rationals: each context stores
//! the weight of its `ZERO` continuation and of its `ONE` continuation, and
//! `P(ZERO | context)` is the first weight over their sum. This keeps every
//! statement about estimation exact; only the logarithmic scoring step, which
//! is inherently real-valued, is left to callers.
#![verifier::loop_isolation(false)]

pub mod bits;
pub mod contexts;
pub mod scorer;
pub mod theory;
