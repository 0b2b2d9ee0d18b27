//! A verified coin-flip wager library.
//!
//! A player stakes a deposit on one of two coin sides; a remote compute
//! service is asked for a random number in an inclusive range, and a
//! continuation resolves the wager exactly once from the remote outcome.
//! The library holds the verified core: the JSON wire format for range
//! requests and random responses, the bounded random-number derivation,
//! deposit validation with request construction, and outcome resolution.
//! The host-facing plumbing (blockchain promises, standard input/output,
//! the raw sandbox boundary) lives outside the library.

pub mod codec;
pub mod contract;
pub mod rng;
pub mod types;
