//! Borrowed views over buffers, with the owned forms they are promoted to.
pub mod basics;
pub mod hft;
pub mod pitfalls;
pub mod strategies;
pub mod web3;
