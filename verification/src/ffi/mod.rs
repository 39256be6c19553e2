//! The Rust side of foreign calls: argument checks and outcome mapping around a vendor
//! decoder, scratch borrowed for one call, a deadline around a blocking call, and the
//! fixed-size output of a signing stub.
pub mod hft;
pub mod pitfalls;
pub mod strategies;
pub mod web3;
