pub mod basics;
pub mod hft;
pub mod strategies;
pub mod web3;
pub mod pitfalls;
