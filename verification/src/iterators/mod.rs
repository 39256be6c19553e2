pub mod basics;
pub mod hft;
pub mod pitfalls;
pub mod strategies;
pub mod web3;
