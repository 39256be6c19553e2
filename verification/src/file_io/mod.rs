pub mod basics;
pub mod linux_kernel_io;
pub mod hft;
pub mod pitfalls;
pub mod strategies;
pub mod web3;
