pub mod arith;
pub mod assoc;
pub mod ffi;
pub mod file_io;
pub mod bytes;
pub mod decimal;
pub mod generics;
pub mod guards_ranges;
pub mod inline_caching;
pub mod interior_mutability;
pub mod iterators;
pub mod lifetimes;
pub mod macros;
pub mod merkle_patricia;
pub mod mev_simulator;
pub mod orderbook;
pub mod text;
