//! Kernel I/O paths: the data-path profiles, and the arithmetic of the aligned buffers
//! that direct and asynchronous reads need.
pub mod data_path;
pub mod aio;
