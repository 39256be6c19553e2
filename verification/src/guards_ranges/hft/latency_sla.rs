//! Routing by measured latency.
use vstd::prelude::*;

verus! {

#[derive(Debug, Clone, Copy, PartialEq, Eq, Structural)]
pub enum Route {
    Fpga,
    KernelBypass,
    Userspace,
    Degraded,
}

pub open spec fn route_spec(latency_us: u64) -> Route {
    if latency_us <= 10 {
        Route::Fpga
    } else if latency_us <= 50 {
        Route::KernelBypass
    } else if latency_us <= 200 {
        Route::Userspace
    } else {
        Route::Degraded
    }
}

pub fn route(latency_us: u64) -> (r: Route)
    ensures
        r == route_spec(latency_us),
{
    if latency_us <= 10 {
        Route::Fpga
    } else if latency_us <= 50 {
        Route::KernelBypass
    } else if latency_us <= 200 {
        Route::Userspace
    } else {
        Route::Degraded
    }
}

} // verus!
