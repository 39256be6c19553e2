//! Blocking file I/O on an async runtime's worker threads.
use vstd::prelude::*;

verus! {

/// What goes wrong.
pub fn bad_pattern() -> (r: &'static str)
    ensures
        r@ == "tokio::fs 却用 std::fs::read_to_string 堵 worker → 延迟尖刺"@,
{
    "tokio::fs 却用 std::fs::read_to_string 堵 worker → 延迟尖刺"
}

/// What to do instead.
pub fn good_pattern() -> (r: &'static str)
    ensures
        r@ == "spawn_blocking / 专用 I/O 线程池 / rio-io_uring"@,
{
    "spawn_blocking / 专用 I/O 线程池 / rio-io_uring"
}

} // verus!
