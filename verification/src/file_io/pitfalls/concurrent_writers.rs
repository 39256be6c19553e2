//! Several writers appending to one file.
use vstd::prelude::*;

verus! {

/// How to serialise the writers.
pub fn good_pattern() -> (r: &'static str)
    ensures
        r@ == "单 writer 进程 + flock/O_EXCL sidecar 或消息队列串行化"@,
{
    "单 writer 进程 + flock/O_EXCL sidecar 或消息队列串行化"
}

} // verus!
