//! How data travels on each kernel I/O path.
use vstd::prelude::*;

verus! {

/// One I/O path: its copies into user space, whether it bypasses the page cache, its
/// system calls per chunk, and its typical context switches.
#[derive(Clone, Copy, Debug)]
pub struct IoPathProfile {
    pub name: &'static str,
    pub user_copy: u8,
    pub bypass_page_cache: bool,
    pub syscall_per_chunk: u8,
    pub typical_ctx_switches: &'static str,
}

/// The five paths: buffered read/write, O_DIRECT, mmap, sendfile and splice.
pub fn profiles() -> (r: [IoPathProfile; 5])
    ensures
        r@.len() == 5,
        r@[0].name@ == "read/write (buffered)"@ && r@[0].user_copy == 1 && !r@[0].bypass_page_cache && r@[0].syscall_per_chunk == 1,
        r@[1].name@ == "O_DIRECT"@ && r@[1].user_copy == 1 && r@[1].bypass_page_cache && r@[1].syscall_per_chunk == 1,
        r@[2].name@ == "mmap (memmap2)"@ && r@[2].user_copy == 0 && !r@[2].bypass_page_cache && r@[2].syscall_per_chunk == 0,
        r@[3].name@ == "sendfile"@ && r@[3].user_copy == 0 && !r@[3].bypass_page_cache && r@[3].syscall_per_chunk == 1,
        r@[4].name@ == "splice (pipe)"@ && r@[4].user_copy == 0 && !r@[4].bypass_page_cache && r@[4].syscall_per_chunk == 1,
        r@[0].typical_ctx_switches@ == "user→kernel→user 各 1 次"@,
        r@[1].typical_ctx_switches@ == "user→kernel→user；无 page cache 命中"@,
        r@[2].typical_ctx_switches@ == "fault 时内核填 page；热读无额外 copy"@,
        r@[3].typical_ctx_switches@ == "数据留在内核；page cache→socket/file buffer"@,
        r@[4].typical_ctx_switches@ == "内核 pipe buffer 中转；至少一端是 pipe"@,
{
    [
        IoPathProfile {
            name: "read/write (buffered)",
            user_copy: 1,
            bypass_page_cache: false,
            syscall_per_chunk: 1,
            typical_ctx_switches: "user→kernel→user 各 1 次",
        },
        IoPathProfile {
            name: "O_DIRECT",
            user_copy: 1,
            bypass_page_cache: true,
            syscall_per_chunk: 1,
            typical_ctx_switches: "user→kernel→user；无 page cache 命中",
        },
        IoPathProfile {
            name: "mmap (memmap2)",
            user_copy: 0,
            bypass_page_cache: false,
            syscall_per_chunk: 0,
            typical_ctx_switches: "fault 时内核填 page；热读无额外 copy",
        },
        IoPathProfile {
            name: "sendfile",
            user_copy: 0,
            bypass_page_cache: false,
            syscall_per_chunk: 1,
            typical_ctx_switches: "数据留在内核；page cache→socket/file buffer",
        },
        IoPathProfile {
            name: "splice (pipe)",
            user_copy: 0,
            bypass_page_cache: false,
            syscall_per_chunk: 1,
            typical_ctx_switches: "内核 pipe buffer 中转；至少一端是 pipe",
        },
    ]
}

} // verus!
