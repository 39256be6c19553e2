//! A signing stub's fixed 64-byte output, and the session a foreign caller holds by
//! handle.
use vstd::prelude::*;

verus! {

/// The stub's output for a message: byte `i` is `i`, then byte 0 is the message length
/// modulo 256 and byte 1 its first byte, or 0 when it is empty.
pub open spec fn dual_out_spec(msg: Seq<u8>) -> Seq<u8> {
    Seq::new(
        64,
        |i: int|
            if i == 0 {
                (msg.len() % 256) as u8
            } else if i == 1 {
                if msg.len() > 0 {
                    msg[0]
                } else {
                    0u8
                }
            } else {
                i as u8
            },
    )
}

/// Fills a compact 64-byte output for the message.
pub fn sign_compact_stub(msg: &[u8]) -> (r: Result<[u8; 64], ()>)
    ensures
        r matches Ok(out) && out@ == dual_out_spec(msg@),
{
    let mut out = [0u8; 64];
    let mut i: usize = 0;
    while i < 64
        invariant
            i <= 64,
            out@.len() == 64,
            forall|k: int| 0 <= k < i ==> #[trigger] out@[k] == k as u8,
        decreases 64 - i,
    {
        out[i] = i as u8;
        i = i + 1;
    }
    out[0] = (msg.len() % 256) as u8;
    out[1] = if msg.len() > 0 { msg[0] } else { 0 };
    assert(out@ =~= dual_out_spec(msg@));
    Ok(out)
}

/// A chain session that foreign code holds by handle.
pub struct ChainSession {
    pub chain_id: u64,
    pub rpc_epoch: u64,
}

} // verus!
