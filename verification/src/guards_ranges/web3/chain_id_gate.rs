//! Supported-chain gate.
use vstd::prelude::*;

verus! {

#[derive(Debug, Clone, Copy, PartialEq, Eq, Structural)]
pub enum ChainSupport {
    Ethereum,
    L2,
    Testnet,
    Unknown,
}

pub open spec fn classify_spec(chain_id: u64) -> ChainSupport {
    if chain_id == 1 {
        ChainSupport::Ethereum
    } else if chain_id == 10 || chain_id == 42161 || chain_id == 8453 {
        ChainSupport::L2
    } else if 11_155_111 <= chain_id <= 11_155_120 {
        ChainSupport::Testnet
    } else {
        ChainSupport::Unknown
    }
}

pub fn classify(chain_id: u64) -> (r: ChainSupport)
    ensures
        r == classify_spec(chain_id),
{
    if chain_id == 1 {
        ChainSupport::Ethereum
    } else if chain_id == 10 || chain_id == 42161 || chain_id == 8453 {
        ChainSupport::L2
    } else if chain_id >= 11_155_111 && chain_id <= 11_155_120 {
        ChainSupport::Testnet
    } else {
        ChainSupport::Unknown
    }
}

} // verus!
