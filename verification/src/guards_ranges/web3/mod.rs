//! Chain-side guards: fee tiers, finality, transfer bounds, calldata routing, chain
//! support and blob transaction checks.
pub mod blob_tx_validate;
pub mod calldata_router;
pub mod chain_id_gate;
pub mod transfer_bounds;

use vstd::prelude::*;

verus! {

pub type Address = [u8; 20];

#[derive(Debug, Clone, Copy)]
pub enum TxKind {
    Legacy { gas_price: u128 },
    Eip1559 { max_priority: u128 },
}

#[derive(Debug, Clone, Copy, PartialEq, Eq, Structural)]
pub enum FeeTier {
    Low,
    Market,
    Aggressive,
    Insane,
}

/// Fee tier of the bid: at most 1 gwei, 30 gwei, 100 gwei, or above.
pub open spec fn tier_spec(tx: TxKind) -> FeeTier {
    let p = match tx {
        TxKind::Legacy { gas_price } => gas_price,
        TxKind::Eip1559 { max_priority } => max_priority,
    };
    if p <= 1_000_000_000 {
        FeeTier::Low
    } else if p <= 30_000_000_000 {
        FeeTier::Market
    } else if p <= 100_000_000_000 {
        FeeTier::Aggressive
    } else {
        FeeTier::Insane
    }
}

pub fn tier(tx: TxKind) -> (r: FeeTier)
    ensures
        r == tier_spec(tx),
{
    let priority = match tx {
        TxKind::Legacy { gas_price } => gas_price,
        TxKind::Eip1559 { max_priority } => max_priority,
    };
    if priority <= 1_000_000_000 {
        FeeTier::Low
    } else if priority <= 30_000_000_000 {
        FeeTier::Market
    } else if priority <= 100_000_000_000 {
        FeeTier::Aggressive
    } else {
        FeeTier::Insane
    }
}

#[derive(Debug, Clone, Copy, PartialEq, Eq, Structural)]
pub enum Risk {
    Pending,
    Probabilistic,
    Safe,
    Finalized,
}

/// Deep reorgs fall back to pending; otherwise confirmations decide.
pub open spec fn assess_spec(confirmations: u64, reorg_depth: u64) -> Risk {
    if reorg_depth > 10 || confirmations == 0 {
        Risk::Pending
    } else if confirmations <= 5 {
        Risk::Probabilistic
    } else if confirmations <= 31 {
        Risk::Safe
    } else {
        Risk::Finalized
    }
}

pub fn assess(confirmations: u64, reorg_depth: u64) -> (r: Risk)
    ensures
        r == assess_spec(confirmations, reorg_depth),
{
    if reorg_depth > 10 {
        return Risk::Pending;
    }
    if confirmations == 0 {
        Risk::Pending
    } else if confirmations <= 5 {
        Risk::Probabilistic
    } else if confirmations <= 31 {
        Risk::Safe
    } else {
        Risk::Finalized
    }
}

} // verus!
