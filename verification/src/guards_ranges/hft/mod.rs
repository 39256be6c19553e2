//! Trading guards: tick lattice validation, latency routing, notional tiers, session
//! windows, spread regimes, self-trade prevention and a kill switch.
pub mod latency_sla;
pub mod notional_tier;

use vstd::prelude::*;
use crate::arith::{tdiv, trem};

verus! {

pub type Px = i64;

pub type Qty = i64;

pub type TsNs = u64;

#[derive(Debug, Clone, Copy, PartialEq, Eq, Structural)]
pub enum Side {
    Bid,
    Ask,
}

#[derive(Debug, Clone, Copy, PartialEq, Eq, Structural)]
pub enum PxVerdict {
    Valid,
    OffTick,
    FatFinger,
    Zero,
}

/// Zero first, then outside `[ref/2, 2·ref]`, then off the tick grid around `ref_px`.
pub open spec fn validate_spec(px: Px, ref_px: Px, tick: Px) -> PxVerdict {
    if px == 0 {
        PxVerdict::Zero
    } else if px < tdiv(ref_px as int, 2) || px > ref_px * 2 {
        PxVerdict::FatFinger
    } else if trem(px - ref_px, tick as int) != 0 {
        PxVerdict::OffTick
    } else {
        PxVerdict::Valid
    }
}

pub fn validate(px: Px, ref_px: Px, tick: Px) -> (r: PxVerdict)
    requires
        i64::MIN <= ref_px * 2 <= i64::MAX,
        px != 0 && tdiv(ref_px as int, 2) <= px <= ref_px * 2 ==> {
            &&& tick != 0
            &&& i64::MIN <= px - ref_px <= i64::MAX
            &&& !(px - ref_px == i64::MIN && tick == -1)
        },
    ensures
        r == validate_spec(px, ref_px, tick),
{
    if px == 0 {
        PxVerdict::Zero
    } else if px < ref_px / 2 || px > ref_px * 2 {
        PxVerdict::FatFinger
    } else if (px - ref_px) % tick != 0 {
        PxVerdict::OffTick
    } else {
        PxVerdict::Valid
    }
}

#[derive(Debug, Clone, Copy, PartialEq, Eq, Structural)]
pub enum SessionAction {
    Trade,
    QueueGtc,
    Reject,
}

/// Holidays reject; continuous sessions 09:30–11:59 and 13:00–14:57 trade; lunch,
/// pre-open (08:00–08:29) and the closing auction (14:58–14:59) queue; the rest rejects.
pub open spec fn on_order_spec(hour: u8, minute: u8, is_holiday: bool) -> SessionAction {
    if is_holiday {
        SessionAction::Reject
    } else if (hour == 9 && 30 <= minute <= 59) || (10 <= hour <= 11) {
        SessionAction::Trade
    } else if hour == 13 || (hour == 14 && minute <= 57) {
        SessionAction::Trade
    } else if hour == 12 && minute <= 59 {
        SessionAction::QueueGtc
    } else if (hour == 8 && minute <= 29) || (hour == 14 && 58 <= minute <= 59) {
        SessionAction::QueueGtc
    } else {
        SessionAction::Reject
    }
}

pub fn on_order(hour: u8, minute: u8, is_holiday: bool) -> (r: SessionAction)
    ensures
        r == on_order_spec(hour, minute, is_holiday),
{
    if is_holiday {
        return SessionAction::Reject;
    }
    if (hour == 9 && minute >= 30 && minute <= 59) || (hour >= 10 && hour <= 11) {
        SessionAction::Trade
    } else if hour == 13 || (hour == 14 && minute <= 57) {
        SessionAction::Trade
    } else if hour == 12 && minute <= 59 {
        SessionAction::QueueGtc
    } else if (hour == 8 && minute <= 29) || (hour == 14 && minute >= 58 && minute <= 59) {
        SessionAction::QueueGtc
    } else {
        SessionAction::Reject
    }
}

#[derive(Debug, Clone, Copy, PartialEq, Eq, Structural)]
pub enum Regime {
    Tight,
    Normal,
    Wide,
    Halt,
}

/// Spread band in basis points, refined by the thinner side's depth.
pub open spec fn classify_spec(spread_bps: u32, bid_depth: Qty, ask_depth: Qty) -> Regime {
    let min_depth = if bid_depth <= ask_depth { bid_depth } else { ask_depth };
    if spread_bps <= 2 {
        if min_depth >= 100 { Regime::Tight } else { Regime::Normal }
    } else if spread_bps <= 20 {
        if min_depth >= 50 { Regime::Normal } else { Regime::Wide }
    } else if spread_bps <= 100 {
        Regime::Wide
    } else {
        Regime::Halt
    }
}

pub fn classify(spread_bps: u32, bid_depth: Qty, ask_depth: Qty) -> (r: Regime)
    ensures
        r == classify_spec(spread_bps, bid_depth, ask_depth),
{
    let min_depth = if bid_depth <= ask_depth { bid_depth } else { ask_depth };
    if spread_bps <= 2 {
        if min_depth >= 100 {
            Regime::Tight
        } else {
            Regime::Normal
        }
    } else if spread_bps <= 20 {
        if min_depth >= 50 {
            Regime::Normal
        } else {
            Regime::Wide
        }
    } else if spread_bps <= 100 {
        Regime::Wide
    } else {
        Regime::Halt
    }
}

#[derive(Debug, Clone, Copy, PartialEq, Eq, Structural)]
pub enum StpAction {
    Allow,
    CancelResting,
    CancelAggressive,
}

/// Opposite sides of the same nonzero parent cancel the aggressor; opposite sides of
/// parent 0 cancel the resting order; everything else trades.
pub open spec fn check_spec(agg_side: Side, agg_parent: u64, rest_side: Side, rest_parent: u64) -> StpAction {
    if agg_side != rest_side && agg_parent == rest_parent {
        if agg_parent != 0 { StpAction::CancelAggressive } else { StpAction::CancelResting }
    } else {
        StpAction::Allow
    }
}

pub fn check(agg_side: Side, agg_parent: u64, rest_side: Side, rest_parent: u64) -> (r: StpAction)
    ensures
        r == check_spec(agg_side, agg_parent, rest_side, rest_parent),
{
    let crossing = match (agg_side, rest_side) {
        (Side::Bid, Side::Ask) | (Side::Ask, Side::Bid) => true,
        _ => false,
    };
    if crossing && agg_parent == rest_parent && agg_parent != 0 {
        StpAction::CancelAggressive
    } else if crossing && agg_parent == rest_parent {
        StpAction::CancelResting
    } else {
        StpAction::Allow
    }
}

#[derive(Debug, Clone, Copy, PartialEq, Eq, Structural)]
pub enum Action {
    Normal,
    SoftStop,
    HardKill,
}

/// Hard limits first (loss, latency, reject rate), then the soft ones.
pub open spec fn evaluate_spec(pnl: i64, latency_us: u64, reject_rate_pct: u8) -> Action {
    if pnl <= -1_000_000 || latency_us > 500 || reject_rate_pct > 50 {
        Action::HardKill
    } else if pnl <= -100_000 || latency_us > 100 || (20 <= reject_rate_pct <= 50) {
        Action::SoftStop
    } else {
        Action::Normal
    }
}

pub fn evaluate(pnl: i64, latency_us: u64, reject_rate_pct: u8) -> (r: Action)
    ensures
        r == evaluate_spec(pnl, latency_us, reject_rate_pct),
{
    if pnl <= -1_000_000 {
        Action::HardKill
    } else if latency_us > 500 {
        Action::HardKill
    } else if reject_rate_pct > 50 {
        Action::HardKill
    } else if pnl <= -100_000 {
        Action::SoftStop
    } else if latency_us > 100 {
        Action::SoftStop
    } else if reject_rate_pct >= 20 && reject_rate_pct <= 50 {
        Action::SoftStop
    } else {
        Action::Normal
    }
}

} // verus!
