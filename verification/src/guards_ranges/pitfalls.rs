//! Range and guard mistakes next to their fixes: an open upper bound, a guard order that
//! hides the strict case, a guard evaluated twice, a gap between ranges, a signed range
//! without its negatives, an exhaustive match, and a pattern that keeps the whole value.
use vstd::prelude::*;

verus! {

/// Buckets with a half-open middle range: 199 falls through to the last bucket.
pub fn bucket_bad(px: i64) -> (r: &'static str)
    ensures
        0 <= px <= 99 ==> r@ == "a"@,
        100 <= px < 199 ==> r@ == "b"@,
        (px < 0 || px >= 199) ==> r@ == "c"@,
{
    if 0 <= px && px <= 99 {
        "a"
    } else if 100 <= px && px < 199 {
        "b"
    } else {
        "c"
    }
}

/// Buckets with closed ranges and negatives refused.
pub fn bucket_good(px: i64) -> (r: &'static str)
    ensures
        px <= -1 ==> r@ == "invalid"@,
        0 <= px <= 99 ==> r@ == "a"@,
        100 <= px <= 199 ==> r@ == "b"@,
        px >= 200 ==> r@ == "c"@,
{
    if px <= -1 {
        "invalid"
    } else if px <= 99 {
        "a"
    } else if px <= 199 {
        "b"
    } else {
        "c"
    }
}

#[derive(Debug, Clone, Copy, PartialEq, Eq, Structural)]
pub enum Level {
    Clear,
    Warn,
    Kill,
}

/// The loose guard first: every loss warns and nothing is ever killed.
pub fn classify_bad(pnl: i64) -> (r: Level)
    ensures
        r == (if pnl < 0 { Level::Warn } else { Level::Clear }),
{
    if pnl < 0 {
        Level::Warn
    } else if pnl < -100_000 {
        Level::Kill
    } else {
        Level::Clear
    }
}

/// The strict guard first: a loss beyond 100 000 kills, a smaller loss warns.
pub fn classify_good(pnl: i64) -> (r: Level)
    ensures
        r == (if pnl < -100_000 { Level::Kill } else if pnl < 0 { Level::Warn } else { Level::Clear }),
{
    if pnl < -100_000 {
        Level::Kill
    } else if pnl < 0 {
        Level::Warn
    } else {
        Level::Clear
    }
}

/// The check the router wants to run once: even ids take the fast path.
pub fn expensive(id: u64) -> (r: bool)
    ensures
        r == (id % 2 == 0),
{
    id % 2 == 0
}

/// Runs the check twice inside the guard.
pub fn route_bad(id: u64) -> (r: &'static str)
    ensures
        id % 2 == 0 ==> r@ == "fast"@,
        id % 2 != 0 ==> r@ == "slow"@,
{
    if expensive(id) && expensive(id) {
        "fast"
    } else {
        "slow"
    }
}

/// Runs the check once, before the match.
pub fn route_good(id: u64) -> (r: &'static str)
    ensures
        id % 2 == 0 ==> r@ == "fast"@,
        id % 2 != 0 ==> r@ == "slow"@,
{
    let ok = expensive(id);
    if ok {
        "fast"
    } else {
        "slow"
    }
}

/// Fee tiers with a gap: 11..=19 gwei falls into the high tier.
pub fn fee_tier_bad(gwei: u64) -> (r: &'static str)
    ensures
        gwei <= 10 ==> r@ == "low"@,
        20 <= gwei <= 50 ==> r@ == "mid"@,
        (10 < gwei < 20 || gwei > 50) ==> r@ == "high"@,
{
    if gwei <= 10 {
        "low"
    } else if 20 <= gwei && gwei <= 50 {
        "mid"
    } else {
        "high"
    }
}

/// Fee tiers without a gap.
pub fn fee_tier_good(gwei: u64) -> (r: &'static str)
    ensures
        gwei <= 10 ==> r@ == "low"@,
        10 < gwei <= 50 ==> r@ == "mid"@,
        gwei > 50 ==> r@ == "high"@,
{
    if gwei <= 10 {
        "low"
    } else if gwei <= 50 {
        "mid"
    } else {
        "high"
    }
}

/// A signed band that forgets the losses.
pub fn pnl_band_bad(pnl: i64) -> (r: &'static str)
    ensures
        0 <= pnl <= 100 ==> r@ == "profit"@,
        (pnl < 0 || pnl > 100) ==> r@ == "other"@,
{
    if 0 <= pnl && pnl <= 100 {
        "profit"
    } else {
        "other"
    }
}

/// A signed band that handles the losses first.
pub fn pnl_band_good(pnl: i64) -> (r: &'static str)
    ensures
        pnl <= -1 ==> r@ == "loss"@,
        0 <= pnl <= 100 ==> r@ == "profit"@,
        pnl > 100 ==> r@ == "big_profit"@,
{
    if pnl <= -1 {
        "loss"
    } else if pnl <= 100 {
        "profit"
    } else {
        "big_profit"
    }
}

#[derive(Debug, Clone, Copy, PartialEq, Eq, Structural)]
pub enum Status {
    Open,
    Filled,
}

/// Every status has its own arm, with no catch-all.
pub fn label_with_guard(s: Status) -> (r: &'static str)
    ensures
        s == Status::Open ==> r@ == "open"@,
        s == Status::Filled ==> r@ == "filled"@,
{
    match s {
        Status::Open => "open",
        Status::Filled => "filled",
    }
}

#[derive(Debug)]
pub struct Fill {
    pub id: u64,
    pub qty: i64,
}

/// Takes the fill by value and keeps only its quantity.
pub fn log_bad(f: Fill) -> (r: i64)
    ensures
        r == f.qty,
{
    let Fill { qty, .. } = f;
    qty
}

/// Borrows the fill: a positive quantity, else zero; the fill stays whole.
pub fn log_good(f: &Fill) -> (r: i64)
    ensures
        r == (if f.qty > 0 { f.qty } else { 0 }),
{
    match f {
        Fill { qty, .. } if *qty > 0 => *qty,
        _ => 0,
    }
}

} // verus!
