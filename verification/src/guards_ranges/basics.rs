//! Range patterns, match guards, `@` bindings and tuple guards.
use vstd::prelude::*;
use crate::arith::tdiv;
use crate::text::{decimal_chars, signed_decimal_chars, tagged_i64, tagged_u64};

verus! {

/// Latency class of a round trip in microseconds.
pub open spec fn latency_bucket_spec(us: u64) -> &'static str {
    if us <= 50 {
        "ultra"
    } else if us <= 200 {
        "fast"
    } else if us <= 1000 {
        "slow"
    } else {
        "timeout"
    }
}

pub fn latency_bucket(us: u64) -> (r: &'static str)
    ensures
        r == latency_bucket_spec(us),
{
    if us <= 50 {
        "ultra"
    } else if us <= 200 {
        "fast"
    } else if us <= 1000 {
        "slow"
    } else {
        "timeout"
    }
}

#[derive(Debug, Clone, Copy)]
pub struct Quote {
    pub px: i64,
    pub qty: i64,
}

/// Quote classification against a reference price with a ±5% band (`ref_px / 20`,
/// rounded toward zero).
pub open spec fn classify_spec(q: Quote, ref_px: i64) -> &'static str {
    let band = tdiv(ref_px as int, 20);
    if q.px == 0 {
        "invalid_px"
    } else if q.qty <= 0 {
        "invalid_qty"
    } else if q.px < ref_px - band || q.px > ref_px + band {
        "out_of_band"
    } else {
        "ok"
    }
}

pub fn classify(q: Quote, ref_px: i64) -> (r: &'static str)
    ensures
        r == classify_spec(q, ref_px),
{
    let band = ref_px / 20;
    if q.px == 0 {
        "invalid_px"
    } else if q.qty <= 0 {
        "invalid_qty"
    } else if (q.px as i128) < ref_px as i128 - band as i128 || q.px as i128 > ref_px as i128 + band as i128 {
        "out_of_band"
    } else {
        "ok"
    }
}

#[derive(Debug, Clone, Copy)]
pub struct Order {
    pub id: u64,
    pub px: i64,
    pub qty: i64,
}

/// Audit tag: price above the limit first, then a large quantity.
pub open spec fn audit_tag(o: Order, limit: i64) -> &'static str {
    if o.px > limit {
        "fat_finger"
    } else if o.qty > 1000 {
        "large"
    } else {
        "normal"
    }
}

/// `order#<id> px=<px> qty=<qty> → <tag>`.
pub fn audit(o: Order, limit: i64) -> (s: String)
    ensures
        s@ == "order#"@ + decimal_chars(o.id as nat) + " px="@ + signed_decimal_chars(o.px as int) + " qty="@
            + signed_decimal_chars(o.qty as int) + " → "@ + audit_tag(o, limit)@,
{
    let tag = if o.px > limit {
        "fat_finger"
    } else if o.qty > 1_000 {
        "large"
    } else {
        "normal"
    };
    let mut s = tagged_u64("order#", o.id);
    let p = tagged_i64(" px=", o.px);
    s.append(p.as_str());
    let q = tagged_i64(" qty=", o.qty);
    s.append(q.as_str());
    s.append(" → ");
    s.append(tag);
    s
}

#[derive(Debug, Clone, Copy, PartialEq, Eq, Structural)]
pub enum Action {
    Clear,
    Warn,
    Block,
}

pub open spec fn check_spec(score: i32, retries: u8) -> Action {
    if score < -100 {
        Action::Block
    } else if retries > 5 {
        Action::Block
    } else if score < 0 {
        Action::Warn
    } else {
        Action::Clear
    }
}

pub fn check(score: i32, retries: u8) -> (r: Action)
    ensures
        r == check_spec(score, retries),
{
    if score < -100 {
        Action::Block
    } else if retries > 5 {
        Action::Block
    } else if score < 0 {
        Action::Warn
    } else {
        Action::Clear
    }
}

} // verus!
