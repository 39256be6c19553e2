//! Guard strategies: inclusive buckets, tiered guards, destructuring before guarding,
//! sentinels first, audited bindings, precomputed guard inputs and `matches!` predicates.
use vstd::prelude::*;
use crate::arith::trem;
use crate::text::{decimal_chars, tagged_u64};

verus! {

pub open spec fn bucket_spec(score: u32) -> &'static str {
    if score <= 33 {
        "low"
    } else if score <= 66 {
        "mid"
    } else if score <= 100 {
        "high"
    } else {
        "out_of_range"
    }
}

pub fn bucket(score: u32) -> (r: &'static str)
    ensures
        r == bucket_spec(score),
{
    if score <= 33 {
        "low"
    } else if score <= 66 {
        "mid"
    } else if score <= 100 {
        "high"
    } else {
        "out_of_range"
    }
}

#[derive(Debug, Clone, Copy, PartialEq, Eq, Structural)]
pub enum Severity {
    Clear,
    Warn,
    Critical,
}

pub open spec fn assess_spec(value: i32, retries: u8) -> Severity {
    if value < -1000 || retries > 10 {
        Severity::Critical
    } else if value < 0 {
        Severity::Warn
    } else {
        Severity::Clear
    }
}

pub fn assess(value: i32, retries: u8) -> (r: Severity)
    ensures
        r == assess_spec(value, retries),
{
    if value < -1000 {
        Severity::Critical
    } else if retries > 10 {
        Severity::Critical
    } else if value < 0 {
        Severity::Warn
    } else {
        Severity::Clear
    }
}

#[derive(Debug, Clone, Copy)]
pub struct Request {
    pub id: u64,
    pub payload_len: usize,
    pub priority: u8,
}

pub open spec fn route_spec(req: Request) -> &'static str {
    if req.payload_len == 0 {
        "reject_empty"
    } else if req.priority > 9 {
        "express"
    } else if req.payload_len > 1024 {
        "batch"
    } else {
        "normal"
    }
}

pub fn route(req: Request) -> (r: &'static str)
    ensures
        r == route_spec(req),
{
    if req.payload_len == 0 {
        "reject_empty"
    } else if req.priority > 9 {
        "express"
    } else if req.payload_len > 1024 {
        "batch"
    } else {
        "normal"
    }
}

/// Zero passes as is; otherwise the value must lie on the `scale` grid and be non-negative.
pub open spec fn normalize_spec(value: i64, scale: i64) -> Result<i64, &'static str> {
    if value == 0 {
        Ok(0)
    } else if trem(value as int, scale as int) != 0 {
        Err("not_on_grid")
    } else if value < 0 {
        Err("negative")
    } else {
        Ok(value)
    }
}

pub fn normalize(value: i64, scale: i64) -> (r: Result<i64, &'static str>)
    requires
        value != 0 ==> scale != 0 && !(value == i64::MIN && scale == -1),
    ensures
        r == normalize_spec(value, scale),
{
    if value == 0 {
        Ok(0)
    } else if value % scale != 0 {
        Err("not_on_grid")
    } else if value < 0 {
        Err("negative")
    } else {
        Ok(value)
    }
}

#[derive(Debug, Clone, Copy)]
pub struct Event {
    pub seq: u64,
    pub code: u16,
}

pub open spec fn handle_action(code: u16) -> &'static str {
    if code <= 99 {
        "ignore"
    } else if code <= 199 && code == 150 {
        "alert"
    } else if code <= 199 {
        "log"
    } else {
        "escalate"
    }
}

/// `seq=<seq> code=<code> → <action>`.
pub fn handle(ev: Event) -> (s: String)
    ensures
        s@ == "seq="@ + decimal_chars(ev.seq as nat) + " code="@ + decimal_chars(ev.code as nat) + " → "@
            + handle_action(ev.code)@,
{
    let code = ev.code;
    let action = if code <= 99 {
        "ignore"
    } else if code <= 199 && code == 150 {
        "alert"
    } else if code <= 199 {
        "log"
    } else {
        "escalate"
    };
    let mut s = tagged_u64("seq=", ev.seq);
    let c = tagged_u64(" code=", code as u64);
    s.append(c.as_str());
    s.append(" → ");
    s.append(action);
    s
}

fn costly_check(n: i64) -> (r: bool)
    ensures
        r == (trem(n as int, 7) == 0),
{
    n % 7 == 0
}

/// Class of the sum: negative, a multiple of 7, small (`0..=100`) or large.
pub open spec fn classify_spec(values: Seq<i64>) -> &'static str {
    let sum = values[0] + values[1] + values[2];
    if sum < 0 {
        "negative"
    } else if trem(sum, 7) == 0 {
        "lucky"
    } else if sum <= 100 {
        "small"
    } else {
        "large"
    }
}

pub fn classify(values: [i64; 3]) -> (r: &'static str)
    requires
        i64::MIN <= values@[0] + values@[1] <= i64::MAX,
        i64::MIN <= values@[0] + values@[1] + values@[2] <= i64::MAX,
    ensures
        r == classify_spec(values@),
{
    let sum: i64 = values[0] + values[1] + values[2];
    let ok = costly_check(sum);
    if sum < 0 {
        "negative"
    } else if ok {
        "lucky"
    } else if sum <= 100 {
        "small"
    } else {
        "large"
    }
}

pub open spec fn opcode_class_spec(byte: u8) -> &'static str {
    if byte == 0 {
        "stop"
    } else if 1 <= byte <= 4 {
        "arithmetic"
    } else if 0x60 <= byte <= 0x7f {
        "push"
    } else {
        "other"
    }
}

pub fn opcode_class(byte: u8) -> (r: &'static str)
    ensures
        r == opcode_class_spec(byte),
{
    if byte == 0 {
        "stop"
    } else if byte >= 1 && byte <= 4 {
        "arithmetic"
    } else if byte >= 0x60 && byte <= 0x7f {
        "push"
    } else {
        "other"
    }
}

#[derive(Debug, Clone, Copy, PartialEq, Eq, Structural)]
pub enum State {
    Active,
    Draining,
    Down,
}

/// Active or draining endpoints take traffic while below 90% load.
pub fn accepts_traffic(s: State, load_pct: u8) -> (r: bool)
    ensures
        r == ((s == State::Active || s == State::Draining) && load_pct < 90),
{
    match s {
        State::Active | State::Draining => load_pct < 90,
        State::Down => false,
    }
}

} // verus!
