//! What the declarative macros of a trading and contract toolkit expand to: a latency
//! probe, a FIX message read field by field, price, quantity and notional newtypes, a
//! quote classifier, an ERC-20 transfer with `require`/`revert` exits, a selector
//! dispatch table and events rendered as JSON.
use vstd::prelude::*;
use std::collections::HashMap;
use std::time::Instant;
use crate::bytes::{find_sep, lemma_sep_at, pieces_from, sep_at};
use crate::decimal::{parse_u64, parse_u64_spec};
use crate::ffi::strategies::{elapsed_nanos, instant_now};
use crate::text::{decimal_chars, u64_to_decimal};

verus! {

broadcast use vstd::std_specs::hash::group_hash_axioms;

/// A latency probe started at construction.
pub struct LatGuard {
    label: &'static str,
    start: Instant,
}

impl LatGuard {
    pub closed spec fn label_spec(&self) -> &'static str {
        self.label
    }

    /// Starts the probe now.
    pub fn new(label: &'static str) -> (r: Self)
        ensures
            r.label_spec() == label,
    {
        LatGuard { label, start: instant_now() }
    }

    /// The probe's label.
    pub fn label(&self) -> (r: &'static str)
        ensures
            r == self.label_spec(),
    {
        self.label
    }

    /// The nanoseconds since the probe started, as the clock reports them.
    pub fn elapsed_ns(&self) -> u128 {
        elapsed_nanos(&self.start)
    }
}

/// A FIX new-order-single message; each field is present once a valid value was read.
#[derive(Debug, PartialEq, Eq, Structural)]
pub struct NewOrderSingle {
    pub msg_type: Option<u32>,
    pub cl_ord_id: Option<u64>,
    pub side: Option<u8>,
    pub order_qty: Option<u64>,
    pub price: Option<u64>,
    pub time_in_force: Option<u8>,
}

/// The message with no field read.
pub open spec fn empty_order() -> NewOrderSingle {
    NewOrderSingle {
        msg_type: None,
        cl_ord_id: None,
        side: None,
        order_qty: None,
        price: None,
        time_in_force: None,
    }
}

impl Default for NewOrderSingle {
    fn default() -> (r: Self)
        ensures
            r == empty_order(),
    {
        NewOrderSingle {
            msg_type: None,
            cl_ord_id: None,
            side: None,
            order_qty: None,
            price: None,
            time_in_force: None,
        }
    }
}

/// The number in the text if it parses and is at most `max`.
pub open spec fn parse_upto(v: Seq<u8>, max: int) -> Option<u64> {
    match parse_u64_spec(v) {
        Some(x) => if x <= max {
            Some(x)
        } else {
            None
        },
        None => None,
    }
}

/// One `tag=value` pair applied to the message: a known tag with a value of its type
/// sets the field; anything else leaves the message as it was.
pub open spec fn nos_step(acc: NewOrderSingle, kv: Seq<u8>) -> NewOrderSingle {
    let eq = sep_at(kv, 61, 0);
    if eq >= kv.len() {
        acc
    } else {
        let v = kv.subrange(eq as int + 1, kv.len() as int);
        match parse_upto(kv.subrange(0, eq as int), u32::MAX as int) {
            None => acc,
            Some(t) => if t == 35 {
                match parse_upto(v, u32::MAX as int) {
                    Some(x) => NewOrderSingle { msg_type: Some(x as u32), ..acc },
                    None => acc,
                }
            } else if t == 11 {
                match parse_upto(v, u64::MAX as int) {
                    Some(x) => NewOrderSingle { cl_ord_id: Some(x), ..acc },
                    None => acc,
                }
            } else if t == 54 {
                match parse_upto(v, u8::MAX as int) {
                    Some(x) => NewOrderSingle { side: Some(x as u8), ..acc },
                    None => acc,
                }
            } else if t == 38 {
                match parse_upto(v, u64::MAX as int) {
                    Some(x) => NewOrderSingle { order_qty: Some(x), ..acc },
                    None => acc,
                }
            } else if t == 44 {
                match parse_upto(v, u64::MAX as int) {
                    Some(x) => NewOrderSingle { price: Some(x), ..acc },
                    None => acc,
                }
            } else if t == 59 {
                match parse_upto(v, u8::MAX as int) {
                    Some(x) => NewOrderSingle { time_in_force: Some(x as u8), ..acc },
                    None => acc,
                }
            } else {
                acc
            },
        }
    }
}

/// The message after the first `n` pairs.
pub open spec fn nos_fold(kvs: Seq<Seq<u8>>, n: nat) -> NewOrderSingle
    decreases n,
{
    if n == 0 || n > kvs.len() {
        empty_order()
    } else {
        nos_step(nos_fold(kvs, (n - 1) as nat), kvs[n - 1])
    }
}

/// The message read from `|`-separated `tag=value` pairs.
pub open spec fn parse_fix_spec(input: Seq<u8>) -> NewOrderSingle {
    let kvs = pieces_from(input, 124, 0);
    nos_fold(kvs, kvs.len())
}

impl NewOrderSingle {
    /// Reads `tag=value|tag=value|...`; unknown tags and values that do not parse are
    /// skipped.
    pub fn parse_fix(input: &[u8]) -> (r: Self)
        ensures
            r == parse_fix_spec(input@),
    {
        let ghost kvs = pieces_from(input@, 124, 0);
        let mut out = NewOrderSingle::default();
        let mut start: usize = 0;
        let ghost mut n: nat = 0;
        loop
            invariant_except_break
                pieces_from(input@, 124, start as nat) == kvs.subrange(n as int, kvs.len() as int),
            invariant
                start <= input@.len(),
                n <= kvs.len(),
                kvs == pieces_from(input@, 124, 0),
                out == nos_fold(kvs, n),
            ensures
                n == kvs.len(),
                out == nos_fold(kvs, n),
            decreases input@.len() - start,
        {
            proof {
                lemma_sep_at(input@, 124, start as nat);
            }
            let e = find_sep(input, 124, start);
            let kv = vstd::slice::slice_subrange(input, start, e);
            let ghost rest = pieces_from(input@, 124, start as nat);
            assert(rest[0] == kv@);
            assert(rest.len() >= 1);
            assert(kvs.subrange(n as int, kvs.len() as int)[0] == kvs[n as int]);
            assert(kvs[n as int] == kv@);
            out = Self::apply(out, kv);
            proof {
                n = n + 1;
            }
            if e >= input.len() {
                assert(rest.len() == 1);
                break;
            }
            assert(rest.drop_first() == pieces_from(input@, 124, (e + 1) as nat));
            assert(kvs.subrange(n as int, kvs.len() as int) =~= rest.drop_first());
            start = e + 1;
        }
        out
    }

    /// One `tag=value` pair applied to the message.
    fn apply(acc: Self, kv: &[u8]) -> (r: Self)
        ensures
            r == nos_step(acc, kv@),
    {
        proof {
            lemma_sep_at(kv@, 61, 0);
        }
        let eq = find_sep(kv, 61, 0);
        if eq >= kv.len() {
            return acc;
        }
        let k = vstd::slice::slice_subrange(kv, 0, eq);
        let v = vstd::slice::slice_subrange(kv, eq + 1, kv.len());
        let tag = match parse_u64(k) {
            Some(t) => t,
            None => {
                return acc;
            },
        };
        if tag > u32::MAX as u64 {
            return acc;
        }
        let pv = parse_u64(v);
        let mut out = acc;
        match pv {
            None => {},
            Some(x) => {
                if tag == 35 {
                    if x <= u32::MAX as u64 {
                        out.msg_type = Some(x as u32);
                    }
                } else if tag == 11 {
                    out.cl_ord_id = Some(x);
                } else if tag == 54 {
                    if x <= u8::MAX as u64 {
                        out.side = Some(x as u8);
                    }
                } else if tag == 38 {
                    out.order_qty = Some(x);
                } else if tag == 44 {
                    out.price = Some(x);
                } else if tag == 59 {
                    if x <= u8::MAX as u64 {
                        out.time_in_force = Some(x as u8);
                    }
                }
            },
        }
        out
    }
}


/// A fixed-point price in units of 1e-4.
#[derive(Debug, Default, Clone, Copy, PartialEq, Eq, PartialOrd, Ord, Hash)]
pub struct Price(pub u64);

/// A whole number of contracts.
#[derive(Debug, Default, Clone, Copy, PartialEq, Eq, PartialOrd, Ord, Hash)]
pub struct Qty(pub u64);

/// Price times quantity, a type of its own.
#[derive(Debug, Default, Clone, Copy, PartialEq, Eq, PartialOrd, Ord, Hash)]
pub struct Notional(pub u64);

impl Price {
    /// The zero value.
    pub fn zero() -> (r: Self)
        ensures
            r.0 == 0,
    {
        Price(0)
    }

    pub fn new(v: u64) -> (r: Self)
        ensures
            r.0 == v,
    {
        Price(v)
    }

    pub fn raw(self) -> (r: u64)
        ensures
            r == self.0,
    {
        self.0
    }

    /// `Price(<value>)`.
    pub fn to_string(&self) -> (r: String)
        ensures
            r@ == "Price("@ + decimal_chars(self.0 as nat) + ")"@,
    {
        let mut s = String::from_str("Price(");
        let d = u64_to_decimal(self.0);
        s.append(d.as_str());
        s.append(")");
        s
    }
}

impl Qty {
    /// The zero value.
    pub fn zero() -> (r: Self)
        ensures
            r.0 == 0,
    {
        Qty(0)
    }

    pub fn new(v: u64) -> (r: Self)
        ensures
            r.0 == v,
    {
        Qty(v)
    }

    pub fn raw(self) -> (r: u64)
        ensures
            r == self.0,
    {
        self.0
    }

    /// `Qty(<value>)`.
    pub fn to_string(&self) -> (r: String)
        ensures
            r@ == "Qty("@ + decimal_chars(self.0 as nat) + ")"@,
    {
        let mut s = String::from_str("Qty(");
        let d = u64_to_decimal(self.0);
        s.append(d.as_str());
        s.append(")");
        s
    }
}

impl Notional {
    /// The zero value.
    pub fn zero() -> (r: Self)
        ensures
            r.0 == 0,
    {
        Notional(0)
    }

    pub fn new(v: u64) -> (r: Self)
        ensures
            r.0 == v,
    {
        Notional(v)
    }

    pub fn raw(self) -> (r: u64)
        ensures
            r == self.0,
    {
        self.0
    }

    /// `Notional(<value>)`.
    pub fn to_string(&self) -> (r: String)
        ensures
            r@ == "Notional("@ + decimal_chars(self.0 as nat) + ")"@,
    {
        let mut s = String::from_str("Notional(");
        let d = u64_to_decimal(self.0);
        s.append(d.as_str());
        s.append(")");
        s
    }
}

impl std::ops::Add for Price {
    type Output = Self;

    fn add(self, rhs: Self) -> (r: Self) {
        Price(self.0 + rhs.0)
    }
}

impl vstd::std_specs::ops::AddSpecImpl for Price {
    open spec fn obeys_add_spec() -> bool {
        true
    }

    open spec fn add_req(self, rhs: Self) -> bool {
        self.0 + rhs.0 <= u64::MAX
    }

    open spec fn add_spec(self, rhs: Self) -> Self {
        Price((self.0 + rhs.0) as u64)
    }
}

impl std::ops::Sub for Price {
    type Output = Self;

    fn sub(self, rhs: Self) -> (r: Self) {
        Price(self.0 - rhs.0)
    }
}

impl vstd::std_specs::ops::SubSpecImpl for Price {
    open spec fn obeys_sub_spec() -> bool {
        true
    }

    open spec fn sub_req(self, rhs: Self) -> bool {
        self.0 >= rhs.0
    }

    open spec fn sub_spec(self, rhs: Self) -> Self {
        Price((self.0 - rhs.0) as u64)
    }
}

impl std::ops::Add for Qty {
    type Output = Self;

    fn add(self, rhs: Self) -> (r: Self) {
        Qty(self.0 + rhs.0)
    }
}

impl vstd::std_specs::ops::AddSpecImpl for Qty {
    open spec fn obeys_add_spec() -> bool {
        true
    }

    open spec fn add_req(self, rhs: Self) -> bool {
        self.0 + rhs.0 <= u64::MAX
    }

    open spec fn add_spec(self, rhs: Self) -> Self {
        Qty((self.0 + rhs.0) as u64)
    }
}

impl std::ops::Sub for Qty {
    type Output = Self;

    fn sub(self, rhs: Self) -> (r: Self) {
        Qty(self.0 - rhs.0)
    }
}

impl vstd::std_specs::ops::SubSpecImpl for Qty {
    open spec fn obeys_sub_spec() -> bool {
        true
    }

    open spec fn sub_req(self, rhs: Self) -> bool {
        self.0 >= rhs.0
    }

    open spec fn sub_spec(self, rhs: Self) -> Self {
        Qty((self.0 - rhs.0) as u64)
    }
}

impl std::ops::Add for Notional {
    type Output = Self;

    fn add(self, rhs: Self) -> (r: Self) {
        Notional(self.0 + rhs.0)
    }
}

impl vstd::std_specs::ops::AddSpecImpl for Notional {
    open spec fn obeys_add_spec() -> bool {
        true
    }

    open spec fn add_req(self, rhs: Self) -> bool {
        self.0 + rhs.0 <= u64::MAX
    }

    open spec fn add_spec(self, rhs: Self) -> Self {
        Notional((self.0 + rhs.0) as u64)
    }
}

impl std::ops::Sub for Notional {
    type Output = Self;

    fn sub(self, rhs: Self) -> (r: Self) {
        Notional(self.0 - rhs.0)
    }
}

impl vstd::std_specs::ops::SubSpecImpl for Notional {
    open spec fn obeys_sub_spec() -> bool {
        true
    }

    open spec fn sub_req(self, rhs: Self) -> bool {
        self.0 >= rhs.0
    }

    open spec fn sub_spec(self, rhs: Self) -> Self {
        Notional((self.0 - rhs.0) as u64)
    }
}

/// Price times quantity; the product must fit a `u64`.
pub fn notional(p: Price, q: Qty) -> (r: Notional)
    requires
        p.0 * q.0 <= u64::MAX,
    ensures
        r.0 == p.0 * q.0,
{
    Notional(p.0 * q.0)
}

/// Where an incoming price lands against the book: through the ask, through the bid, or
/// inside the spread.
pub fn match_quote(best_bid: Price, best_ask: Price, incoming: Price) -> (r: &'static str)
    ensures
        incoming.0 >= best_ask.0 ==> r@ == "CROSS_ASK"@,
        incoming.0 < best_ask.0 && incoming.0 <= best_bid.0 ==> r@ == "CROSS_BID"@,
        incoming.0 < best_ask.0 && incoming.0 > best_bid.0 ==> r@ == "QUOTE"@,
{
    if incoming.0 >= best_ask.0 {
        "CROSS_ASK"
    } else if incoming.0 <= best_bid.0 {
        "CROSS_BID"
    } else {
        "QUOTE"
    }
}

/// Why a contract call reverted.
#[derive(Debug, PartialEq, Eq, Structural)]
pub enum VmError {
    InsufficientBalance,
    Slippage,
    Reentrancy,
    Unauthorized,
}

/// A balance as the ledger reads it: absent accounts hold zero.
pub open spec fn bal(m: Map<u64, u64>, a: u64) -> u64 {
    if m.contains_key(a) {
        m[a]
    } else {
        0
    }
}

/// The ledger after a transfer that passed its checks: the sender is debited first, then
/// the receiver credited.
pub open spec fn transfer_ledger(m: Map<u64, u64>, from: u64, to: u64, amount: u64) -> Map<u64, u64> {
    let m1 = m.insert(from, (bal(m, from) - amount) as u64);
    m1.insert(to, (bal(m1, to) + amount) as u64)
}

/// An ERC-20 transfer: the zero address reverts as unauthorized, a short balance as
/// insufficient; otherwise `amount` moves from `from` to `to`.
pub fn erc20_transfer(balance_of: &mut HashMap<u64, u64>, from: u64, to: u64, amount: u64) -> (r: Result<(), VmError>)
    requires
        from != 0 && bal(old(balance_of)@, from) >= amount ==> bal(
            old(balance_of)@.insert(from, (bal(old(balance_of)@, from) - amount) as u64),
            to,
        ) + amount <= u64::MAX,
    ensures
        from == 0 ==> r == Err::<(), VmError>(VmError::Unauthorized),
        from == 0 ==> final(balance_of)@ == old(balance_of)@,
        from != 0 && bal(old(balance_of)@, from) < amount ==> r == Err::<(), VmError>(VmError::InsufficientBalance),
        from != 0 && bal(old(balance_of)@, from) < amount ==> final(balance_of)@ == old(balance_of)@,
        from != 0 && bal(old(balance_of)@, from) >= amount ==> r == Ok::<(), VmError>(()),
        from != 0 && bal(old(balance_of)@, from) >= amount ==> final(balance_of)@ == transfer_ledger(old(balance_of)@, from, to, amount),
{
    if from == 0 {
        return Err(VmError::Unauthorized);
    }
    let b = match balance_of.get(&from) {
        Some(v) => *v,
        None => 0,
    };
    if !(b >= amount) {
        return Err(VmError::InsufficientBalance);
    }
    balance_of.insert(from, b - amount);
    let t = match balance_of.get(&to) {
        Some(v) => *v,
        None => 0,
    };
    balance_of.insert(to, t + amount);
    Ok(())
}

/// Between two different accounts a transfer keeps their sum and touches no one else.
pub proof fn lemma_transfer_conserves(m: Map<u64, u64>, from: u64, to: u64, amount: u64, other: u64)
    requires
        from != to,
        bal(m, from) >= amount,
        bal(m, to) + amount <= u64::MAX,
    ensures
        bal(transfer_ledger(m, from, to, amount), from) + bal(transfer_ledger(m, from, to, amount), to)
            == bal(m, from) + bal(m, to),
        other != from && other != to ==> bal(transfer_ledger(m, from, to, amount), other) == bal(
            m,
            other,
        ),
{
}

/// The `transfer(address,uint256)` handler.
pub fn transfer(_cd: &[u8]) -> (r: Result<Vec<u8>, VmError>)
    ensures
        r matches Ok(v) && v@ == seq![1u8],
{
    Ok(vec![1])
}

/// The `approve(address,uint256)` handler.
pub fn approve(_cd: &[u8]) -> (r: Result<Vec<u8>, VmError>)
    ensures
        r matches Ok(v) && v@ == seq![2u8],
{
    Ok(vec![2])
}

/// The `transferFrom(address,address,uint256)` handler.
pub fn transfer_from(_cd: &[u8]) -> (r: Result<Vec<u8>, VmError>)
    ensures
        r matches Ok(v) && v@ == seq![3u8],
{
    Ok(vec![3])
}

/// The selectors the dispatcher knows, with their handler names.
pub const SELECTORS: [(u32, &'static str); 3] = [
    (0xa9059cbb, "transfer"),
    (0x095ea7b3, "approve"),
    (0x23b872dd, "transfer_from"),
];

/// Routes a call by its selector; an unknown selector is unauthorized.
pub fn dispatch(selector: u32, calldata: &[u8]) -> (r: Result<Vec<u8>, VmError>)
    ensures
        selector == 0xa9059cbb ==> (r matches Ok(v) && v@ == seq![1u8]),
        selector == 0x095ea7b3 ==> (r matches Ok(v) && v@ == seq![2u8]),
        selector == 0x23b872dd ==> (r matches Ok(v) && v@ == seq![3u8]),
        selector != 0xa9059cbb && selector != 0x095ea7b3 && selector != 0x23b872dd ==> (r matches Err(
            e,
        ) && e == VmError::Unauthorized),
{
    if selector == 0xa9059cbb {
        transfer(calldata)
    } else if selector == 0x095ea7b3 {
        approve(calldata)
    } else if selector == 0x23b872dd {
        transfer_from(calldata)
    } else {
        Err(VmError::Unauthorized)
    }
}

/// An ERC-20 `Transfer` event.
#[derive(Debug)]
pub struct Transfer {
    pub from: u64,
    pub to: u64,
    pub value: u64,
}

/// An ERC-20 `Approval` event.
#[derive(Debug)]
pub struct Approval {
    pub owner: u64,
    pub spender: u64,
    pub value: u64,
}

/// A JSON member `"name":"<decimal>"`.
pub open spec fn json_field(name: Seq<char>, v: u64) -> Seq<char> {
    "\""@ + name + "\":\""@ + decimal_chars(v as nat) + "\""@
}

/// Appends `"name":"<decimal>"`.
fn push_field(s: &mut String, name: &str, v: u64)
    ensures
        final(s)@ == old(s)@ + json_field(name@, v),
{
    s.append("\"");
    s.append(name);
    s.append("\":\"");
    let d = u64_to_decimal(v);
    s.append(d.as_str());
    s.append("\"");
}

impl Transfer {
    /// The event as a JSON object, fields in declaration order, values quoted.
    pub fn to_json(&self) -> (r: String)
        ensures
            r@ == "{"@ + json_field("from"@, self.from) + ","@ + json_field("to"@, self.to) + ","@
                + json_field("value"@, self.value) + "}"@,
    {
        let mut s = String::from_str("{");
        push_field(&mut s, "from", self.from);
        s.append(",");
        push_field(&mut s, "to", self.to);
        s.append(",");
        push_field(&mut s, "value", self.value);
        s.append("}");
        s
    }
}

impl Approval {
    /// The event as a JSON object, fields in declaration order, values quoted.
    pub fn to_json(&self) -> (r: String)
        ensures
            r@ == "{"@ + json_field("owner"@, self.owner) + ","@ + json_field("spender"@, self.spender)
                + ","@ + json_field("value"@, self.value) + "}"@,
    {
        let mut s = String::from_str("{");
        push_field(&mut s, "owner", self.owner);
        s.append(",");
        push_field(&mut s, "spender", self.spender);
        s.append(",");
        push_field(&mut s, "value", self.value);
        s.append("}");
        s
    }
}

} // verus!
