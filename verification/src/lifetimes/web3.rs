//! Chain-side views: a transaction and an event log decoded without copying, block
//! simulation scratch in an arena, a pooled transaction promoted to shared ownership, an
//! ABI cache that starts borrowed and is replaced by owned text, and RPC payloads made
//! owned before they leave the frame.
use vstd::prelude::*;
use std::borrow::Cow;
use std::sync::Arc;
use bumpalo::Bump;
use crate::bytes::{be_value, read_be_u128, take20, take32};
use crate::lifetimes::strategies::{arc_bytes, arc_from_slice, new_bump};
use crate::lifetimes::hft::tick_arena::arena_str;

verus! {

pub type TxHash = [u8; 32];

pub type Address = [u8; 20];

/// A transaction read in place: the input points into the frame.
#[derive(Debug)]
pub struct TxView<'raw> {
    pub hash: TxHash,
    pub to: Option<Address>,
    pub value_wei: u128,
    pub input: &'raw [u8],
}

/// Decodes `[hash 32][to 20][value 16, big-endian][input ..]`; shorter frames are
/// refused.
pub fn decode_tx(raw: &[u8]) -> (r: Result<TxView<'_>, &'static str>)
    ensures
        raw@.len() < 68 ==> r == Err::<TxView, &'static str>("too short"),
        raw@.len() >= 68 ==> (r matches Ok(tx) && tx.hash@ == raw@.subrange(0, 32) && (tx.to matches Some(
            a,
        ) && a@ == raw@.subrange(32, 52)) && tx.value_wei == be_value(raw@.subrange(52, 68))
            && tx.input@ == raw@.subrange(68, raw@.len() as int)),
{
    if raw.len() < 32 + 20 + 16 {
        return Err("too short");
    }
    let hash = take32(raw, 0);
    let to = take20(raw, 32);
    let value_wei = read_be_u128(raw, 52);
    let input = vstd::slice::slice_subrange(raw, 68, raw.len());
    Ok(TxView { hash, to: Some(to), value_wei, input })
}

/// An event log read in place from receipt bytes.
#[derive(Debug)]
pub struct LogEntry<'rcpt> {
    pub address: Address,
    pub topic0: Option<&'rcpt [u8]>,
    pub data: &'rcpt [u8],
}

/// Decodes `[address 20][topic length 1][topic ..][data ..]`; a zero length means no
/// topic.
pub fn parse_log(raw: &[u8]) -> (r: Result<LogEntry<'_>, &'static str>)
    ensures
        raw@.len() < 21 ==> r == Err::<LogEntry, &'static str>("short"),
        raw@.len() >= 21 && raw@.len() < 21 + raw@[20] ==> r == Err::<LogEntry, &'static str>(
            "bad topic",
        ),
        raw@.len() >= 21 && raw@.len() >= 21 + raw@[20] ==> (r matches Ok(l) && l.address@
            == raw@.subrange(0, 20) && (raw@[20] == 0 ==> l.topic0 is None) && (raw@[20] > 0 ==> (
        l.topic0 matches Some(t) && t@ == raw@.subrange(21, 21 + raw@[20]))) && l.data@ == raw@.subrange(
            21 + raw@[20],
            raw@.len() as int,
        )),
{
    if raw.len() < 21 {
        return Err("short");
    }
    let address = take20(raw, 0);
    let t0_len = raw[20] as usize;
    if raw.len() < 21 + t0_len {
        return Err("bad topic");
    }
    let topic0 = if t0_len > 0 {
        Some(vstd::slice::slice_subrange(raw, 21, 21 + t0_len))
    } else {
        None
    };
    let data = vstd::slice::slice_subrange(raw, 21 + t0_len, raw.len());
    Ok(LogEntry { address, topic0, data })
}

/// One simulated step whose label lives in the simulation's arena.
pub struct SimStep<'arena> {
    pub label: &'arena str,
    pub gas_used: u64,
}

/// What outlives the simulation: the gas total and owned copies of the labels.
pub struct SimReport {
    pub total_gas: u64,
    pub step_labels: Vec<String>,
}

/// The gas of the first `n` steps.
pub open spec fn gas_total(steps: Seq<(&str, u64)>, n: nat) -> int
    decreases n,
{
    if n == 0 || n > steps.len() {
        0
    } else {
        gas_total(steps, (n - 1) as nat) + steps[n - 1].1
    }
}

/// Runs the steps with their labels in a scratch arena and keeps owned copies.
pub fn simulate_block(steps: &[(&str, u64)]) -> (r: SimReport)
    requires
        gas_total(steps@, steps@.len()) <= u64::MAX,
    ensures
        r.total_gas == gas_total(steps@, steps@.len()),
        r.step_labels@.map_values(|s: String| s@) == steps@.map_values(|st: (&str, u64)| st.0@),
{
    let bump = new_bump();
    let mut arena_steps: Vec<SimStep<'_>> = Vec::new();
    let mut total: u64 = 0;
    let mut i: usize = 0;
    while i < steps.len()
        invariant
            i <= steps@.len(),
            gas_total(steps@, steps@.len()) <= u64::MAX,
            total == gas_total(steps@, i as nat),
            arena_steps@.len() == i,
            forall|k: int| 0 <= k < i ==> #[trigger] arena_steps@[k].label@ == steps@[k].0@,
        decreases steps@.len() - i,
    {
        proof {
            lemma_gas_total_mono(steps@, (i + 1) as nat, steps@.len());
        }
        let (label, gas) = steps[i];
        let label_in_arena = arena_str(&bump, label);
        arena_steps.push(SimStep { label: label_in_arena, gas_used: gas });
        total = total + gas;
        i = i + 1;
    }
    let mut step_labels: Vec<String> = Vec::new();
    let mut j: usize = 0;
    while j < arena_steps.len()
        invariant
            j <= arena_steps@.len(),
            arena_steps@.len() == steps@.len(),
            forall|k: int| 0 <= k < arena_steps@.len() ==> #[trigger] arena_steps@[k].label@ == steps@[k].0@,
            step_labels@.map_values(|s: String| s@) == steps@.subrange(0, j as int).map_values(
                |st: (&str, u64)| st.0@,
            ),
        decreases arena_steps@.len() - j,
    {
        let ghost before = step_labels@.map_values(|s: String| s@);
        step_labels.push(arena_steps[j].label.to_owned());
        assert(step_labels@.map_values(|s: String| s@) =~= before.push(steps@[j as int].0@));
        assert(steps@.subrange(0, j + 1).map_values(|st: (&str, u64)| st.0@) =~= steps@.subrange(
            0,
            j as int,
        ).map_values(|st: (&str, u64)| st.0@).push(steps@[j as int].0@));
        j = j + 1;
    }
    assert(steps@.subrange(0, steps@.len() as int) =~= steps@);
    SimReport { total_gas: total, step_labels }
}

proof fn lemma_gas_total_mono(steps: Seq<(&str, u64)>, a: nat, b: nat)
    requires
        a <= b <= steps.len(),
    ensures
        gas_total(steps, a) <= gas_total(steps, b),
    decreases b - a,
{
    if a < b {
        lemma_gas_total_mono(steps, a, (b - 1) as nat);
    }
}

/// A pooled transaction: its raw bytes in shared ownership and its hash.
pub struct PooledTx {
    pub raw: Arc<[u8]>,
    pub hash: TxHash,
}

impl PooledTx {
    /// Copies the frame into shared ownership and keeps the view's hash.
    pub fn promote(view: TxView<'_>, raw: &[u8]) -> (r: Self)
        ensures
            arc_bytes(r.raw) == raw@,
            r.hash == view.hash,
    {
        PooledTx { raw: arc_from_slice(raw), hash: view.hash }
    }
}

/// An ABI document that starts as a borrowed static string and is replaced by owned text
/// on reload.
pub struct AbiCache {
    inner: Cow<'static, str>,
}

impl AbiCache {
    /// The current document.
    pub closed spec fn doc(&self) -> Cow<'static, str> {
        self.inner
    }

    pub fn from_static(json: &'static str) -> (r: Self)
        ensures
            r.doc() == Cow::<'static, str>::Borrowed(json),
    {
        AbiCache { inner: Cow::Borrowed(json) }
    }

    /// A copy of the current document: still borrowed when nothing was reloaded.
    pub fn get(&self) -> (r: Cow<'static, str>)
        ensures
            r@ == self.doc()@,
            (r is Borrowed) == (self.doc() is Borrowed),
    {
        match &self.inner {
            Cow::Borrowed(s) => Cow::Borrowed(*s),
            Cow::Owned(s) => Cow::Owned(s.clone()),
        }
    }

    /// Replaces the document with owned text.
    pub fn hot_reload(&mut self, new_json: String)
        ensures
            final(self).doc() is Owned,
            final(self).doc()@ == new_json@,
    {
        self.inner = Cow::Owned(new_json);
    }
}

/// An RPC payload in shared ownership, ready to leave the frame.
pub struct RpcJob {
    pub payload: Arc<[u8]>,
}

} // verus!
