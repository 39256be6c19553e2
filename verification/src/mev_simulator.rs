//! A bundle simulator in the style of MEV searching: transactions run against a copy of
//! the world state, bundles are simulated side by side, and the most profitable one is
//! picked.
//!
//! Accounts are kept in a list in the order they were created, so that the totals that
//! a simulation reports are sums in one fixed order.
use vstd::prelude::*;
use rayon::iter::{IndexedParallelIterator, IntoParallelRefIterator, ParallelIterator};
use crate::assoc::{lookup_spec, upsert_spec, lemma_first_key_index_spec, lemma_upsert_lookup};
use crate::inline_caching::strategies::{first_key_index, lemma_first_key_index};

verus! {

broadcast use vstd::string::to_string_from_display_ensures_for_str;

/// An account's holdings.
#[derive(Clone, Copy, Debug)]
pub struct Balance {
    pub eth: u64,
    pub token: u64,
}

/// A transaction of a bundle.
pub enum Transaction {
    Transfer { from: u64, to: u64, amount: u64 },
    Swap { token_in: u64, token_out: u64, amount_in: u64 },
    Arbitrage { path: Vec<u64>, min_profit: u64 },
}

/// Accounts in creation order, each id at most once.
pub open spec fn ids_unique(e: Seq<(u64, Balance)>) -> bool {
    forall|i: int, j: int| 0 <= i < j < e.len() ==> (#[trigger] e[i]).0 != (#[trigger] e[j]).0
}

/// The sum of the first `k` eth balances, each read as an `i64`.
pub open spec fn eth_prefix(e: Seq<(u64, Balance)>, k: nat) -> int
    decreases k,
{
    if k == 0 || k > e.len() {
        0
    } else {
        eth_prefix(e, (k - 1) as nat) + (e[k - 1].1.eth as i64) as int
    }
}

/// The sum of all eth balances, each read as an `i64`.
pub open spec fn eth_total(e: Seq<(u64, Balance)>) -> int {
    eth_prefix(e, e.len())
}

/// Scanning an arbitrage path: the sum of the eth of its first `k` accounts, or `None`
/// once one of them does not exist.
pub open spec fn arb_scan(e: Seq<(u64, Balance)>, path: Seq<u64>, k: nat) -> Option<int>
    decreases k,
{
    if k == 0 {
        Some(0)
    } else {
        match arb_scan(e, path, (k - 1) as nat) {
            None => None,
            Some(s) => match lookup_spec(e, path[k - 1]) {
                None => None,
                Some(b) => Some(s + (b.eth as i64) as int),
            },
        }
    }
}

/// The accounts after a transfer that the sender can cover: the sender pays, and the
/// receiver, created empty if new, is paid.
pub open spec fn transfer_accounts(e: Seq<(u64, Balance)>, from: u64, to: u64, amount: u64) -> Seq<(u64, Balance)> {
    let b = lookup_spec(e, from)->0;
    let e1 = upsert_spec(e, from, Balance { eth: (b.eth - amount) as u64, token: b.token });
    let t = match lookup_spec(e1, to) {
        Some(t) => t,
        None => Balance { eth: 0, token: 0 },
    };
    upsert_spec(e1, to, Balance { eth: (t.eth + amount) as u64, token: t.token })
}

/// What one transaction does to the accounts: the new accounts and the gas it reports,
/// or the message it fails with, leaving the accounts unchanged.
pub open spec fn tx_step(e: Seq<(u64, Balance)>, gas: u64, tx: Transaction) -> Result<(Seq<(u64, Balance)>, int), Seq<char>> {
    match tx {
        Transaction::Transfer { from, to, amount } => match lookup_spec(e, from) {
            None => Err("Sender not found"@),
            Some(b) => if b.eth < amount {
                Err("Insufficient balance"@)
            } else {
                Ok((transfer_accounts(e, from, to, amount), amount * gas / 100))
            },
        },
        Transaction::Swap { token_in, amount_in, .. } => match lookup_spec(e, token_in) {
            None => Err("Account not found"@),
            Some(b) => if b.token < amount_in {
                Err("Insufficient token balance"@)
            } else {
                Ok((
                    upsert_spec(e, token_in, Balance {
                        eth: (b.eth + amount_in * 99 / 100) as u64,
                        token: (b.token - amount_in) as u64,
                    }),
                    amount_in * gas / 50,
                ))
            },
        },
        Transaction::Arbitrage { path, min_profit } => {
            let p = path@;
            if p.len() == 0 {
                Err("Empty path"@)
            } else {
                match arb_scan(e, p, (p.len() - 1) as nat) {
                    None => Err("Account not found"@),
                    Some(profit) => if profit < 0 || profit < min_profit {
                        Err("Arbitrage not profitable"@)
                    } else {
                        let b = lookup_spec(e, p[0])->0;
                        Ok((
                            upsert_spec(e, p[0], Balance { eth: (b.eth + profit) as u64, token: b.token }),
                            p.len() * gas / 10,
                        ))
                    },
                }
            }
        },
    }
}

/// The arithmetic of a transaction stays in range: no balance, gas figure or running
/// profit overflows its integer type.
pub open spec fn tx_fits(e: Seq<(u64, Balance)>, gas: u64, tx: Transaction) -> bool {
    match tx {
        Transaction::Transfer { from, to, amount } => match lookup_spec(e, from) {
            None => true,
            Some(b) => b.eth < amount || {
                let e1 = upsert_spec(e, from, Balance { eth: (b.eth - amount) as u64, token: b.token });
                &&& amount * gas <= u64::MAX
                &&& lookup_spec(e1, to) matches Some(t) ==> t.eth + amount <= u64::MAX
            },
        },
        Transaction::Swap { token_in, amount_in, .. } => match lookup_spec(e, token_in) {
            None => true,
            Some(b) => b.token < amount_in || {
                &&& amount_in * 99 <= u64::MAX
                &&& b.eth + amount_in * 99 / 100 <= u64::MAX
                &&& amount_in * gas <= u64::MAX
            },
        },
        Transaction::Arbitrage { path, min_profit } => {
            let p = path@;
            p.len() == 0 || {
                &&& forall|k: nat| 1 <= k < p.len() ==> (#[trigger] arb_scan(e, p, k) matches Some(s) ==> i64::MIN <= s <= i64::MAX)
                &&& match arb_scan(e, p, (p.len() - 1) as nat) {
                    Some(profit) => profit >= 0 && profit >= min_profit ==> {
                        &&& (lookup_spec(e, p[0]) matches Some(b) && b.eth + profit <= u64::MAX)
                        &&& p.len() * gas <= u64::MAX
                    },
                    None => true,
                }
            }
        },
    }
}

/// The world a bundle runs in: accounts, block number and gas price.
pub struct WorldState {
    balances: Vec<(u64, Balance)>,
    pub block_number: u64,
    pub gas_price: u64,
}

impl Clone for WorldState {
    fn clone(&self) -> (r: Self)
        ensures
            r.accounts() == self.accounts(),
            r.block_no() == self.block_no(),
            r.gas() == self.gas(),
    {
        let mut balances: Vec<(u64, Balance)> = Vec::new();
        let mut i: usize = 0;
        while i < self.balances.len()
            invariant
                i <= self.balances@.len(),
                balances@ == self.balances@.subrange(0, i as int),
            decreases self.balances@.len() - i,
        {
            balances.push(self.balances[i]);
            i = i + 1;
            assert(balances@ =~= self.balances@.subrange(0, i as int));
        }
        assert(balances@ =~= self.balances@);
        WorldState { balances, block_number: self.block_number, gas_price: self.gas_price }
    }
}

impl WorldState {
    /// The accounts in creation order.
    pub closed spec fn accounts(&self) -> Seq<(u64, Balance)> {
        self.balances@
    }

    pub closed spec fn block_no(&self) -> u64 {
        self.block_number
    }

    pub closed spec fn gas(&self) -> u64 {
        self.gas_price
    }

    pub open spec fn wf(&self) -> bool {
        ids_unique(self.accounts())
    }

    /// A world with accounts 1, 2 and 3.
    pub fn new(gas_price: u64) -> (r: Self)
        ensures
            r.wf(),
            r.accounts() == seq![
                (1u64, Balance { eth: 1000, token: 500 }),
                (2u64, Balance { eth: 1000, token: 0 }),
                (3u64, Balance { eth: 1000, token: 1000 }),
            ],
            r.block_no() == 1,
            r.gas() == gas_price,
    {
        let mut balances: Vec<(u64, Balance)> = Vec::new();
        balances.push((1, Balance { eth: 1000, token: 500 }));
        balances.push((2, Balance { eth: 1000, token: 0 }));
        balances.push((3, Balance { eth: 1000, token: 1000 }));
        WorldState { balances, block_number: 1, gas_price }
    }

    fn find(&self, id: u64) -> (r: Option<usize>)
        ensures
            match r {
                Some(i) => first_key_index(self.accounts(), id) == Some(i as int) && i < self.accounts().len(),
                None => first_key_index(self.accounts(), id) is None,
            },
    {
        let mut i: usize = 0;
        while i < self.balances.len()
            invariant
                i <= self.balances@.len(),
                forall|j: int| 0 <= j < i ==> (#[trigger] self.balances@[j]).0 != id,
            decreases self.balances@.len() - i,
        {
            if self.balances[i].0 == id {
                proof {
                    lemma_first_key_index(self.balances@, id, i as int);
                }
                return Some(i);
            }
            i = i + 1;
        }
        proof {
            lemma_first_key_index_spec(self.balances@, id);
        }
        None
    }

    /// The balance of account `id`, if it exists.
    pub fn balance_of(&self, id: u64) -> (r: Option<Balance>)
        ensures
            r == lookup_spec(self.accounts(), id),
    {
        match self.find(id) {
            Some(i) => Some(self.balances[i].1),
            None => None,
        }
    }

    /// Writes the balance of account `id`, creating the account if it is new.
    fn put(&mut self, id: u64, b: Balance)
        requires
            old(self).wf(),
        ensures
            final(self).wf(),
            final(self).accounts() == upsert_spec(old(self).accounts(), id, b),
            final(self).block_no() == old(self).block_no(),
            final(self).gas() == old(self).gas(),
    {
        let ghost e0 = self.balances@;
        match self.find(id) {
            Some(i) => {
                self.balances.set(i, (id, b));
            },
            None => {
                self.balances.push((id, b));
            },
        }
        assert(self.balances@ =~= upsert_spec(e0, id, b));
    }

    /// Runs one transaction. On success it returns the gas it reports; on failure it
    /// returns the reason and leaves the state as it was.
    pub fn execute_transaction(&mut self, tx: &Transaction) -> (r: Result<u64, String>)
        requires
            old(self).wf(),
            tx_fits(old(self).accounts(), old(self).gas(), *tx),
        ensures
            final(self).wf(),
            final(self).block_no() == old(self).block_no(),
            final(self).gas() == old(self).gas(),
            match tx_step(old(self).accounts(), old(self).gas(), *tx) {
                Ok((e, g)) => 0 <= g <= u64::MAX && r == Ok::<u64, String>(g as u64) && final(self).accounts() == e,
                Err(msg) => r matches Err(m) && m@ == msg && final(self).accounts() == old(self).accounts(),
            },
    {
        let gas = self.gas_price;
        match tx {
            Transaction::Transfer { from, to, amount } => {
                let b = match self.balance_of(*from) {
                    Some(b) => b,
                    None => {
                        return Err("Sender not found".to_string());
                    },
                };
                if b.eth < *amount {
                    return Err("Insufficient balance".to_string());
                }
                self.put(*from, Balance { eth: b.eth - *amount, token: b.token });
                let t = match self.balance_of(*to) {
                    Some(t) => t,
                    None => Balance { eth: 0, token: 0 },
                };
                self.put(*to, Balance { eth: t.eth + *amount, token: t.token });
                Ok(*amount * gas / 100)
            },
            Transaction::Swap { token_in, token_out: _, amount_in } => {
                let b = match self.balance_of(*token_in) {
                    Some(b) => b,
                    None => {
                        return Err("Account not found".to_string());
                    },
                };
                if b.token < *amount_in {
                    return Err("Insufficient token balance".to_string());
                }
                self.put(*token_in, Balance { eth: b.eth + *amount_in * 99 / 100, token: b.token - *amount_in });
                Ok(*amount_in * gas / 50)
            },
            Transaction::Arbitrage { path, min_profit } => {
                if path.len() == 0 {
                    return Err("Empty path".to_string());
                }
                let ghost e = self.accounts();
                let ghost p = path@;
                let mut current = path[0];
                let mut profit: i64 = 0;
                let mut k: usize = 1;
                while k < path.len()
                    invariant
                        1 <= k <= p.len(),
                        p == path@,
                        e == self.accounts(),
                        self.wf(),
                        current == p[k - 1],
                        arb_scan(e, p, (k - 1) as nat) == Some(profit as int),
                        tx_fits(e, gas, *tx),
                        *tx == (Transaction::Arbitrage { path: *path, min_profit: *min_profit }),
                    decreases p.len() - k,
                {
                    let b = match self.balance_of(current) {
                        Some(b) => b,
                        None => {
                            proof {
                                lemma_arb_scan_none(e, p, k as nat, (p.len() - 1) as nat);
                            }
                            return Err("Account not found".to_string());
                        },
                    };
                    assert(arb_scan(e, p, k as nat) == Some(profit + (b.eth as i64) as int));
                    profit = profit + (b.eth as i64);
                    current = path[k];
                    k = k + 1;
                }
                if profit < 0 || (profit as u64) < *min_profit {
                    return Err("Arbitrage not profitable".to_string());
                }
                let b = match self.balance_of(path[0]) {
                    Some(b) => b,
                    None => {
                        return Err("Account not found".to_string());
                    },
                };
                self.put(path[0], Balance { eth: b.eth + (profit as u64), token: b.token });
                Ok(path.len() as u64 * gas / 10)
            },
        }
    }
}

impl WorldState {
    /// Whether running `tx` on this state keeps every balance, gas figure and running
    /// profit in range, so that `execute_transaction` may run it.
    pub fn fits(&self, tx: &Transaction) -> (r: bool)
        requires
            self.wf(),
        ensures
            r == tx_fits(self.accounts(), self.gas(), *tx),
    {
        let gas = self.gas_price;
        match tx {
            Transaction::Transfer { from, to, amount } => {
                let b = match self.balance_of(*from) {
                    Some(b) => b,
                    None => {
                        return true;
                    },
                };
                if b.eth < *amount {
                    return true;
                }
                if amount.checked_mul(gas).is_none() {
                    return false;
                }
                let left = Balance { eth: b.eth - *amount, token: b.token };
                proof {
                    lemma_upsert_lookup(self.accounts(), *from, left, *to);
                }
                let t_eth = if *to == *from {
                    left.eth
                } else {
                    match self.balance_of(*to) {
                        Some(t) => t.eth,
                        None => {
                            return true;
                        },
                    }
                };
                t_eth.checked_add(*amount).is_some()
            },
            Transaction::Swap { token_in, token_out: _, amount_in } => {
                let b = match self.balance_of(*token_in) {
                    Some(b) => b,
                    None => {
                        return true;
                    },
                };
                if b.token < *amount_in {
                    return true;
                }
                match amount_in.checked_mul(99) {
                    None => false,
                    Some(m) => b.eth.checked_add(m / 100).is_some() && amount_in.checked_mul(gas).is_some(),
                }
            },
            Transaction::Arbitrage { path, min_profit } => {
                if path.len() == 0 {
                    return true;
                }
                let ghost e = self.accounts();
                let ghost p = path@;
                let mut profit: i64 = 0;
                let mut k: usize = 1;
                while k < path.len()
                    invariant
                        1 <= k <= p.len(),
                        p == path@,
                        e == self.accounts(),
                        arb_scan(e, p, (k - 1) as nat) == Some(profit as int),
                        forall|j: nat| 1 <= j < k ==> (#[trigger] arb_scan(e, p, j) matches Some(s) ==> i64::MIN <= s <= i64::MAX),
                        gas == self.gas(),
                        *tx == (Transaction::Arbitrage { path: *path, min_profit: *min_profit }),
                    decreases p.len() - k,
                {
                    let b = match self.balance_of(path[k - 1]) {
                        Some(b) => b,
                        None => {
                            proof {
                                assert forall|j: nat| 1 <= j < p.len() implies (#[trigger] arb_scan(e, p, j) matches Some(s) ==> i64::MIN <= s <= i64::MAX) by {
                                    if j >= k {
                                        lemma_arb_scan_none(e, p, k as nat, j);
                                    }
                                }
                                lemma_arb_scan_none(e, p, k as nat, (p.len() - 1) as nat);
                            }
                            return true;
                        },
                    };
                    assert(arb_scan(e, p, k as nat) == Some(profit + (b.eth as i64) as int));
                    match profit.checked_add(b.eth as i64) {
                        Some(s) => {
                            profit = s;
                        },
                        None => {
                            return false;
                        },
                    }
                    k = k + 1;
                }
                if profit < 0 || (profit as u64) < *min_profit {
                    return true;
                }
                let b = match self.balance_of(path[0]) {
                    Some(b) => b,
                    None => {
                        return false;
                    },
                };
                b.eth.checked_add(profit as u64).is_some() && (path.len() as u64).checked_mul(gas).is_some()
            },
        }
    }
}

/// Once an account of the path is missing, the scan stays failed.
proof fn lemma_arb_scan_none(e: Seq<(u64, Balance)>, p: Seq<u64>, k: nat, n: nat)
    requires
        k <= n,
        arb_scan(e, p, k) is None,
    ensures
        arb_scan(e, p, n) is None,
    decreases n - k,
{
    if k < n {
        lemma_arb_scan_none(e, p, k + 1, n);
    }
}

/// Running a bundle's transactions in order: the final accounts, the gas reported by the
/// transactions that succeeded, and whether the bundle went through. A failed transaction
/// stops a bundle that reverts on failure and is skipped otherwise.
pub open spec fn run_txs(e: Seq<(u64, Balance)>, gas: u64, txs: Seq<Transaction>, revert: bool) -> (Seq<(u64, Balance)>, int, bool)
    decreases txs.len(),
{
    if txs.len() == 0 {
        (e, 0, true)
    } else {
        match tx_step(e, gas, txs[0]) {
            Ok((e1, g)) => {
                let r = run_txs(e1, gas, txs.drop_first(), revert);
                (r.0, g + r.1, r.2)
            },
            Err(_) => if revert {
                (e, 0, false)
            } else {
                run_txs(e, gas, txs.drop_first(), revert)
            },
        }
    }
}

/// Every transaction that a run reaches stays in range, and the gas total, starting
/// from `acc`, fits in a `u64`.
pub open spec fn run_fits(e: Seq<(u64, Balance)>, gas: u64, txs: Seq<Transaction>, revert: bool, acc: int) -> bool
    decreases txs.len(),
{
    txs.len() == 0 || (tx_fits(e, gas, txs[0]) && match tx_step(e, gas, txs[0]) {
        Ok((e1, g)) => acc + g <= u64::MAX && run_fits(e1, gas, txs.drop_first(), revert, acc + g),
        Err(_) => revert || run_fits(e, gas, txs.drop_first(), revert, acc),
    })
}

/// The running sums of a profit computation fit in an `i64`: first the final balances
/// are added up, then the initial ones taken off.
pub open spec fn profit_fits(ef: Seq<(u64, Balance)>, e0: Seq<(u64, Balance)>) -> bool {
    &&& forall|k: nat| k <= ef.len() ==> i64::MIN <= #[trigger] eth_prefix(ef, k) <= i64::MAX
    &&& forall|k: nat| k <= e0.len() ==> i64::MIN <= eth_total(ef) - #[trigger] eth_prefix(e0, k) <= i64::MAX
}

/// A set of transactions to run together.
pub struct Bundle {
    pub transactions: Vec<Transaction>,
    pub revert_on_fail: bool,
    pub min_profit: u64,
}

/// What simulating one bundle found.
pub struct SimulationResult {
    pub bundle_index: usize,
    pub success: bool,
    pub profit: i64,
    pub gas_used: u64,
    pub final_state: WorldState,
}

/// The run of `b` from the accounts of `state`.
#[verifier::opaque]
pub open spec fn bundle_run(state: WorldState, b: Bundle) -> (Seq<(u64, Balance)>, int, bool) {
    run_txs(state.accounts(), state.gas(), b.transactions@, b.revert_on_fail)
}

/// The eth that the run of `b` adds to the world.
pub open spec fn bundle_profit(state: WorldState, b: Bundle) -> int {
    eth_total(bundle_run(state, b).0) - eth_total(state.accounts())
}

/// A simulation of `b` from `state` stays in range.
pub open spec fn bundle_fits(state: WorldState, b: Bundle) -> bool {
    &&& state.wf()
    &&& run_fits(state.accounts(), state.gas(), b.transactions@, b.revert_on_fail, 0)
    &&& profit_fits(bundle_run(state, b).0, state.accounts())
}

/// `r` is the simulation of bundle `i`, `b`, from `state`.
pub open spec fn simulated(state: WorldState, i: int, b: Bundle, r: SimulationResult) -> bool {
    &&& r.bundle_index == i
    &&& r.success == bundle_run(state, b).2
    &&& r.gas_used == bundle_run(state, b).1
    &&& r.profit == bundle_profit(state, b)
    &&& r.final_state.accounts() == bundle_run(state, b).0
}

/// Sum of the eth balances of `state`, each read as an `i64`, added to `start`.
fn add_eth(state: &WorldState, start: i64, sign_minus: bool) -> (r: i64)
    requires
        !sign_minus ==> forall|k: nat| k <= state.accounts().len() ==> i64::MIN <= start + #[trigger] eth_prefix(state.accounts(), k) <= i64::MAX,
        sign_minus ==> forall|k: nat| k <= state.accounts().len() ==> i64::MIN <= start - #[trigger] eth_prefix(state.accounts(), k) <= i64::MAX,
    ensures
        !sign_minus ==> r == start + eth_total(state.accounts()),
        sign_minus ==> r == start - eth_total(state.accounts()),
{
    let mut acc = start;
    let mut i: usize = 0;
    while i < state.balances.len()
        invariant
            i <= state.balances@.len(),
            state.balances@ == state.accounts(),
            !sign_minus ==> acc == start + eth_prefix(state.accounts(), i as nat),
            sign_minus ==> acc == start - eth_prefix(state.accounts(), i as nat),
            !sign_minus ==> forall|k: nat| k <= state.accounts().len() ==> i64::MIN <= start + #[trigger] eth_prefix(state.accounts(), k) <= i64::MAX,
            sign_minus ==> forall|k: nat| k <= state.accounts().len() ==> i64::MIN <= start - #[trigger] eth_prefix(state.accounts(), k) <= i64::MAX,
        decreases state.balances@.len() - i,
    {
        let v = state.balances[i].1.eth as i64;
        assert(eth_prefix(state.accounts(), (i + 1) as nat) == eth_prefix(state.accounts(), i as nat) + v as int);
        if sign_minus {
            acc = acc - v;
        } else {
            acc = acc + v;
        }
        i = i + 1;
    }
    acc
}

/// Simulates bundle `i` on a copy of `state`.
pub fn simulate_one(state: &WorldState, i: usize, bundle: &Bundle) -> (r: SimulationResult)
    requires
        bundle_fits(*state, *bundle),
    ensures
        simulated(*state, i as int, *bundle, r),
{
    let mut local = state.clone();
    let mut total_gas: u64 = 0;
    let mut success = true;
    let ghost txs = bundle.transactions@;
    proof {
        reveal(bundle_run);
    }
    let ghost target = bundle_run(*state, *bundle);
    let mut k: usize = 0;
    assert(txs.skip(0) =~= txs);
    while k < bundle.transactions.len()
        invariant_except_break
            k <= txs.len(),
            txs == bundle.transactions@,
            local.wf(),
            local.gas() == state.gas(),
            success,
            run_fits(local.accounts(), state.gas(), txs.skip(k as int), bundle.revert_on_fail, total_gas as int),
            ({
                let rest = run_txs(local.accounts(), state.gas(), txs.skip(k as int), bundle.revert_on_fail);
                target == (rest.0, total_gas + rest.1, rest.2)
            }),
        ensures
            local.wf(),
            target == (local.accounts(), total_gas as int, success),
        decreases txs.len() - k,
    {
        let ghost rest = txs.skip(k as int);
        assert(rest.drop_first() =~= txs.skip(k + 1));
        assert(rest[0] == txs[k as int]);
        match local.execute_transaction(&bundle.transactions[k]) {
            Ok(gas) => {
                total_gas = total_gas + gas;
            },
            Err(_e) => {
                if bundle.revert_on_fail {
                    success = false;
                    break;
                }
            },
        }
        k = k + 1;
    }
    let plus = add_eth(&local, 0, false);
    let profit = add_eth(state, plus, true);
    SimulationResult { bundle_index: i, success, profit, gas_used: total_gas, final_state: local }
}

/// `start` with the first `k` eth balances of `e` added, or taken off.
pub open spec fn shifted_sum(start: int, sign_minus: bool, e: Seq<(u64, Balance)>, k: nat) -> int {
    if sign_minus {
        start - eth_prefix(e, k)
    } else {
        start + eth_prefix(e, k)
    }
}

/// Like `add_eth`, but `None` once a running sum leaves the `i64` range.
fn checked_add_eth(state: &WorldState, start: i64, sign_minus: bool) -> (r: Option<i64>)
    ensures
        r is Some <==> forall|k: nat| k <= state.accounts().len() ==>
            i64::MIN <= #[trigger] shifted_sum(start as int, sign_minus, state.accounts(), k) <= i64::MAX,
        r matches Some(v) ==> v == shifted_sum(start as int, sign_minus, state.accounts(), state.accounts().len()),
{
    let ghost e = state.accounts();
    let mut acc = start;
    let mut i: usize = 0;
    while i < state.balances.len()
        invariant
            i <= state.balances@.len(),
            state.balances@ == e,
            e == state.accounts(),
            acc == shifted_sum(start as int, sign_minus, e, i as nat),
            forall|k: nat| k <= i ==> i64::MIN <= #[trigger] shifted_sum(start as int, sign_minus, e, k) <= i64::MAX,
        decreases state.balances@.len() - i,
    {
        let v = state.balances[i].1.eth as i64;
        assert(eth_prefix(e, (i + 1) as nat) == eth_prefix(e, i as nat) + v as int);
        let next = if sign_minus {
            acc.checked_sub(v)
        } else {
            acc.checked_add(v)
        };
        match next {
            Some(a) => {
                acc = a;
            },
            None => {
                assert(!(i64::MIN <= shifted_sum(start as int, sign_minus, e, (i + 1) as nat) <= i64::MAX));
                return None;
            },
        }
        i = i + 1;
    }
    Some(acc)
}

/// Simulates bundle `i` on a copy of `state` as `simulate_one` does, or returns `None`
/// where the simulation would leave the range of its integers.
pub fn simulate_one_checked(state: &WorldState, i: usize, bundle: &Bundle) -> (r: Option<SimulationResult>)
    requires
        state.wf(),
    ensures
        r is Some <==> bundle_fits(*state, *bundle),
        r matches Some(x) ==> simulated(*state, i as int, *bundle, x),
{
    let mut local = state.clone();
    let mut total_gas: u64 = 0;
    let mut success = true;
    let ghost txs = bundle.transactions@;
    proof {
        reveal(bundle_run);
    }
    let ghost target = bundle_run(*state, *bundle);
    let ghost fits = run_fits(state.accounts(), state.gas(), txs, bundle.revert_on_fail, 0);
    let mut k: usize = 0;
    assert(txs.skip(0) =~= txs);
    while k < bundle.transactions.len()
        invariant_except_break
            k <= txs.len(),
            txs == bundle.transactions@,
            local.wf(),
            local.gas() == state.gas(),
            success,
            fits == run_fits(state.accounts(), state.gas(), txs, bundle.revert_on_fail, 0),
            fits == run_fits(local.accounts(), state.gas(), txs.skip(k as int), bundle.revert_on_fail, total_gas as int),
            ({
                let rest = run_txs(local.accounts(), state.gas(), txs.skip(k as int), bundle.revert_on_fail);
                target == (rest.0, total_gas + rest.1, rest.2)
            }),
        ensures
            local.wf(),
            fits,
            fits == run_fits(state.accounts(), state.gas(), txs, bundle.revert_on_fail, 0),
            target == (local.accounts(), total_gas as int, success),
        decreases txs.len() - k,
    {
        let ghost rest = txs.skip(k as int);
        assert(rest.drop_first() =~= txs.skip(k + 1));
        assert(rest[0] == txs[k as int]);
        if !local.fits(&bundle.transactions[k]) {
            return None;
        }
        match local.execute_transaction(&bundle.transactions[k]) {
            Ok(gas) => {
                match total_gas.checked_add(gas) {
                    Some(t) => {
                        total_gas = t;
                    },
                    None => {
                        return None;
                    },
                }
            },
            Err(_e) => {
                if bundle.revert_on_fail {
                    success = false;
                    break;
                }
            },
        }
        k = k + 1;
    }
    let plus = match checked_add_eth(&local, 0, false) {
        Some(v) => v,
        None => {
            return None;
        },
    };
    let profit = match checked_add_eth(state, plus, true) {
        Some(v) => v,
        None => {
            return None;
        },
    };
    proof {
        let ef = local.accounts();
        let e0 = state.accounts();
        assert forall|k: nat| k <= ef.len() implies i64::MIN <= #[trigger] eth_prefix(ef, k) <= i64::MAX by {
            assert(i64::MIN <= shifted_sum(0, false, ef, k) <= i64::MAX);
        }
        assert forall|k: nat| k <= e0.len() implies i64::MIN <= eth_total(ef) - #[trigger] eth_prefix(e0, k) <= i64::MAX by {
            assert(i64::MIN <= shifted_sum(plus as int, true, e0, k) <= i64::MAX);
        }
    }
    Some(SimulationResult { bundle_index: i, success, profit, gas_used: total_gas, final_state: local })
}

/// Simulates every bundle on its own copy of `state`, the bundles side by side on rayon's
/// thread pool, and collects the results in bundle order. Calls
/// `par_iter().enumerate().map(..).collect()`; the claim is that the result holds one
/// element per bundle, in order, each the verified `simulate_one` of its bundle.
#[verifier::external_body]
fn par_simulate(state: &WorldState, bundles: &[Bundle]) -> (r: Vec<SimulationResult>)
    requires
        forall|i: int| 0 <= i < bundles@.len() ==> bundle_fits(*state, #[trigger] bundles@[i]),
    ensures
        r@.len() == bundles@.len(),
        forall|i: int| 0 <= i < bundles@.len() ==> simulated(*state, i, bundles@[i], #[trigger] r@[i]),
{
    bundles.par_iter().enumerate().map(|(i, b)| simulate_one(state, i, b)).collect()
}

/// A bundle that went through and made a profit.
pub open spec fn profitable(state: WorldState, b: Bundle) -> bool {
    bundle_run(state, b).2 && bundle_profit(state, b) > 0
}

/// Simulates bundles against one world state and picks the best.
pub struct MEVSearcher {
    pub state: WorldState,
}

impl MEVSearcher {
    pub fn new(state: WorldState) -> (r: Self)
        ensures
            r.state == state,
    {
        MEVSearcher { state }
    }

    /// Simulates every bundle, each on its own copy of the state.
    pub fn simulate_bundles_parallel(&self, bundles: &[Bundle]) -> (r: Vec<SimulationResult>)
        requires
            forall|i: int| 0 <= i < bundles@.len() ==> bundle_fits(self.state, #[trigger] bundles@[i]),
        ensures
            r@.len() == bundles@.len(),
            forall|i: int| 0 <= i < bundles@.len() ==> simulated(self.state, i, bundles@[i], #[trigger] r@[i]),
    {
        par_simulate(&self.state, bundles)
    }

    /// Simulates every bundle as `simulate_bundles_parallel` does, once each of them has
    /// been checked to stay in range; `None`, with nothing simulated in parallel, where one
    /// of them would not.
    pub fn simulate_bundles_checked(&self, bundles: &[Bundle]) -> (r: Option<Vec<SimulationResult>>)
        requires
            self.state.wf(),
        ensures
            r is Some <==> forall|i: int| 0 <= i < bundles@.len() ==> bundle_fits(self.state, #[trigger] bundles@[i]),
            r matches Some(v) ==> v@.len() == bundles@.len() && forall|i: int|
                0 <= i < bundles@.len() ==> simulated(self.state, i, bundles@[i], #[trigger] v@[i]),
    {
        let mut k: usize = 0;
        while k < bundles.len()
            invariant
                k <= bundles@.len(),
                self.state.wf(),
                forall|i: int| 0 <= i < k ==> bundle_fits(self.state, #[trigger] bundles@[i]),
            decreases bundles@.len() - k,
        {
            if simulate_one_checked(&self.state, k, &bundles[k]).is_none() {
                return None;
            }
            k = k + 1;
        }
        Some(self.simulate_bundles_parallel(bundles))
    }

    /// The bundle with the highest profit among those that went through with a profit,
    /// the last of them on a tie.
    pub fn find_best_bundle<'a>(&self, bundles: &'a [Bundle]) -> (r: Option<&'a Bundle>)
        requires
            forall|i: int| 0 <= i < bundles@.len() ==> bundle_fits(self.state, #[trigger] bundles@[i]),
        ensures
            r is None <==> forall|j: int| 0 <= j < bundles@.len() ==> !profitable(self.state, #[trigger] bundles@[j]),
            r matches Some(b) ==> exists|j: int| {
                &&& 0 <= j < bundles@.len()
                &&& *b == bundles@[j]
                &&& profitable(self.state, bundles@[j])
                &&& forall|k: int| 0 <= k < bundles@.len() && profitable(self.state, #[trigger] bundles@[k]) ==>
                    bundle_profit(self.state, bundles@[k]) <= bundle_profit(self.state, bundles@[j])
                &&& forall|k: int| j < k < bundles@.len() && profitable(self.state, #[trigger] bundles@[k]) ==>
                    bundle_profit(self.state, bundles@[k]) < bundle_profit(self.state, bundles@[j])
            },
    {
        let results = self.simulate_bundles_parallel(bundles);
        let mut best: Option<usize> = None;
        let mut k: usize = 0;
        while k < results.len()
            invariant
                k <= results@.len(),
                results@.len() == bundles@.len(),
                forall|i: int| 0 <= i < bundles@.len() ==> simulated(self.state, i, bundles@[i], #[trigger] results@[i]),
                match best {
                    None => forall|j: int| 0 <= j < k ==> !profitable(self.state, #[trigger] bundles@[j]),
                    Some(j) => {
                        &&& j < k
                        &&& profitable(self.state, bundles@[j as int])
                        &&& forall|m: int| 0 <= m < k && profitable(self.state, #[trigger] bundles@[m]) ==>
                            bundle_profit(self.state, bundles@[m]) <= bundle_profit(self.state, bundles@[j as int])
                        &&& forall|m: int| j < m < k && profitable(self.state, #[trigger] bundles@[m]) ==>
                            bundle_profit(self.state, bundles@[m]) < bundle_profit(self.state, bundles@[j as int])
                    },
                },
            decreases results@.len() - k,
        {
            let r = &results[k];
            assert(simulated(self.state, k as int, bundles@[k as int], results@[k as int]));
            if r.success && r.profit > 0 {
                match best {
                    None => {
                        best = Some(k);
                    },
                    Some(j) => {
                        assert(simulated(self.state, j as int, bundles@[j as int], results@[j as int]));
                        if r.profit >= results[j].profit {
                            best = Some(k);
                        }
                    },
                }
            }
            k = k + 1;
        }
        match best {
            Some(j) => Some(&bundles[j]),
            None => None,
        }
    }
}

} // verus!
