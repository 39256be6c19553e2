//! Interior-mutability pitfalls and their fixes, with the shared state held in plain
//! fields: dispatch that snapshots its state, counter increments, and a published value.
use vstd::prelude::*;

verus! {

/// Engine state appended to while dispatching.
pub struct BadEngine {
    state: Vec<u32>,
}

impl BadEngine {
    pub closed spec fn items(&self) -> Seq<u32> {
        self.state@
    }

    pub fn new(state: Vec<u32>) -> (r: Self)
        ensures
            r.items() == state@,
    {
        BadEngine { state }
    }

    /// Appends 1 while still holding the state.
    pub fn bad_dispatch(&mut self)
        ensures
            final(self).items() == old(self).items().push(1),
    {
        self.state.push(1);
        let _ = self.state.len();
    }
}

/// Engine state that dispatch copies before working on it.
pub struct GoodEngine {
    state: Vec<u32>,
}

impl GoodEngine {
    pub closed spec fn items(&self) -> Seq<u32> {
        self.state@
    }

    pub fn new(state: Vec<u32>) -> (r: Self)
        ensures
            r.items() == state@,
    {
        GoodEngine { state }
    }

    /// Appends 1, then works on a copy of the state. Returns the copy.
    pub fn good_dispatch(&mut self) -> (snapshot: Vec<u32>)
        ensures
            final(self).items() == old(self).items().push(1),
            snapshot@ == final(self).items(),
    {
        self.state.push(1);
        let snapshot = self.state.clone();
        assert(snapshot@ =~= self.state@);
        let _ = snapshot.len();
        snapshot
    }
}

/// A counter incremented by a separate read and write.
pub struct BadCounter {
    n: u64,
}

impl BadCounter {
    pub closed spec fn value(&self) -> u64 {
        self.n
    }

    pub fn new(n: u64) -> (r: Self)
        ensures
            r.value() == n,
    {
        BadCounter { n }
    }

    /// Reads the counter, then writes it back plus one.
    pub fn bad_inc_twice_racy(&mut self)
        requires
            old(self).value() < u64::MAX,
        ensures
            final(self).value() == old(self).value() + 1,
    {
        let v = self.n;
        self.n = v + 1;
    }
}

/// A counter incremented in one step; it wraps as an atomic add does.
pub struct GoodCounter {
    n: u64,
}

impl GoodCounter {
    pub closed spec fn value(&self) -> u64 {
        self.n
    }

    pub fn new(n: u64) -> (r: Self)
        ensures
            r.value() == n,
    {
        GoodCounter { n }
    }

    pub fn good_inc(&mut self)
        ensures
            final(self).value() == old(self).value().wrapping_add(1),
    {
        self.n = self.n.wrapping_add(1);
    }

    pub fn get(&self) -> (r: u64)
        ensures
            r == self.value(),
    {
        self.n
    }
}

/// A published value.
pub struct Config {
    value: u64,
}

impl Config {
    pub closed spec fn current(&self) -> u64 {
        self.value
    }

    pub fn new(v: u64) -> (r: Self)
        ensures
            r.current() == v,
    {
        Config { value: v }
    }

    pub fn publish(&mut self, v: u64)
        ensures
            final(self).current() == v,
    {
        self.value = v;
    }

    pub fn read(&self) -> (r: u64)
        ensures
            r == self.current(),
    {
        self.value
    }
}

} // verus!
