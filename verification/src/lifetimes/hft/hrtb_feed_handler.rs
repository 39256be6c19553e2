//! A feed router whose handler takes a tick borrowed for any lifetime.
use vstd::prelude::*;
use crate::lifetimes::hft::Px;

verus! {

#[derive(Clone, Copy, Debug)]
pub struct Tick {
    pub bid: Px,
    pub ask: Px,
    pub ts_ns: u64,
}

/// Hands each tick to the handler and counts the ticks.
pub struct FeedRouter<F> {
    handler: F,
    pub count: u64,
}

impl<F> FeedRouter<F> where F: for<'a> Fn(&'a Tick) {
    /// The handler can take this tick.
    pub closed spec fn accepts(&self, tick: &Tick) -> bool {
        call_requires(self.handler, (tick,))
    }

    /// The ticks dispatched so far.
    pub closed spec fn dispatched(&self) -> u64 {
        self.count
    }

    /// The handler the router calls.
    pub closed spec fn handler(&self) -> F {
        self.handler
    }

    pub fn new(handler: F) -> (r: Self)
        ensures
            r.dispatched() == 0,
            r.handler() == handler,
    {
        FeedRouter { handler, count: 0 }
    }

    /// Calls the handler on the tick and counts it.
    pub fn dispatch<'a>(&mut self, tick: &'a Tick)
        requires
            old(self).accepts(tick),
            old(self).dispatched() < u64::MAX,
        ensures
            final(self).dispatched() == old(self).dispatched() + 1,
            final(self).handler() == old(self).handler(),
    {
        (self.handler)(tick);
        self.count = self.count + 1;
    }
}

} // verus!
