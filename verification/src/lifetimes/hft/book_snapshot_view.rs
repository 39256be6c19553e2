//! A book snapshot that borrows its levels instead of copying them.
use vstd::prelude::*;
use crate::lifetimes::hft::{Px, Qty};

verus! {

pub struct Level {
    pub px: Px,
    pub qty: Qty,
}

pub struct BookSnapshot<'snap> {
    pub bids: &'snap [Level],
    pub asks: &'snap [Level],
    pub seq: u64,
}

impl<'snap> BookSnapshot<'snap> {
    /// Best ask less best bid; none when a side is empty.
    pub fn spread(&self) -> (r: Option<Px>)
        requires
            self.bids@.len() > 0 && self.asks@.len() > 0 ==> i64::MIN <= self.asks@[0].px
                - self.bids@[0].px <= i64::MAX,
        ensures
            self.bids@.len() == 0 || self.asks@.len() == 0 ==> r is None,
            self.bids@.len() > 0 && self.asks@.len() > 0 ==> r == Some((self.asks@[0].px - self.bids@[0].px) as i64),
    {
        if self.bids.len() == 0 {
            return None;
        }
        let bid = self.bids[0].px;
        if self.asks.len() == 0 {
            return None;
        }
        let ask = self.asks[0].px;
        Some(ask - bid)
    }
}

} // verus!
