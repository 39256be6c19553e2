//! A strategy chain that reads one borrowed market context.
use vstd::prelude::*;
use crate::arith::tdiv;
use crate::lifetimes::hft::{Px, Qty};

verus! {

pub struct Level {
    pub px: Px,
    pub qty: Qty,
}

/// The market as one tick sees it: the symbol and bids borrowed from the book.
pub struct MarketCtx<'snap> {
    pub symbol: &'snap str,
    pub bids: &'snap [Level],
    pub ts_ns: u64,
}

/// A strategy that reads a market context and may quote a price.
pub trait Strategy {
    /// The contexts the strategy can act on.
    spec fn accepts(&self, ctx: &MarketCtx) -> bool;

    /// The price the strategy quotes for a context.
    spec fn decision(&self, ctx: &MarketCtx) -> Option<Px>;

    fn on_ctx(&mut self, ctx: &MarketCtx<'_>) -> (r: Option<Px>)
        requires
            old(self).accepts(ctx),
        ensures
            r == old(self).decision(ctx),
    ;
}

/// Quotes the mid between the best bid and a fixed ask five ticks above it.
pub struct MidPxStrategy;

impl Strategy for MidPxStrategy {
    /// With a bid, twice it plus five stays within `i64`.
    open spec fn accepts(&self, ctx: &MarketCtx) -> bool {
        ctx.bids@.len() > 0 ==> i64::MIN <= 2 * ctx.bids@[0].px + 5 <= i64::MAX
    }

    /// `(bid + (bid + 5)) / 2`, rounded toward zero; none without a bid.
    open spec fn decision(&self, ctx: &MarketCtx) -> Option<Px> {
        if ctx.bids@.len() == 0 {
            None
        } else {
            Some(tdiv(2 * ctx.bids@[0].px + 5, 2) as i64)
        }
    }

    fn on_ctx(&mut self, ctx: &MarketCtx<'_>) -> (r: Option<Px>) {
        if ctx.bids.len() == 0 {
            return None;
        }
        let best_bid = ctx.bids[0].px;
        let best_ask = best_bid + 5;
        Some((best_bid + best_ask) / 2)
    }
}

/// Runs one strategy on the context.
pub fn run_pipeline<'snap>(ctx: &MarketCtx<'snap>, strategy: &mut impl Strategy) -> (r: Option<Px>)
    requires
        old(strategy).accepts(ctx),
    ensures
        r == old(strategy).decision(ctx),
{
    strategy.on_ctx(ctx)
}

} // verus!
