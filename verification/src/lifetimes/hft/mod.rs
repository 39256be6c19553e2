//! Trading-side views: a FIX order that borrows its id from the wire, tick-scoped arena
//! levels, a strategy chain over a borrowed book, a symbol table, a book snapshot, a
//! callback router and the owned order handed to the gateway.
pub mod book_snapshot_view;
pub mod fix_zero_copy;
pub mod gateway_own_boundary;
pub mod hrtb_feed_handler;
pub mod market_ctx_pipeline;
pub mod static_symbol_table;
pub mod tick_arena;

use vstd::prelude::*;

verus! {

pub type Px = i64;

pub type Qty = i64;

} // verus!
