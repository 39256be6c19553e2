//! Routing by order notional, with position limits checked first.
use vstd::prelude::*;
use crate::guards_ranges::hft::{Px, Qty, Side};

verus! {

#[derive(Debug, Clone, Copy)]
pub struct Order {
    pub side: Side,
    pub px: Px,
    pub qty: Qty,
}

#[derive(Debug, Clone, Copy, PartialEq, Eq, Structural)]
pub enum Route {
    Internalize,
    SmartRouter,
    AlgoDesk,
    Reject,
}

/// A positive notional that would breach the position limit rejects; otherwise the
/// notional (`px·qty`) picks the tier, and a negative notional rejects.
pub open spec fn route_spec(order: Order, position: Qty, max_pos: Qty) -> Route {
    let n = order.px * order.qty;
    if n > 0 && order.side == Side::Bid && position + order.qty > max_pos {
        Route::Reject
    } else if n > 0 && order.side == Side::Ask && position - order.qty < -max_pos {
        Route::Reject
    } else if 0 <= n <= 100_000 {
        Route::Internalize
    } else if 100_001 <= n <= 5_000_000 {
        Route::SmartRouter
    } else if n >= 5_000_001 {
        Route::AlgoDesk
    } else {
        Route::Reject
    }
}

pub fn route(order: Order, position: Qty, max_pos: Qty) -> (r: Route)
    requires
        order.px * order.qty > 0 && order.side == Side::Bid ==> i64::MIN <= position + order.qty <= i64::MAX,
        order.px * order.qty > 0 && order.side == Side::Ask ==> i64::MIN <= position - order.qty <= i64::MAX
            && max_pos != i64::MIN,
    ensures
        r == route_spec(order, position, max_pos),
{
    assert(-9223372036854775808 * 9223372036854775807 <= order.px * order.qty <= 9223372036854775808 * 9223372036854775808)
        by (nonlinear_arith)
        requires
            i64::MIN <= order.px <= i64::MAX,
            i64::MIN <= order.qty <= i64::MAX;
    let n: i128 = order.px as i128 * order.qty as i128;
    let bid = match order.side {
        Side::Bid => true,
        Side::Ask => false,
    };
    let pos: i128 = position as i128;
    let q: i128 = order.qty as i128;
    let lim: i128 = max_pos as i128;
    if n > 0 && bid && pos + q > lim {
        Route::Reject
    } else if n > 0 && !bid && pos - q < -lim {
        Route::Reject
    } else if n >= 0 && n <= 100_000 {
        Route::Internalize
    } else if n >= 100_001 && n <= 5_000_000 {
        Route::SmartRouter
    } else if n >= 5_000_001 {
        Route::AlgoDesk
    } else {
        Route::Reject
    }
}

} // verus!
