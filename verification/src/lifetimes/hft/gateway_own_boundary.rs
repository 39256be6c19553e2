//! The owned order the gateway thread takes: the borrowed id is copied out of the wire.
use vstd::prelude::*;
use crate::lifetimes::hft::{Px, Qty};
use crate::lifetimes::hft::fix_zero_copy::{NewOrder, Side};

verus! {

pub struct GatewayOrder {
    pub cl_ord_id: Vec<u8>,
    pub side: Side,
    pub px: Px,
    pub qty: Qty,
}

impl GatewayOrder {
    /// Copies the borrowed order into an owned one.
    pub fn from_borrowed(order: NewOrder<'_>) -> (r: Self)
        ensures
            r.cl_ord_id@ == order.cl_ord_id@,
            r.side == order.side,
            r.px == order.px,
            r.qty == order.qty,
    {
        GatewayOrder {
            cl_ord_id: vstd::slice::slice_to_vec(order.cl_ord_id),
            side: order.side,
            px: order.px,
            qty: order.qty,
        }
    }
}

} // verus!
