//! A limit order book for a matching engine: price levels per side, orders resting at a
//! level head first, matching against the opposite side, and cached best prices.
//!
//! Counters behave as the atomic counters of a concurrent book do: the order id counter,
//! the level quantities and the traded volume wrap around instead of overflowing.
use vstd::prelude::*;

verus! {

/// The side of an order.
#[derive(Clone, Copy, PartialEq, Eq, Structural, Debug)]
pub enum Side {
    Buy,
    Sell,
}

/// Where an order stands.
#[derive(Clone, Copy, PartialEq, Eq, Structural, Debug)]
pub enum OrderStatus {
    Open,
    Filled,
    Cancelled,
}

/// An order; prices are scaled integers.
#[derive(Clone, Copy)]
pub struct Order {
    pub id: u64,
    pub price: u64,
    pub qty: u32,
    pub side: Side,
    pub status: OrderStatus,
}

impl Order {
    pub fn new(id: u64, price: u64, qty: u32, side: Side) -> (r: Self)
        ensures
            r == (Order { id, price, qty, side, status: OrderStatus::Open }),
    {
        Order { id, price, qty, side, status: OrderStatus::Open }
    }

    pub fn set_status(&mut self, status: OrderStatus)
        ensures
            *final(self) == (Order { status, ..*old(self) }),
    {
        self.status = status;
    }

    pub fn get_status(&self) -> (r: OrderStatus)
        ensures
            r == self.status,
    {
        self.status
    }
}

/// The orders resting at one price, the newest first.
pub struct PriceLevel {
    pub price: u64,
    pub total_qty: u64,
    pub order_count: u64,
    pub orders: Vec<Order>,
}

impl PriceLevel {
    pub fn new(price: u64) -> (r: Self)
        ensures
            r.price == price,
            r.total_qty == 0,
            r.order_count == 0,
            r.orders@ == Seq::<Order>::empty(),
    {
        PriceLevel { price, total_qty: 0, order_count: 0, orders: Vec::new() }
    }
}

/// The smaller of two quantities.
pub open spec fn min_qty(a: u32, b: u32) -> u32 {
    if a < b { a } else { b }
}

/// Filling an incoming quantity against the orders of one level, from the `k`-th on:
/// orders that are not open are passed over; each open order takes what it can, is
/// marked filled when its whole quantity is taken, and the fill leaves the level's
/// total and adds its value to the traded volume. `None` where a fill's value overflows.
/// The result: the orders, the quantity left, the level total and the volume.
pub open spec fn fill_from(orders: Seq<Order>, k: nat, qty: u32, price: u64, tq: u64, vol: u64) -> Option<(Seq<Order>, u32, u64, u64)>
    decreases orders.len() - k,
{
    if qty == 0 || k >= orders.len() {
        Some((orders, qty, tq, vol))
    } else {
        let o = orders[k as int];
        if o.status != OrderStatus::Open {
            fill_from(orders, k + 1, qty, price, tq, vol)
        } else {
            let f = min_qty(qty, o.qty);
            if f * price > u64::MAX {
                None
            } else {
                let o2 = if f >= o.qty {
                    orders.update(k as int, Order { status: OrderStatus::Filled, ..o })
                } else {
                    orders
                };
                fill_from(o2, k + 1, (qty - f) as u32, price, tq.wrapping_sub(f as u64), vol.wrapping_add((f * price) as u64))
            }
        }
    }
}

/// Whether an incoming order at `price` on `side` crosses a level at `level_price`.
pub open spec fn crosses(side: Side, price: u64, level_price: u64) -> bool {
    match side {
        Side::Buy => price >= level_price,
        Side::Sell => price <= level_price,
    }
}

/// A level as a value: price, total quantity, order count and orders, newest first.
pub open spec fn level_view(l: PriceLevel) -> (u64, u64, u64, Seq<Order>) {
    (l.price, l.total_qty, l.order_count, l.orders@)
}

/// Matching an incoming quantity against the levels of the opposite side, from the
/// `j`-th on, while some is left and the level's price crosses. `None` where a fill's
/// value overflows. The result: the levels, the quantity left, the volume, and whether
/// any level was reached.
pub open spec fn match_from(levels: Seq<(u64, u64, u64, Seq<Order>)>, j: nat, side: Side, price: u64, qty: u32, vol: u64)
    -> Option<(Seq<(u64, u64, u64, Seq<Order>)>, u32, u64, bool)>
    decreases levels.len() - j,
{
    if qty == 0 || j >= levels.len() || !crosses(side, price, levels[j as int].0) {
        Some((levels, qty, vol, false))
    } else {
        let l = levels[j as int];
        match fill_from(l.3, 0, qty, l.0, l.1, vol) {
            None => None,
            Some((os, q2, tq2, v2)) => match match_from(levels.update(j as int, (l.0, tq2, l.2, os)), j + 1, side, price, q2, v2) {
                None => None,
                Some((ls, q3, v3, _)) => Some((ls, q3, v3, true)),
            },
        }
    }
}

/// Where a level for `price` goes: the first level at or past the price in the side's
/// order (descending for bids, ascending for asks), or the end.
pub open spec fn level_slot(levels: Seq<(u64, u64, u64, Seq<Order>)>, j: nat, price: u64, descend: bool) -> nat
    decreases levels.len() - j,
{
    if j >= levels.len() {
        levels.len()
    } else if (if descend { price >= levels[j as int].0 } else { price <= levels[j as int].0 }) {
        j
    } else {
        level_slot(levels, j + 1, price, descend)
    }
}

/// The side after an order rests on it: its level, created if the price is new, takes
/// the order at its head, one more order and the order's quantity.
pub open spec fn rest_order(levels: Seq<(u64, u64, u64, Seq<Order>)>, o: Order, descend: bool) -> Seq<(u64, u64, u64, Seq<Order>)> {
    let slot = level_slot(levels, 0, o.price, descend) as int;
    let ls = if slot < levels.len() && levels[slot].0 == o.price {
        levels
    } else {
        levels.insert(slot, (o.price, 0u64, 0u64, Seq::<Order>::empty()))
    };
    let l = ls[slot];
    ls.update(slot, (l.0, l.1.wrapping_add(o.qty as u64), l.2.wrapping_add(1), seq![o] + l.3))
}

/// A whole book as a value: bids, asks, best bid, best ask, next order id, volume.
pub type BookModel = (Seq<(u64, u64, u64, Seq<Order>)>, Seq<(u64, u64, u64, Seq<Order>)>, u64, u64, u64, u64);

/// The best-price cache after `side` is refreshed: the price of that side's first level,
/// unchanged when the side is empty.
pub open spec fn refresh_best(m: BookModel, side: Side) -> BookModel {
    match side {
        Side::Buy => if m.0.len() > 0 { (m.0, m.1, m.0[0].0, m.3, m.4, m.5) } else { m },
        Side::Sell => if m.1.len() > 0 { (m.0, m.1, m.2, m.1[0].0, m.4, m.5) } else { m },
    }
}

/// Matching an incoming order at `price` against the opposite side of `m`: the book
/// afterwards and the quantity left. `None` where a fill's value overflows.
pub open spec fn try_match_spec(m: BookModel, price: u64, qty: u32, side: Side) -> Option<(BookModel, u32)> {
    let opp = match side { Side::Buy => m.1, Side::Sell => m.0 };
    match match_from(opp, 0, side, price, qty, m.5) {
        None => None,
        Some((ls, rem, vol, any)) => {
            let m2 = match side {
                Side::Buy => (m.0, ls, m.2, m.3, m.4, vol),
                Side::Sell => (ls, m.1, m.2, m.3, m.4, vol),
            };
            Some((if any { refresh_best(m2, side) } else { m2 }, rem))
        },
    }
}

/// A limit order: it takes the next id, matches against the opposite side, and what is
/// left rests on its own side. The book afterwards and the id.
pub open spec fn limit_order_spec(m: BookModel, price: u64, qty: u32, side: Side) -> Option<(BookModel, u64)> {
    let id = m.4;
    let m1 = (m.0, m.1, m.2, m.3, m.4.wrapping_add(1), m.5);
    match try_match_spec(m1, price, qty, side) {
        None => None,
        Some((m2, rem)) => if rem > 0 {
            let o = Order { id, price, qty: rem, side, status: OrderStatus::Open };
            let m3 = match side {
                Side::Buy => (rest_order(m2.0, o, true), m2.1, m2.2, m2.3, m2.4, m2.5),
                Side::Sell => (m2.0, rest_order(m2.1, o, false), m2.2, m2.3, m2.4, m2.5),
            };
            Some((refresh_best(m3, side), id))
        } else {
            Some((m2, id))
        },
    }
}

/// What a market buy can take from the asks, from the `j`-th level on: from each level
/// up to its total, read as a `u32`, at the level's price. `None` where the value
/// overflows. The quantity filled and the value.
pub open spec fn take_from(asks: Seq<(u64, u64, u64, Seq<Order>)>, j: nat, qty: u32, filled: u32, value: u64) -> Option<(u32, u64)>
    decreases asks.len() - j,
{
    if filled >= qty || j >= asks.len() {
        Some((filled, value))
    } else {
        let take = min_qty((qty - filled) as u32, asks[j as int].1 as u32);
        if value + take * asks[j as int].0 > u64::MAX {
            None
        } else {
            take_from(asks, j + 1, qty, (filled + take) as u32, (value + take * asks[j as int].0) as u64)
        }
    }
}

/// A market order: it takes the next id and matches at price 0; a buy then adds up what
/// the asks hold. The book afterwards, the quantity filled and the value.
pub open spec fn market_order_spec(m: BookModel, qty: u32, side: Side) -> Option<(BookModel, u32, u64)> {
    let m1 = (m.0, m.1, m.2, m.3, m.4.wrapping_add(1), m.5);
    match try_match_spec(m1, 0, qty, side) {
        None => None,
        Some((m2, rem)) => {
            let filled = (qty - rem) as u32;
            if side == Side::Buy {
                match take_from(m2.1, 0, qty, filled, 0) {
                    None => None,
                    Some((f, v)) => Some((m2, f, v)),
                }
            } else {
                Some((m2, filled, 0))
            }
        },
    }
}

/// The levels of a side strictly in its order by price: descending for bids, ascending
/// for asks. So no price has two levels, and the first level holds the best price.
pub open spec fn side_ordered(levels: Seq<(u64, u64, u64, Seq<Order>)>, descend: bool) -> bool {
    forall|i: int, j: int| #![trigger levels[i], levels[j]]
        0 <= i < j < levels.len() ==> if descend { levels[i].0 > levels[j].0 } else { levels[i].0 < levels[j].0 }
}

/// A book in order: bid levels strictly descending by price, ask levels strictly
/// ascending, and each cached best price the price of its side's first level whenever that
/// side holds a level.
pub open spec fn book_ordered(m: BookModel) -> bool {
    &&& side_ordered(m.0, true)
    &&& side_ordered(m.1, false)
    &&& m.0.len() > 0 ==> m.2 == m.0[0].0
    &&& m.1.len() > 0 ==> m.3 == m.1[0].0
}

/// In a book in order the cached best bid is the highest price of any bid level and the
/// cached best ask the lowest price of any ask level, whenever the side holds a level.
pub proof fn lemma_best_prices_are_extreme(m: BookModel)
    requires
        book_ordered(m),
    ensures
        m.0.len() > 0 ==> forall|i: int| 0 <= i < m.0.len() ==> #[trigger] m.0[i].0 <= m.2,
        m.1.len() > 0 ==> forall|i: int| 0 <= i < m.1.len() ==> #[trigger] m.1[i].0 >= m.3,
{
    assert forall|i: int| 0 < i < m.0.len() implies #[trigger] m.0[i].0 < m.0[0].0 by {
        assert(m.0[0].0 > m.0[i].0);
    }
    assert forall|i: int| 0 < i < m.1.len() implies #[trigger] m.1[i].0 > m.1[0].0 by {
        assert(m.1[0].0 < m.1[i].0);
    }
}

/// Where `level_slot` stops: past every level that comes before `price` in the side's
/// order, at the first one that does not.
proof fn lemma_level_slot(levels: Seq<(u64, u64, u64, Seq<Order>)>, j: nat, price: u64, descend: bool)
    requires
        j <= levels.len(),
    ensures
        j <= level_slot(levels, j, price, descend) <= levels.len(),
        forall|i: int| j <= i < level_slot(levels, j, price, descend) ==>
            if descend { price < (#[trigger] levels[i]).0 } else { price > levels[i].0 },
        level_slot(levels, j, price, descend) < levels.len() ==> {
            let l = levels[level_slot(levels, j, price, descend) as int];
            if descend { price >= l.0 } else { price <= l.0 }
        },
    decreases levels.len() - j,
{
    if j < levels.len() && !(if descend { price >= levels[j as int].0 } else { price <= levels[j as int].0 }) {
        lemma_level_slot(levels, j + 1, price, descend);
    }
}

/// Resting an order keeps a side in order, and leaves it holding a level.
proof fn lemma_rest_order_ordered(levels: Seq<(u64, u64, u64, Seq<Order>)>, o: Order, descend: bool)
    requires
        side_ordered(levels, descend),
    ensures
        side_ordered(rest_order(levels, o, descend), descend),
        rest_order(levels, o, descend).len() > 0,
{
    lemma_level_slot(levels, 0, o.price, descend);
    let slot = level_slot(levels, 0, o.price, descend) as int;
    let fresh = (o.price, 0u64, 0u64, Seq::<Order>::empty());
    let ls = if slot < levels.len() && levels[slot].0 == o.price {
        levels
    } else {
        levels.insert(slot, fresh)
    };
    if !(slot < levels.len() && levels[slot].0 == o.price) {
        assert forall|k: int| 0 <= k < ls.len() implies #[trigger] ls[k] == (if k < slot { levels[k] } else if k == slot {
            fresh
        } else {
            levels[k - 1]
        }) by {}
        assert forall|i: int, j: int| 0 <= i < j < ls.len() implies
            (if descend { (#[trigger] ls[i]).0 > (#[trigger] ls[j]).0 } else { ls[i].0 < ls[j].0 }) by {
            if j < slot {
            } else if j == slot {
                assert(ls[i] == levels[i]);
            } else if i < slot {
                assert(levels[i] == ls[i] && levels[j - 1] == ls[j]);
            } else if i == slot {
                assert(levels[slot] == ls[slot + 1]);
                if j - 1 > slot {
                    assert(levels[slot].0 != levels[j - 1].0);
                }
            } else {
                assert(levels[i - 1] == ls[i] && levels[j - 1] == ls[j]);
            }
        }
    }
    let l = ls[slot];
    let r = ls.update(slot, (l.0, l.1.wrapping_add(o.qty as u64), l.2.wrapping_add(1), seq![o] + l.3));
    assert(r == rest_order(levels, o, descend));
    assert forall|k: int| 0 <= k < r.len() implies (#[trigger] r[k]).0 == ls[k].0 by {}
}

/// Matching changes no level's price and removes no level.
proof fn lemma_match_keeps_prices(levels: Seq<(u64, u64, u64, Seq<Order>)>, j: nat, side: Side, price: u64, qty: u32, vol: u64)
    ensures
        match_from(levels, j, side, price, qty, vol) matches Some(r) ==> r.0.len() == levels.len()
            && forall|i: int| 0 <= i < levels.len() ==> (#[trigger] r.0[i]).0 == levels[i].0,
    decreases levels.len() - j,
{
    if !(qty == 0 || j >= levels.len() || !crosses(side, price, levels[j as int].0)) {
        let l = levels[j as int];
        if let Some((os, q2, tq2, v2)) = fill_from(l.3, 0, qty, l.0, l.1, vol) {
            let up = levels.update(j as int, (l.0, tq2, l.2, os));
            lemma_match_keeps_prices(up, j + 1, side, price, q2, v2);
            assert forall|i: int| 0 <= i < levels.len() implies (#[trigger] up[i]).0 == levels[i].0 by {}
        }
    }
}

/// Matching touches only the levels an incoming order may trade with: for a buy those
/// priced at or below its price, for a sell those priced at or above it. Every other level
/// is left as it was.
pub proof fn lemma_match_only_crossing(levels: Seq<(u64, u64, u64, Seq<Order>)>, j: nat, side: Side, price: u64, qty: u32, vol: u64)
    ensures
        match_from(levels, j, side, price, qty, vol) matches Some(r) ==> r.0.len() == levels.len() && forall|i: int|
            0 <= i < levels.len() && !((side == Side::Buy && levels[i].0 <= price) || (side == Side::Sell && levels[i].0 >= price))
            ==> #[trigger] r.0[i] == levels[i],
    decreases levels.len() - j,
{
    lemma_match_keeps_prices(levels, j, side, price, qty, vol);
    if !(qty == 0 || j >= levels.len() || !crosses(side, price, levels[j as int].0)) {
        let l = levels[j as int];
        if let Some((os, q2, tq2, v2)) = fill_from(l.3, 0, qty, l.0, l.1, vol) {
            let up = levels.update(j as int, (l.0, tq2, l.2, os));
            lemma_match_only_crossing(up, j + 1, side, price, q2, v2);
            if let Some(r) = match_from(levels, j, side, price, qty, vol) {
                assert forall|i: int| 0 <= i < levels.len() && !((side == Side::Buy && levels[i].0 <= price)
                    || (side == Side::Sell && levels[i].0 >= price)) implies #[trigger] r.0[i] == levels[i] by {
                    assert(i != j);
                    assert(up[i] == levels[i]);
                }
            }
        }
    }
}

/// Filling against a level's orders from the `k`-th on takes something as soon as one of
/// them is open for a positive quantity.
proof fn lemma_fill_takes(orders: Seq<Order>, k: nat, qty: u32, price: u64, tq: u64, vol: u64, w: int)
    requires
        qty > 0,
        k <= w < orders.len(),
        orders[w].status == OrderStatus::Open,
        orders[w].qty > 0,
    ensures
        fill_from(orders, k, qty, price, tq, vol) matches Some(r) ==> r.1 < qty,
    decreases orders.len() - k,
{
    let o = orders[k as int];
    if o.status != OrderStatus::Open {
        lemma_fill_takes(orders, k + 1, qty, price, tq, vol, w);
    } else {
        let f = min_qty(qty, o.qty);
        if f * price <= u64::MAX {
            let o2 = if f >= o.qty {
                orders.update(k as int, Order { status: OrderStatus::Filled, ..o })
            } else {
                orders
            };
            if f > 0 {
                lemma_fill_le(o2, k + 1, (qty - f) as u32, price, tq.wrapping_sub(f as u64), vol.wrapping_add((f * price) as u64));
            } else {
                assert(o.qty == 0 && k != w);
                assert(o2[w] == orders[w]);
                lemma_fill_takes(o2, k + 1, qty, price, tq.wrapping_sub(f as u64), vol.wrapping_add((f * price) as u64), w);
            }
        }
    }
}

/// An incoming order whose first opposite level is one it may trade with (for a buy priced
/// at or below it, for a sell at or above it) and holds an open order for a positive
/// quantity trades at least part of its quantity there.
pub proof fn lemma_match_trades_first_level(levels: Seq<(u64, u64, u64, Seq<Order>)>, side: Side, price: u64, qty: u32, vol: u64, w: int)
    requires
        qty > 0,
        levels.len() > 0,
        (side == Side::Buy && levels[0].0 <= price) || (side == Side::Sell && levels[0].0 >= price),
        0 <= w < levels[0].3.len(),
        levels[0].3[w].status == OrderStatus::Open,
        levels[0].3[w].qty > 0,
    ensures
        match_from(levels, 0, side, price, qty, vol) matches Some(r) ==> r.1 < qty,
{
    let l = levels[0];
    lemma_fill_takes(l.3, 0, qty, l.0, l.1, vol, w);
    if let Some((os, q2, tq2, v2)) = fill_from(l.3, 0, qty, l.0, l.1, vol) {
        lemma_match_le(levels.update(0, (l.0, tq2, l.2, os)), 1, side, price, q2, v2);
    }
}

/// Keeping the levels' prices and number keeps a side in order.
proof fn lemma_same_prices_ordered(a: Seq<(u64, u64, u64, Seq<Order>)>, b: Seq<(u64, u64, u64, Seq<Order>)>, descend: bool)
    requires
        side_ordered(a, descend),
        b.len() == a.len(),
        forall|i: int| 0 <= i < a.len() ==> (#[trigger] b[i]).0 == a[i].0,
    ensures
        side_ordered(b, descend),
{
    assert forall|i: int, j: int| 0 <= i < j < b.len() implies
        (if descend { (#[trigger] b[i]).0 > (#[trigger] b[j]).0 } else { b[i].0 < b[j].0 }) by {
        assert(a[i].0 == b[i].0 && a[j].0 == b[j].0);
    }
}

/// Matching keeps a book in order.
proof fn lemma_try_match_ordered(m: BookModel, price: u64, qty: u32, side: Side)
    requires
        book_ordered(m),
    ensures
        try_match_spec(m, price, qty, side) matches Some(r) ==> book_ordered(r.0),
{
    let opp = match side { Side::Buy => m.1, Side::Sell => m.0 };
    lemma_match_keeps_prices(opp, 0, side, price, qty, m.5);
    if let Some((ls, rem, vol, any)) = match_from(opp, 0, side, price, qty, m.5) {
        match side {
            Side::Buy => {
                lemma_same_prices_ordered(m.1, ls, false);
                if ls.len() > 0 {
                    assert(ls[0].0 == m.1[0].0);
                }
            },
            Side::Sell => {
                lemma_same_prices_ordered(m.0, ls, true);
                if ls.len() > 0 {
                    assert(ls[0].0 == m.0[0].0);
                }
            },
        }
    }
}

/// A limit order keeps a book in order: after any sequence of limit orders from an empty
/// book, bid levels are strictly descending by price, ask levels strictly ascending, and
/// the cached best bid and ask are the prices of the first level of each side.
pub proof fn lemma_limit_order_ordered(m: BookModel, price: u64, qty: u32, side: Side)
    requires
        book_ordered(m),
    ensures
        limit_order_spec(m, price, qty, side) matches Some(r) ==> book_ordered(r.0),
{
    let m1 = (m.0, m.1, m.2, m.3, m.4.wrapping_add(1), m.5);
    lemma_try_match_ordered(m1, price, qty, side);
    if let Some((m2, rem)) = try_match_spec(m1, price, qty, side) {
        if rem > 0 {
            let o = Order { id: m.4, price, qty: rem, side, status: OrderStatus::Open };
            match side {
                Side::Buy => lemma_rest_order_ordered(m2.0, o, true),
                Side::Sell => lemma_rest_order_ordered(m2.1, o, false),
            }
        }
    }
}

/// A market order keeps a book in order.
pub proof fn lemma_market_order_ordered(m: BookModel, qty: u32, side: Side)
    requires
        book_ordered(m),
    ensures
        market_order_spec(m, qty, side) matches Some(r) ==> book_ordered(r.0),
{
    let m1 = (m.0, m.1, m.2, m.3, m.4.wrapping_add(1), m.5);
    lemma_try_match_ordered(m1, 0, qty, side);
}

/// A fill never leaves more than it was given.
proof fn lemma_fill_le(orders: Seq<Order>, k: nat, qty: u32, price: u64, tq: u64, vol: u64)
    ensures
        fill_from(orders, k, qty, price, tq, vol) matches Some(r) ==> r.1 <= qty,
    decreases orders.len() - k,
{
    if !(qty == 0 || k >= orders.len()) {
        let o = orders[k as int];
        if o.status != OrderStatus::Open {
            lemma_fill_le(orders, k + 1, qty, price, tq, vol);
        } else {
            let f = min_qty(qty, o.qty);
            if f * price <= u64::MAX {
                let o2 = if f >= o.qty {
                    orders.update(k as int, Order { status: OrderStatus::Filled, ..o })
                } else {
                    orders
                };
                lemma_fill_le(o2, k + 1, (qty - f) as u32, price, tq.wrapping_sub(f as u64), vol.wrapping_add((f * price) as u64));
            }
        }
    }
}

/// Matching never leaves more than it was given.
proof fn lemma_match_le(levels: Seq<(u64, u64, u64, Seq<Order>)>, j: nat, side: Side, price: u64, qty: u32, vol: u64)
    ensures
        match_from(levels, j, side, price, qty, vol) matches Some(r) ==> r.1 <= qty,
    decreases levels.len() - j,
{
    if !(qty == 0 || j >= levels.len() || !crosses(side, price, levels[j as int].0)) {
        let l = levels[j as int];
        lemma_fill_le(l.3, 0, qty, l.0, l.1, vol);
        if let Some((os, q2, tq2, v2)) = fill_from(l.3, 0, qty, l.0, l.1, vol) {
            lemma_match_le(levels.update(j as int, (l.0, tq2, l.2, os)), j + 1, side, price, q2, v2);
        }
    }
}

/// The levels of a side as values.
pub open spec fn side_view(v: Seq<PriceLevel>) -> Seq<(u64, u64, u64, Seq<Order>)> {
    v.map_values(|l: PriceLevel| level_view(l))
}

/// Fills `qty` against the orders of `l`, adding the value of each fill to `vol`.
fn fill_level(l: &mut PriceLevel, qty: u32, vol: &mut u64) -> (rem: u32)
    requires
        fill_from(old(l).orders@, 0, qty, old(l).price, old(l).total_qty, *old(vol)) is Some,
    ensures
        fill_from(old(l).orders@, 0, qty, old(l).price, old(l).total_qty, *old(vol))
            == Some((final(l).orders@, rem, final(l).total_qty, *final(vol))),
        final(l).price == old(l).price,
        final(l).order_count == old(l).order_count,
{
    let ghost target = fill_from(l.orders@, 0, qty, l.price, l.total_qty, *vol);
    let mut q = qty;
    let mut k: usize = 0;
    while q > 0 && k < l.orders.len()
        invariant
            k <= l.orders@.len(),
            l.price == old(l).price,
            l.order_count == old(l).order_count,
            target == fill_from(l.orders@, k as nat, q, l.price, l.total_qty, *vol),
            target is Some,
        decreases l.orders@.len() - k,
    {
        let o = l.orders[k];
        if o.get_status() != OrderStatus::Open {
            k = k + 1;
        } else {
            let f: u32 = if q < o.qty { q } else { o.qty };
            assert(f * l.price <= u64::MAX);
            l.total_qty = l.total_qty.wrapping_sub(f as u64);
            *vol = vol.wrapping_add(f as u64 * l.price);
            if f >= o.qty {
                let mut o2 = o;
                o2.set_status(OrderStatus::Filled);
                l.orders.set(k, o2);
            }
            q = q - f;
            k = k + 1;
        }
    }
    q
}

/// Matches `qty` against the levels of one side.
fn match_side(levels: &mut Vec<PriceLevel>, side: Side, price: u64, qty: u32, vol: &mut u64) -> (r: (u32, bool))
    requires
        match_from(side_view(old(levels)@), 0, side, price, qty, *old(vol)) is Some,
    ensures
        match_from(side_view(old(levels)@), 0, side, price, qty, *old(vol))
            == Some((side_view(final(levels)@), r.0, *final(vol), r.1)),
{
    let ghost target = match_from(side_view(levels@), 0, side, price, qty, *vol);
    let mut q = qty;
    let mut any = false;
    let mut j: usize = 0;
    while q > 0 && j < levels.len() && crosses_exec(side, price, levels[j].price)
        invariant_except_break
            j <= levels@.len(),
            match match_from(side_view(levels@), j as nat, side, price, q, *vol) {
                None => target is None,
                Some((ls, q3, v3, a)) => target == Some((ls, q3, v3, a || any)),
            },
            target is Some,
        ensures
            target == Some((side_view(levels@), q, *vol, any)),
        decreases levels@.len() - j,
    {
        let ghost before = side_view(levels@);
        let mut lvl = levels.remove(j);
        let rem = fill_level(&mut lvl, q, vol);
        levels.insert(j, lvl);
        assert(side_view(levels@) =~= before.update(j as int, (before[j as int].0, lvl.total_qty, before[j as int].2, lvl.orders@)));
        q = rem;
        any = true;
        j = j + 1;
    }
    (q, any)
}

/// `crosses`, computed.
fn crosses_exec(side: Side, price: u64, level_price: u64) -> (r: bool)
    ensures
        r == crosses(side, price, level_price),
{
    match side {
        Side::Buy => price >= level_price,
        Side::Sell => price <= level_price,
    }
}

/// An order book: bids best first (descending), asks best first (ascending), cached
/// best prices, the next order id and the traded volume.
pub struct OrderBook {
    bids: Vec<PriceLevel>,
    asks: Vec<PriceLevel>,
    best_bid: u64,
    best_ask: u64,
    order_id_seq: u64,
    total_volume: u64,
}

impl OrderBook {
    /// The book as a value.
    pub closed spec fn model(&self) -> BookModel {
        (side_view(self.bids@), side_view(self.asks@), self.best_bid, self.best_ask, self.order_id_seq, self.total_volume)
    }

    /// An empty book: no bid (best bid 0), no ask (best ask `u64::MAX`), ids from 1.
    pub fn new() -> (r: Self)
        ensures
            r.model() == (Seq::<(u64, u64, u64, Seq<Order>)>::empty(), Seq::<(u64, u64, u64, Seq<Order>)>::empty(), 0u64, u64::MAX, 1u64, 0u64),
            book_ordered(r.model()),
    {
        let r = OrderBook { bids: Vec::new(), asks: Vec::new(), best_bid: 0, best_ask: u64::MAX, order_id_seq: 1, total_volume: 0 };
        assert(side_view(r.bids@) =~= Seq::<(u64, u64, u64, Seq<Order>)>::empty());
        assert(side_view(r.asks@) =~= Seq::<(u64, u64, u64, Seq<Order>)>::empty());
        r
    }

    /// Takes the next order id.
    fn next_id(&mut self) -> (id: u64)
        ensures
            id == old(self).model().4,
            final(self).model() == (old(self).model().0, old(self).model().1, old(self).model().2, old(self).model().3,
                old(self).model().4.wrapping_add(1), old(self).model().5),
    {
        let id = self.order_id_seq;
        self.order_id_seq = self.order_id_seq.wrapping_add(1);
        id
    }

    /// Refreshes the cached best price of `side` from its first level.
    pub fn update_best_prices(&mut self, side: Side)
        ensures
            final(self).model() == refresh_best(old(self).model(), side),
            book_ordered(old(self).model()) ==> book_ordered(final(self).model()),
    {
        match side {
            Side::Buy => {
                if self.bids.len() > 0 {
                    self.best_bid = self.bids[0].price;
                }
            },
            Side::Sell => {
                if self.asks.len() > 0 {
                    self.best_ask = self.asks[0].price;
                }
            },
        }
    }

    /// The cached best bid and best ask.
    pub fn get_best_prices(&self) -> (r: (u64, u64))
        ensures
            r == (self.model().2, self.model().3),
    {
        (self.best_bid, self.best_ask)
    }

    /// The traded volume.
    pub fn get_total_volume(&self) -> (r: u64)
        ensures
            r == self.model().5,
    {
        self.total_volume
    }

    /// Matches an incoming order against the opposite side; returns what is left.
    fn try_match(&mut self, price: u64, qty: u32, side: Side) -> (rem: u32)
        requires
            try_match_spec(old(self).model(), price, qty, side) is Some,
        ensures
            try_match_spec(old(self).model(), price, qty, side) == Some((final(self).model(), rem)),
    {
        let r = match side {
            Side::Buy => match_side(&mut self.asks, side, price, qty, &mut self.total_volume),
            Side::Sell => match_side(&mut self.bids, side, price, qty, &mut self.total_volume),
        };
        if r.1 {
            self.update_best_prices(side);
        }
        r.0
    }

    /// Finds the level for `price` on one side, creating it in order if it is new.
    fn find_or_create_level(levels: &mut Vec<PriceLevel>, price: u64, descend: bool) -> (slot: usize)
        ensures
            slot == level_slot(side_view(old(levels)@), 0, price, descend),
            side_view(final(levels)@) == (if slot < old(levels)@.len() && old(levels)@[slot as int].price == price {
                side_view(old(levels)@)
            } else {
                side_view(old(levels)@).insert(slot as int, (price, 0u64, 0u64, Seq::<Order>::empty()))
            }),
            slot < final(levels)@.len(),
    {
        let ghost v = side_view(levels@);
        let mut j: usize = 0;
        while j < levels.len()
            invariant_except_break
                j <= levels@.len(),
                v == side_view(levels@),
                level_slot(v, 0, price, descend) == level_slot(v, j as nat, price, descend),
            ensures
                v == side_view(levels@),
                j <= levels@.len(),
                level_slot(v, 0, price, descend) == j,
            decreases levels@.len() - j,
        {
            let hit = if descend { price >= levels[j].price } else { price <= levels[j].price };
            if hit {
                break;
            }
            j = j + 1;
        }
        if j < levels.len() && levels[j].price == price {
            return j;
        }
        levels.insert(j, PriceLevel::new(price));
        assert(side_view(levels@) =~= v.insert(j as int, (price, 0u64, 0u64, Seq::<Order>::empty())));
        j
    }

    /// Rests an order on its side at the head of its level.
    fn insert_order(&mut self, o: Order)
        ensures
            final(self).model() == refresh_best(
                match o.side {
                    Side::Buy => (rest_order(old(self).model().0, o, true), old(self).model().1, old(self).model().2,
                        old(self).model().3, old(self).model().4, old(self).model().5),
                    Side::Sell => (old(self).model().0, rest_order(old(self).model().1, o, false), old(self).model().2,
                        old(self).model().3, old(self).model().4, old(self).model().5),
                },
                o.side,
            ),
    {
        match o.side {
            Side::Buy => Self::rest_on(&mut self.bids, o, true),
            Side::Sell => Self::rest_on(&mut self.asks, o, false),
        }
        self.update_best_prices(o.side);
    }

    fn rest_on(levels: &mut Vec<PriceLevel>, o: Order, descend: bool)
        ensures
            side_view(final(levels)@) == rest_order(side_view(old(levels)@), o, descend),
    {
        let slot = Self::find_or_create_level(levels, o.price, descend);
        let ghost before = side_view(levels@);
        let mut lvl = levels.remove(slot);
        lvl.orders.insert(0, o);
        lvl.order_count = lvl.order_count.wrapping_add(1);
        lvl.total_qty = lvl.total_qty.wrapping_add(o.qty as u64);
        levels.insert(slot, lvl);
        assert(lvl.orders@ =~= seq![o] + before[slot as int].3);
        assert(side_view(levels@) =~= before.update(slot as int, (before[slot as int].0,
            before[slot as int].1.wrapping_add(o.qty as u64), before[slot as int].2.wrapping_add(1), seq![o] + before[slot as int].3)));
    }

    /// A limit order: matched against the opposite side, the rest resting on its own
    /// side. Returns the order's id.
    pub fn limit_order(&mut self, price: u64, qty: u32, side: Side) -> (id: u64)
        requires
            limit_order_spec(old(self).model(), price, qty, side) is Some,
        ensures
            limit_order_spec(old(self).model(), price, qty, side) == Some((final(self).model(), id)),
            book_ordered(old(self).model()) ==> book_ordered(final(self).model()),
    {
        proof {
            if book_ordered(self.model()) {
                lemma_limit_order_ordered(self.model(), price, qty, side);
            }
        }
        let id = self.next_id();
        let remaining = self.try_match(price, qty, side);
        if remaining > 0 {
            self.insert_order(Order::new(id, price, remaining, side));
        }
        id
    }

    /// A market order: matched at price 0; a buy then counts what the asks hold. Returns
    /// the quantity filled and its value.
    pub fn market_order(&mut self, qty: u32, side: Side) -> (r: (u32, u64))
        requires
            market_order_spec(old(self).model(), qty, side) is Some,
        ensures
            market_order_spec(old(self).model(), qty, side) == Some((final(self).model(), r.0, r.1)),
            book_ordered(old(self).model()) ==> book_ordered(final(self).model()),
    {
        proof {
            if book_ordered(self.model()) {
                lemma_market_order_ordered(self.model(), qty, side);
            }
        }
        let _id = self.next_id();
        proof {
            let m1 = self.model();
            let opp = match side { Side::Buy => m1.1, Side::Sell => m1.0 };
            lemma_match_le(opp, 0, side, 0, qty, m1.5);
        }
        let remaining = self.try_match(0, qty, side);
        let mut filled = qty - remaining;
        let mut value: u64 = 0;
        if side == Side::Buy {
            let ghost asks = side_view(self.asks@);
            let ghost target = take_from(asks, 0, qty, filled, 0);
            let mut j: usize = 0;
            while filled < qty && j < self.asks.len()
                invariant
                    j <= self.asks@.len(),
                    asks == side_view(self.asks@),
                    target == take_from(asks, j as nat, qty, filled, value),
                    target is Some,
                decreases self.asks@.len() - j,
            {
                let level_qty = #[verifier::truncate] (self.asks[j].total_qty as u32);
                let take: u32 = if qty - filled < level_qty { qty - filled } else { level_qty };
                assert(value + take * self.asks@[j as int].price <= u64::MAX);
                value = value + take as u64 * self.asks[j].price;
                filled = filled + take;
                j = j + 1;
            }
        }
        (filled, value)
    }
}

} // verus!
