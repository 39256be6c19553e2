//! A FIX new-order message read without copying: the order borrows its client order id
//! from the wire buffer.
use vstd::prelude::*;
use crate::decimal::{parse_i64, parse_i64_spec, parse_u64, parse_u64_spec};
use crate::generics::pitfalls::utf8_view;
use crate::lifetimes::basics::is_utf8;
use crate::lifetimes::hft::{Px, Qty};
use crate::bytes::{find_sep, lemma_sep_at, pieces_from, sep_at};

verus! {

pub const SOH: u8 = 0x01;

#[derive(Debug, Clone, Copy, PartialEq, Eq, Structural)]
pub enum Side {
    Buy,
    Sell,
}

/// A new order whose client order id points into the wire buffer.
#[derive(Debug)]
pub struct NewOrder<'buf> {
    pub cl_ord_id: &'buf [u8],
    pub side: Side,
    pub px: Px,
    pub qty: Qty,
}

/// A `tag=value` field of a FIX message: the tag is the text before the first `=`, read
/// as a `u16`; a chunk without `=` or with another tag text is no field.
pub open spec fn field_of(chunk: Seq<u8>) -> Option<(u16, Seq<u8>)> {
    let eq = sep_at(chunk, 61, 0);
    if eq >= chunk.len() {
        None
    } else {
        match parse_u64_spec(chunk.subrange(0, eq as int)) {
            Some(t) => if t <= 0xffff {
                Some((t as u16, chunk.subrange(eq as int + 1, chunk.len() as int)))
            } else {
                None
            },
            None => None,
        }
    }
}

/// A decimal field: the text must be UTF-8 and parse as an `i64`.
pub open spec fn decimal_spec(v: Seq<u8>) -> Result<i64, &'static str> {
    if !is_utf8(v) {
        Err("bad utf8")
    } else {
        match parse_i64_spec(v) {
            Some(x) => Ok(x),
            None => Err("bad number"),
        }
    }
}

/// The order fields read so far: client order id, side, price, quantity.
pub type FixFields = (Option<Seq<u8>>, Option<Side>, Option<i64>, Option<i64>);

/// One chunk applied to the fields read so far; a bad side or number stops the parse.
pub open spec fn fix_step(acc: FixFields, chunk: Seq<u8>) -> Result<FixFields, &'static str> {
    match field_of(chunk) {
        None => Ok(acc),
        Some((tag, v)) => if tag == 11 {
            Ok((Some(v), acc.1, acc.2, acc.3))
        } else if tag == 54 {
            if v == seq![49u8] {
                Ok((acc.0, Some(Side::Buy), acc.2, acc.3))
            } else if v == seq![50u8] {
                Ok((acc.0, Some(Side::Sell), acc.2, acc.3))
            } else {
                Err("invalid side")
            }
        } else if tag == 44 {
            match decimal_spec(v) {
                Ok(x) => Ok((acc.0, acc.1, Some(x), acc.3)),
                Err(e) => Err(e),
            }
        } else if tag == 38 {
            match decimal_spec(v) {
                Ok(x) => Ok((acc.0, acc.1, acc.2, Some(x))),
                Err(e) => Err(e),
            }
        } else {
            Ok(acc)
        },
    }
}

/// The fields after the first `n` chunks.
pub open spec fn fix_fold(chunks: Seq<Seq<u8>>, n: nat) -> Result<FixFields, &'static str>
    decreases n,
{
    if n == 0 || n > chunks.len() {
        Ok((None, None, None, None))
    } else {
        match fix_fold(chunks, (n - 1) as nat) {
            Ok(acc) => fix_step(acc, chunks[n - 1]),
            Err(e) => Err(e),
        }
    }
}

/// A FIX new-order message read as client order id, side, price and quantity; the first
/// missing one of these, in that order, is the error.
pub open spec fn parse_new_order_spec(raw: Seq<u8>) -> Result<(Seq<u8>, Side, i64, i64), &'static str> {
    let chunks = pieces_from(raw, SOH, 0);
    match fix_fold(chunks, chunks.len()) {
        Err(e) => Err(e),
        Ok((cl, side, px, qty)) => match cl {
            None => Err("missing 11"),
            Some(c) => match side {
                None => Err("missing 54"),
                Some(sd) => match px {
                    None => Err("missing 44"),
                    Some(p) => match qty {
                        None => Err("missing 38"),
                        Some(q) => Ok((c, sd, p, q)),
                    },
                },
            },
        },
    }
}

/// The field in a chunk, if it is one.
fn scan_field(chunk: &[u8]) -> (r: Option<(u16, &[u8])>)
    ensures
        match field_of(chunk@) {
            None => r is None,
            Some((t, v)) => r matches Some((t2, v2)) && t2 == t && v2@ == v,
        },
{
    let eq = find_sep(chunk, 61, 0);
    if eq >= chunk.len() {
        return None;
    }
    let head = vstd::slice::slice_subrange(chunk, 0, eq);
    match parse_u64(head) {
        Some(t) => {
            if t <= 0xffff {
                let v = vstd::slice::slice_subrange(chunk, eq + 1, chunk.len());
                Some((t as u16, v))
            } else {
                None
            }
        },
        None => None,
    }
}

/// A decimal field as an `i64`.
fn parse_decimal(bytes: &[u8]) -> (r: Result<i64, &'static str>)
    ensures
        r == decimal_spec(bytes@),
{
    match utf8_view(bytes) {
        None => Err("bad utf8"),
        Some(_) => match parse_i64(bytes) {
            Some(x) => Ok(x),
            None => Err("bad number"),
        },
    }
}

/// Reads a FIX new-order message; the client order id is borrowed from `raw`.
pub fn parse_new_order(raw: &[u8]) -> (r: Result<NewOrder<'_>, &'static str>)
    ensures
        match parse_new_order_spec(raw@) {
            Ok((c, sd, p, q)) => r matches Ok(o) && o.cl_ord_id@ == c && o.side == sd && o.px == p
                && o.qty == q,
            Err(e) => r matches Err(e2) && e2 == e,
        },
{
    let ghost chunks = pieces_from(raw@, SOH, 0);
    let mut cl_ord_id: Option<&[u8]> = None;
    let mut side: Option<Side> = None;
    let mut px: Option<i64> = None;
    let mut qty: Option<i64> = None;
    let mut start: usize = 0;
    let ghost mut n: nat = 0;
    loop
        invariant_except_break
            pieces_from(raw@, SOH, start as nat) == chunks.subrange(n as int, chunks.len() as int),
        invariant
            start <= raw@.len(),
            n <= chunks.len(),
            chunks == pieces_from(raw@, SOH, 0),
            fix_fold(chunks, n) == Ok::<FixFields, &'static str>(
                (
                    match cl_ord_id {
                        Some(c) => Some(c@),
                        None => None,
                    },
                    side,
                    px,
                    qty,
                ),
            ),
        ensures
            n == chunks.len(),
            fix_fold(chunks, n) == Ok::<FixFields, &'static str>(
                (
                    match cl_ord_id {
                        Some(c) => Some(c@),
                        None => None,
                    },
                    side,
                    px,
                    qty,
                ),
            ),
        decreases raw@.len() - start,
    {
        proof {
            lemma_sep_at(raw@, SOH, start as nat);
        }
        let e = find_sep(raw, SOH, start);
        let chunk = vstd::slice::slice_subrange(raw, start, e);
        let ghost rest = pieces_from(raw@, SOH, start as nat);
        assert(rest[0] == chunk@);
        assert(rest.len() >= 1);
        assert(chunks.subrange(n as int, chunks.len() as int)[0] == chunks[n as int]);
        assert(chunks[n as int] == chunk@);
        assert(fix_fold(chunks, n + 1) == fix_step(fix_fold(chunks, n)->Ok_0, chunk@));
        match scan_field(chunk) {
            None => {},
            Some((tag, value)) => {
                if tag == 11 {
                    cl_ord_id = Some(value);
                } else if tag == 54 {
                    if value.len() == 1 && value[0] == 49 {
                        assert(value@ =~= seq![49u8]);
                        side = Some(Side::Buy);
                    } else if value.len() == 1 && value[0] == 50 {
                        assert(value@ =~= seq![50u8]);
                        side = Some(Side::Sell);
                    } else {
                        assert(value@ != seq![49u8]);
                        assert(value@ != seq![50u8]);
                        proof {
                            lemma_fold_err_stays(chunks, n + 1, "invalid side");
                            assert(fix_fold(chunks, chunks.len()) == Err::<FixFields, &'static str>("invalid side"));
                        }
                        return Err("invalid side");
                    }
                } else if tag == 44 {
                    match parse_decimal(value) {
                        Ok(x) => {
                            px = Some(x);
                        },
                        Err(err) => {
                            proof {
                                lemma_fold_err_stays(chunks, n + 1, err);
                            }
                            return Err(err);
                        },
                    }
                } else if tag == 38 {
                    match parse_decimal(value) {
                        Ok(x) => {
                            qty = Some(x);
                        },
                        Err(err) => {
                            proof {
                                lemma_fold_err_stays(chunks, n + 1, err);
                            }
                            return Err(err);
                        },
                    }
                }
            },
        }
        proof {
            n = n + 1;
        }
        if e >= raw.len() {
            assert(rest.len() == 1);
            break;
        }
        assert(rest.drop_first() == pieces_from(raw@, SOH, (e + 1) as nat));
        assert(chunks.subrange(n as int, chunks.len() as int) =~= rest.drop_first());
        start = e + 1;
    }
    let cl = match cl_ord_id {
        Some(c) => c,
        None => {
            return Err("missing 11");
        },
    };
    let sd = match side {
        Some(x) => x,
        None => {
            return Err("missing 54");
        },
    };
    let p = match px {
        Some(x) => x,
        None => {
            return Err("missing 44");
        },
    };
    let q = match qty {
        Some(x) => x,
        None => {
            return Err("missing 38");
        },
    };
    Ok(NewOrder { cl_ord_id: cl, side: sd, px: p, qty: q })
}

/// Once the fold has failed, every longer fold fails with the same error.
proof fn lemma_fold_err_stays(chunks: Seq<Seq<u8>>, n: nat, e: &'static str)
    requires
        n <= chunks.len(),
        fix_fold(chunks, n) == Err::<FixFields, &'static str>(e),
    ensures
        fix_fold(chunks, chunks.len()) == Err::<FixFields, &'static str>(e),
    decreases chunks.len() - n,
{
    if n < chunks.len() {
        lemma_fold_err_stays(chunks, n + 1, e);
    }
}

} // verus!
