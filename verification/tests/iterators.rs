use rust_demo::iterators::basics::{handwritten_loop, iterator_chain, Fib};
use rust_demo::iterators::hft::{
    diff_levels, match_taker, parse, validate, vwap_stream, Bar, BarAggregator, Delta, Histogram, Level, Order,
    PortfolioState, RiskError, RollingVwap, Side, Trade,
};
use rust_demo::iterators::pitfalls::{dangerous, fast, safe, slow, MAX_RESULTS};
use rust_demo::iterators::strategies::{
    checked_sum, dedup_in_order, parse_records, running_max, stats, take_within_budget, GroupBy, KMerge,
};

#[test]
fn fib_stops_before_overflow() {
    let mut f = Fib::new();
    let mut out = Vec::new();
    while let Some(v) = f.next() {
        out.push(v);
    }
    assert_eq!(&out[..6], &[0, 1, 1, 2, 3, 5]);
    assert_eq!(out.len(), 92);
    assert_eq!(*out.last().unwrap(), 4660046610375530309);
    assert_eq!(f.next(), None);
}

#[test]
fn loop_and_chain_agree() {
    let prices = [50u64, 150, 200, 100, 101];
    assert_eq!(handwritten_loop(&prices), 902);
    assert_eq!(iterator_chain(&prices), 902);
    assert_eq!(slow(&prices), fast(&prices));
    assert_eq!(iterator_chain(&[]), 0);
}

#[test]
fn unbounded_and_bounded_collect() {
    assert_eq!(dangerous(5), vec![0, 1, 2, 3, 4]);
    assert_eq!(safe(3), vec![0, 1, 2]);
    assert_eq!(safe(20_000).len(), MAX_RESULTS);
}

#[test]
fn rolling_vwap_windows() {
    let mut v = RollingVwap::new(2);
    assert_eq!(v.push(Trade { ts_ns: 1, px: 100, qty: 10 }), Some(100));
    assert_eq!(v.push(Trade { ts_ns: 2, px: 110, qty: 10 }), Some(105));
    assert_eq!(v.push(Trade { ts_ns: 3, px: 120, qty: 20 }), Some(116));
    let trades = [
        Trade { ts_ns: 1, px: 100, qty: 10 },
        Trade { ts_ns: 2, px: 110, qty: -10 },
        Trade { ts_ns: 3, px: 120, qty: 20 },
    ];
    // zero total quantity yields nothing for that step
    assert_eq!(vwap_stream(&trades, 3), vec![100, 115]);
}

#[test]
fn level_diff() {
    let prev = [Level { px: 100, qty: 5 }, Level { px: 101, qty: 3 }, Level { px: 103, qty: 1 }];
    let curr = [Level { px: 100, qty: 5 }, Level { px: 101, qty: 4 }, Level { px: 102, qty: 2 }];
    assert_eq!(diff_levels(&prev, &curr), vec![Delta::Updated(101, 4), Delta::Inserted(102, 2), Delta::Removed(103)]);
    assert!(diff_levels(&prev, &prev).is_empty());
}

#[test]
fn pretrade_risk_chain() {
    let port = PortfolioState { net_pos: 990, last_mid: 10_000, own_resting_ids: vec![7] };
    let o = |id, side, px, qty| Order { id, side, px, qty };
    assert_eq!(validate(&o(1, Side::Buy, 10_000, 20), &port), Err(RiskError::OverPositionLimit));
    assert_eq!(validate(&o(1, Side::Sell, 10_101, 20), &port), Err(RiskError::PriceDeviation));
    assert_eq!(validate(&o(7, Side::Sell, 10_100, 20), &port), Err(RiskError::SelfMatch));
    assert_eq!(validate(&o(8, Side::Sell, 9_900, 20), &port), Ok(()));
}

#[test]
fn ohlcv_bars() {
    let trades = vec![
        Trade { ts_ns: 10, px: 100, qty: 1 },
        Trade { ts_ns: 20, px: 105, qty: 2 },
        Trade { ts_ns: 30, px: 98, qty: 1 },
        Trade { ts_ns: 70, px: 99, qty: 3 },
    ];
    let mut agg = BarAggregator::new(trades, 60);
    let b1: Bar = agg.next().unwrap();
    assert_eq!((b1.bucket_ns, b1.o, b1.h, b1.l, b1.c, b1.v), (0, 100, 105, 98, 98, 4));
    let b2 = agg.next().unwrap();
    assert_eq!((b2.bucket_ns, b2.o, b2.h, b2.l, b2.c, b2.v), (60, 99, 99, 99, 99, 3));
    assert!(agg.next().is_none());
}

#[test]
fn latency_histogram_buckets() {
    let h = Histogram::from_samples(&[0, 1, 1000, 1023, 1024, u64::MAX]);
    assert_eq!(h.0[0], 1);
    assert_eq!(h.0[1], 1);
    assert_eq!(h.0[10], 2);
    assert_eq!(h.0[11], 1);
    assert_eq!(h.0[31], 1);
    assert_eq!(h.0.iter().sum::<u64>(), 6);
}

#[test]
fn histogram_percentile_scan() {
    let h = Histogram::from_samples(&[1, 2, 3, 100]);
    assert_eq!(h.total(), 4);
    // p99 of 4 samples: target 3 is first reached at bucket 2
    assert_eq!(h.bucket_bound_reaching((4.0f64 * 0.99) as u64), 4);
    assert_eq!(h.bucket_bound_reaching(0), 1);
    assert_eq!(h.bucket_bound_reaching(4), 128);
    assert_eq!(h.bucket_bound_reaching(5), 0);
    let big = Histogram::from_samples(&[u64::MAX]);
    assert_eq!(big.bucket_bound_reaching(1), 1 << 31);
}

#[test]
fn wire_records() {
    let mut buf = Vec::new();
    for (ts, px, qty) in [(1u64, 100i64, 5i64), (2, -3, 7)] {
        buf.extend_from_slice(&ts.to_le_bytes());
        buf.extend_from_slice(&px.to_le_bytes());
        buf.extend_from_slice(&qty.to_le_bytes());
    }
    buf.extend_from_slice(&[1, 2, 3]);
    let t = parse(&buf);
    assert_eq!(t.len(), 2);
    assert_eq!((t[0].ts_ns, t[0].px, t[0].qty), (1, 100, 5));
    assert_eq!((t[1].ts_ns, t[1].px, t[1].qty), (2, -3, 7));
}

#[test]
fn taker_matching() {
    let taker = Order { id: 1, side: Side::Buy, px: 101, qty: 15 };
    let makers = [
        Order { id: 2, side: Side::Sell, px: 100, qty: 10 },
        Order { id: 3, side: Side::Sell, px: 101, qty: 10 },
        Order { id: 4, side: Side::Sell, px: 102, qty: 10 },
    ];
    let (left, fills) = match_taker(taker, &makers);
    assert_eq!(left, 0);
    let ids: Vec<(u64, i64)> = fills.iter().map(|(m, q)| (m.id, *q)).collect();
    assert_eq!(ids, vec![(2, 10), (3, 5)]);
    let big = Order { id: 9, side: Side::Buy, px: 101, qty: 50 };
    let (left2, fills2) = match_taker(big, &makers);
    assert_eq!(left2, 30);
    assert_eq!(fills2.len(), 2);
}

#[test]
fn generic_recipes() {
    let buf = [1u8, 2, 3, 4, 5, 6, 7];
    let r = parse_records(&buf, 2, |c: &[u8]| if c[0] % 3 == 0 { None } else { Some(c[0] as u32 + c[1] as u32) });
    assert_eq!(r, vec![3, 11]);
    assert_eq!(stats(&[3, -1, 7, 2, 5]), (-1, 7, 16, 5));
    assert_eq!(stats(&[]), (i64::MAX, i64::MIN, 0, 0));
    assert_eq!(running_max(&[3, 1, 4, 1, 5, 9, 2, 6]), vec![3, 3, 4, 4, 5, 9, 9, 9]);
    let mut g = GroupBy::new(vec![(1u64, 'a'), (1, 'b'), (2, 'c'), (3, 'd'), (3, 'e'), (1, 'f')], |e: &(u64, char)| e.0);
    let mut sizes = Vec::new();
    while let Some((k, items)) = g.next() {
        sizes.push((k, items.len()));
    }
    assert_eq!(sizes, vec![(1, 2), (2, 1), (3, 2), (1, 1)]);
    let mut m = KMerge::new(vec![vec![1, 4, 7], vec![2, 5, 8], vec![3, 6, 9, 10]]);
    let mut merged = Vec::new();
    while let Some(v) = m.next() {
        merged.push(v);
    }
    assert_eq!(merged, (1..=10).collect::<Vec<u64>>());
    assert_eq!(checked_sum(&[Ok(1), Ok(2), Ok(3)]), Ok(6));
    assert_eq!(checked_sum(&[Ok(1), Err("boom"), Ok(99_999)]), Err("boom"));
    let msgs = vec![("a", 300u64), ("b", 400), ("c", 500), ("d", 100)];
    let packed = take_within_budget(msgs, 1000, |m: &(&str, u64)| m.1);
    assert_eq!(packed, vec![("a", 300), ("b", 400)]);
    assert_eq!(dedup_in_order(&[1, 2, 2, 3, 1, 4, 3]), vec![1, 2, 3, 4]);
}
