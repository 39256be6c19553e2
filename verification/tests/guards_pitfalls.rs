use rust_demo::guards_ranges::pitfalls::{
    bucket_bad, bucket_good, classify_bad, classify_good, expensive, fee_tier_bad, fee_tier_good, label_with_guard,
    log_bad, log_good, pnl_band_bad, pnl_band_good, route_bad, route_good, Fill, Level, Status,
};

#[test]
fn bucket_boundaries() {
    let bad: Vec<&str> = [99, 100, 199, 200].iter().map(|&p| bucket_bad(p)).collect();
    let good: Vec<&str> = [99, 100, 199, 200].iter().map(|&p| bucket_good(p)).collect();
    assert_eq!(bad, vec!["a", "b", "c", "c"]);
    assert_eq!(good, vec!["a", "b", "b", "c"]);
    assert_eq!(bucket_good(-1), "invalid");
    assert_eq!(bucket_bad(-1), "c");
}

#[test]
fn guard_order() {
    assert_eq!(classify_bad(-200_000), Level::Warn);
    assert_eq!(classify_good(-200_000), Level::Kill);
    assert_eq!(classify_good(-5), Level::Warn);
    assert_eq!(classify_good(0), Level::Clear);
    assert_eq!(classify_good(-100_000), Level::Warn);
}

#[test]
fn routes_and_tiers() {
    assert!(expensive(100));
    assert_eq!(route_good(100), "fast");
    assert_eq!(route_bad(101), "slow");
    assert_eq!(fee_tier_bad(15), "high");
    assert_eq!(fee_tier_good(15), "mid");
    assert_eq!(fee_tier_good(10), "low");
    assert_eq!(fee_tier_good(51), "high");
    assert_eq!(pnl_band_bad(-50), "other");
    assert_eq!(pnl_band_good(-50), "loss");
    assert_eq!(pnl_band_good(100), "profit");
    assert_eq!(pnl_band_good(101), "big_profit");
    assert_eq!(label_with_guard(Status::Open), "open");
    assert_eq!(label_with_guard(Status::Filled), "filled");
}

#[test]
fn fill_patterns() {
    let fill = Fill { id: 1, qty: 10 };
    assert_eq!(log_good(&fill), 10);
    assert_eq!(fill.id, 1);
    assert_eq!(log_good(&Fill { id: 2, qty: -3 }), 0);
    assert_eq!(log_bad(Fill { id: 3, qty: -3 }), -3);
}
