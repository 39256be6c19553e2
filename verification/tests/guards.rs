use rust_demo::guards_ranges::basics::{audit, check, classify as quote_class, latency_bucket, Action, Order as AuditOrder, Quote};
use rust_demo::guards_ranges::hft::latency_sla::{route as sla_route, Route as SlaRoute};
use rust_demo::guards_ranges::hft::notional_tier::{route as tier_route, Order as TierOrder, Route as TierRoute};
use rust_demo::guards_ranges::hft::{classify as regime, check as stp, evaluate, on_order, validate, Action as KillAction, PxVerdict, Regime, SessionAction, Side, StpAction};
use rust_demo::guards_ranges::strategies::{accepts_traffic, assess, bucket, classify as sum_class, handle, normalize, opcode_class, route as req_route, Event, Request, Severity, State};
use rust_demo::guards_ranges::web3::blob_tx_validate::{validate as blob_validate, BlobVerdict};
use rust_demo::guards_ranges::web3::calldata_router::{classify as calldata, CalldataKind};
use rust_demo::guards_ranges::web3::chain_id_gate::{classify as chain_class, ChainSupport};
use rust_demo::guards_ranges::web3::transfer_bounds::{validate as transfer_validate, ValidateResult};
use rust_demo::guards_ranges::web3::{assess as finality, tier, FeeTier, Risk, TxKind};

#[test]
fn latency_buckets() {
    assert_eq!(latency_bucket(50), "ultra");
    assert_eq!(latency_bucket(51), "fast");
    assert_eq!(latency_bucket(1000), "slow");
    assert_eq!(latency_bucket(1001), "timeout");
}

#[test]
fn quote_checks() {
    assert_eq!(quote_class(Quote { px: 0, qty: 1 }, 100), "invalid_px");
    assert_eq!(quote_class(Quote { px: 100, qty: 0 }, 100), "invalid_qty");
    assert_eq!(quote_class(Quote { px: 105, qty: 1 }, 100), "ok");
    assert_eq!(quote_class(Quote { px: 106, qty: 1 }, 100), "out_of_band");
    assert_eq!(quote_class(Quote { px: -105, qty: 1 }, -100), "out_of_band");
}

#[test]
fn audit_line() {
    assert_eq!(audit(AuditOrder { id: 7, px: 100, qty: 5 }, 1000), "order#7 px=100 qty=5 → normal");
    assert_eq!(audit(AuditOrder { id: 8, px: 2000, qty: 5 }, 1000), "order#8 px=2000 qty=5 → fat_finger");
    assert_eq!(audit(AuditOrder { id: 9, px: -1, qty: 5000 }, 1000), "order#9 px=-1 qty=5000 → large");
}

#[test]
fn score_checks() {
    assert_eq!(check(-101, 0), Action::Block);
    assert_eq!(check(10, 6), Action::Block);
    assert_eq!(check(-1, 0), Action::Warn);
    assert_eq!(check(0, 5), Action::Clear);
}

#[test]
fn hft_guards() {
    assert_eq!(sla_route(10), SlaRoute::Fpga);
    assert_eq!(sla_route(50), SlaRoute::KernelBypass);
    assert_eq!(sla_route(200), SlaRoute::Userspace);
    assert_eq!(sla_route(201), SlaRoute::Degraded);
    assert_eq!(validate(0, 100, 5), PxVerdict::Zero);
    assert_eq!(validate(49, 100, 5), PxVerdict::FatFinger);
    assert_eq!(validate(201, 100, 5), PxVerdict::FatFinger);
    assert_eq!(validate(103, 100, 5), PxVerdict::OffTick);
    assert_eq!(validate(95, 100, 5), PxVerdict::Valid);
    assert_eq!(on_order(9, 30, false), SessionAction::Trade);
    assert_eq!(on_order(9, 30, true), SessionAction::Reject);
    assert_eq!(on_order(12, 15, false), SessionAction::QueueGtc);
    assert_eq!(on_order(14, 58, false), SessionAction::QueueGtc);
    assert_eq!(on_order(15, 0, false), SessionAction::Reject);
    assert_eq!(regime(2, 100, 200), Regime::Tight);
    assert_eq!(regime(2, 99, 200), Regime::Normal);
    assert_eq!(regime(20, 10, 10), Regime::Wide);
    assert_eq!(regime(101, 1000, 1000), Regime::Halt);
    assert_eq!(stp(Side::Bid, 7, Side::Ask, 7), StpAction::CancelAggressive);
    assert_eq!(stp(Side::Bid, 0, Side::Ask, 0), StpAction::CancelResting);
    assert_eq!(stp(Side::Bid, 7, Side::Bid, 7), StpAction::Allow);
    assert_eq!(evaluate(-1_000_000, 0, 0), KillAction::HardKill);
    assert_eq!(evaluate(0, 501, 0), KillAction::HardKill);
    assert_eq!(evaluate(-100_000, 0, 0), KillAction::SoftStop);
    assert_eq!(evaluate(0, 0, 20), KillAction::SoftStop);
    assert_eq!(evaluate(0, 100, 19), KillAction::Normal);
}

#[test]
fn notional_tiers() {
    let o = |side, px, qty| TierOrder { side, px, qty };
    assert!(matches!(tier_route(o(Side::Bid, 100, 1000), 0, 10_000), TierRoute::Internalize));
    assert!(matches!(tier_route(o(Side::Bid, 100, 1001), 0, 10_000), TierRoute::SmartRouter));
    assert!(matches!(tier_route(o(Side::Ask, 1000, 5001), 0, 10_000), TierRoute::AlgoDesk));
    assert!(matches!(tier_route(o(Side::Bid, 100, 10), 9_995, 10_000), TierRoute::Reject));
    assert!(matches!(tier_route(o(Side::Ask, 100, 10), -9_995, 10_000), TierRoute::Reject));
    assert!(matches!(tier_route(o(Side::Bid, -1, 10), 0, 10_000), TierRoute::Reject));
}

#[test]
fn web3_guards() {
    assert_eq!(blob_validate(0, 10, 1), BlobVerdict::Invalid);
    assert_eq!(blob_validate(6, 10, 10), BlobVerdict::Valid);
    assert_eq!(blob_validate(3, 9, 10), BlobVerdict::FeeTooLow);
    assert_eq!(blob_validate(7, 10, 1), BlobVerdict::TooManyBlobs);
    assert_eq!(calldata(&[]), CalldataKind::Empty);
    assert_eq!(calldata(&[0xa9, 0x05, 0x9c, 0xbb]), CalldataKind::Erc20Transfer);
    assert_eq!(calldata(&[0x09, 0x5e, 0xa7, 0xb3, 0]), CalldataKind::Erc20Approve);
    assert_eq!(calldata(&[0xa9, 0x05, 0x9c, 0xbb].repeat(18)), CalldataKind::ContractCall);
    assert_eq!(chain_class(1), ChainSupport::Ethereum);
    assert_eq!(chain_class(8453), ChainSupport::L2);
    assert_eq!(chain_class(11_155_111), ChainSupport::Testnet);
    assert_eq!(chain_class(56), ChainSupport::Unknown);
    assert_eq!(tier(TxKind::Legacy { gas_price: 1_000_000_000 }), FeeTier::Low);
    assert_eq!(tier(TxKind::Eip1559 { max_priority: 30_000_000_000 }), FeeTier::Market);
    assert_eq!(tier(TxKind::Eip1559 { max_priority: 100_000_000_000 }), FeeTier::Aggressive);
    assert_eq!(tier(TxKind::Legacy { gas_price: 100_000_000_001 }), FeeTier::Insane);
    assert_eq!(finality(100, 11), Risk::Pending);
    assert_eq!(finality(0, 0), Risk::Pending);
    assert_eq!(finality(5, 0), Risk::Probabilistic);
    assert_eq!(finality(31, 0), Risk::Safe);
    assert_eq!(finality(32, 10), Risk::Finalized);
    let a = [1u8; 20];
    assert_eq!(transfer_validate([0u8; 20], a, 1), ValidateResult::ZeroAddress);
    assert_eq!(transfer_validate(a, a, 0), ValidateResult::ZeroAmount);
    assert_eq!(transfer_validate(a, a, u128::MAX / 2 + 1), ValidateResult::Overflow);
    assert_eq!(transfer_validate(a, a, u128::MAX / 2), ValidateResult::Accepted);
}

#[test]
fn strategies_guards() {
    assert_eq!(bucket(33), "low");
    assert_eq!(bucket(66), "mid");
    assert_eq!(bucket(100), "high");
    assert_eq!(bucket(101), "out_of_range");
    assert_eq!(assess(-1001, 0), Severity::Critical);
    assert_eq!(assess(5, 11), Severity::Critical);
    assert_eq!(assess(-1, 0), Severity::Warn);
    assert_eq!(assess(0, 10), Severity::Clear);
    assert_eq!(req_route(Request { id: 1, payload_len: 0, priority: 10 }), "reject_empty");
    assert_eq!(req_route(Request { id: 1, payload_len: 5000, priority: 10 }), "express");
    assert_eq!(req_route(Request { id: 1, payload_len: 1025, priority: 1 }), "batch");
    assert_eq!(req_route(Request { id: 1, payload_len: 1024, priority: 9 }), "normal");
    assert_eq!(normalize(0, 0), Ok(0));
    assert_eq!(normalize(7, 5), Err("not_on_grid"));
    assert_eq!(normalize(-10, 5), Err("negative"));
    assert_eq!(normalize(10, 5), Ok(10));
    assert_eq!(handle(Event { seq: 3, code: 150 }), "seq=3 code=150 → alert");
    assert_eq!(handle(Event { seq: 4, code: 99 }), "seq=4 code=99 → ignore");
    assert_eq!(handle(Event { seq: 5, code: 151 }), "seq=5 code=151 → log");
    assert_eq!(handle(Event { seq: 6, code: 200 }), "seq=6 code=200 → escalate");
    assert_eq!(sum_class([-1, 0, 0]), "negative");
    assert_eq!(sum_class([7, 7, 0]), "lucky");
    assert_eq!(sum_class([0, 0, 0]), "lucky");
    assert_eq!(sum_class([50, 30, 1]), "small");
    assert_eq!(sum_class([100, 1, 1]), "large");
    assert_eq!(opcode_class(0), "stop");
    assert_eq!(opcode_class(4), "arithmetic");
    assert_eq!(opcode_class(0x60), "push");
    assert_eq!(opcode_class(0x80), "other");
    assert!(accepts_traffic(State::Draining, 89));
    assert!(!accepts_traffic(State::Active, 90));
    assert!(!accepts_traffic(State::Down, 0));
}
