use std::borrow::Cow;
use rust_demo::lifetimes::basics::{first_word, longest, BookLevelView};
use rust_demo::lifetimes::hft::book_snapshot_view::{BookSnapshot, Level as SnapLevel};
use rust_demo::lifetimes::hft::fix_zero_copy::{parse_new_order, Side};
use rust_demo::lifetimes::hft::gateway_own_boundary::GatewayOrder;
use rust_demo::lifetimes::hft::hrtb_feed_handler::{FeedRouter, Tick};
use rust_demo::lifetimes::hft::market_ctx_pipeline::{run_pipeline, Level as CtxLevel, MarketCtx, MidPxStrategy};
use rust_demo::lifetimes::hft::static_symbol_table::SymbolRegistry;
use rust_demo::lifetimes::hft::tick_arena::process_tick;
use rust_demo::lifetimes::pitfalls::{good, good_lines, merge, on_message, parse as parse_view, ConnCache, Handler, LogHandler, SafeParser};
use rust_demo::lifetimes::strategies::{commit, normalize_id, parse as parse_draft, promote, split_frame, with_arena, Cache, Interner};
use rust_demo::lifetimes::web3::{decode_tx, parse_log, simulate_block, AbiCache, PooledTx};

#[test]
fn longest_prefers_first_on_tie() {
    assert_eq!(longest("short", "much longer string"), "much longer string");
    assert_eq!(longest("abc", "xyz"), "abc");
}

#[test]
fn first_word_skips_unicode_space() {
    assert_eq!(first_word("alpha beta gamma"), "alpha");
    assert_eq!(first_word("  \t\u{3000}héllo wörld"), "héllo");
    assert_eq!(first_word("   "), "");
    assert_eq!(first_word(""), "");
}

#[test]
fn tag_str_falls_back_on_bad_utf8() {
    let v = BookLevelView { px: 10050, qty: 500, venue_tag: b"NYSE" };
    assert_eq!(v.tag_str(), "NYSE");
    let bad = BookLevelView { px: 1, qty: 1, venue_tag: &[0xff, 0xfe] };
    assert_eq!(bad.tag_str(), "");
}

#[test]
fn parse_new_order_reads_fields() {
    let wire = b"11=ORD-20250723-001\x0154=1\x0144=10050\x0138=500\x01";
    let o = parse_new_order(wire).unwrap();
    assert_eq!(o.cl_ord_id, b"ORD-20250723-001");
    assert_eq!(o.side, Side::Buy);
    assert_eq!(o.px, 10050);
    assert_eq!(o.qty, 500);
    let owned = GatewayOrder::from_borrowed(o);
    assert_eq!(owned.cl_ord_id, b"ORD-20250723-001".to_vec());
    assert_eq!(owned.side, Side::Buy);
}

#[test]
fn parse_new_order_errors() {
    assert_eq!(parse_new_order(b"11=A\x0154=3\x0144=1\x0138=1").err(), Some("invalid side"));
    assert_eq!(parse_new_order(b"11=A\x0154=2\x0144=x\x0138=1").err(), Some("bad number"));
    assert_eq!(parse_new_order(b"11=A\x0154=2\x0144=\xff\x0138=1").err(), Some("bad utf8"));
    assert_eq!(parse_new_order(b"54=2\x0144=1\x0138=1").err(), Some("missing 11"));
    assert_eq!(parse_new_order(b"11=A\x0144=1\x0138=1").err(), Some("missing 54"));
    assert_eq!(parse_new_order(b"11=A\x0154=2\x0138=1").err(), Some("missing 44"));
    assert_eq!(parse_new_order(b"11=A\x0154=2\x0144=1").err(), Some("missing 38"));
    let o = parse_new_order(b"junk\x0111=B\x0199999=5\x0154=2\x0144=-7\x0138=+3").unwrap();
    assert_eq!(o.side, Side::Sell);
    assert_eq!(o.px, -7);
    assert_eq!(o.qty, 3);
}

#[test]
fn tick_levels_copy_tags_into_arena() {
    let bump = bumpalo::Bump::new();
    let deltas = [(10050i64, 200i64, "BID"), (10055, 150, "ASK")];
    let levels = process_tick(&bump, &deltas);
    assert_eq!(levels.len(), 2);
    assert_eq!(levels[0].px, 10050);
    assert_eq!(levels[1].tag, "ASK");
}

#[test]
fn mid_px_strategy_rounds_toward_zero() {
    let bids = [CtxLevel { px: 100_000, qty: 10 }, CtxLevel { px: 99_990, qty: 5 }];
    let ctx = MarketCtx { symbol: "BTC-USDT", bids: &bids, ts_ns: 1 };
    let mut s = MidPxStrategy;
    assert_eq!(run_pipeline(&ctx, &mut s), Some(100_002));
    let neg = [CtxLevel { px: -10, qty: 1 }];
    let ctx2 = MarketCtx { symbol: "X", bids: &neg, ts_ns: 1 };
    assert_eq!(run_pipeline(&ctx2, &mut s), Some(-7));
    let empty = MarketCtx { symbol: "X", bids: &[], ts_ns: 1 };
    assert_eq!(run_pipeline(&empty, &mut s), None);
}

#[test]
fn symbol_registry_roundtrip() {
    let reg = SymbolRegistry::from_static_list(&["BTC-USDT", "ETH-USDT", "SOL-USDT"]);
    let id = reg.resolve("ETH-USDT").unwrap();
    assert_eq!(id, 1);
    assert_eq!(reg.name(id), Some("ETH-USDT"));
    assert_eq!(reg.resolve("DOGE"), None);
    assert_eq!(reg.name(7), None);
    let dup = SymbolRegistry::from_static_list(&["A", "B", "A"]);
    assert_eq!(dup.resolve("A"), Some(2));
}

#[test]
fn snapshot_spread() {
    let bids = [SnapLevel { px: 100, qty: 50 }, SnapLevel { px: 99, qty: 30 }];
    let asks = [SnapLevel { px: 101, qty: 40 }];
    let snap = BookSnapshot { bids: &bids, asks: &asks, seq: 42 };
    assert_eq!(snap.spread(), Some(1));
    let none = BookSnapshot { bids: &bids, asks: &[], seq: 1 };
    assert_eq!(none.spread(), None);
}

#[test]
fn feed_router_counts() {
    let mut router = FeedRouter::new(|t: &Tick| {
        let _ = t.ask - t.bid;
    });
    router.dispatch(&Tick { bid: 100, ask: 101, ts_ns: 1 });
    let ring = [Tick { bid: 200, ask: 201, ts_ns: 2 }];
    router.dispatch(&ring[0]);
    assert_eq!(router.count, 2);
}

#[test]
fn pitfalls_fixes() {
    assert_eq!(good(), "owned");
    assert_eq!(parse_view(b"ORD-001").id, b"ORD-001");
    let mut p = SafeParser::new(b"ab");
    assert_eq!(p.current(), Some(b'a'));
    p.advance();
    assert_eq!(p.current(), Some(b'b'));
    p.advance();
    assert_eq!(p.current(), None);
    p.advance();
    assert_eq!(p.current(), None);
    assert_eq!(good_lines("hello world"), vec!["hello".to_string(), "world".to_string()]);
    assert_eq!(good_lines("  a\u{a0}b  c "), vec!["a".to_string(), "b".to_string(), "c".to_string()]);
    assert!(good_lines(" \n ").is_empty());
    let frame = "eth_getBlockByNumber".to_string();
    let mut cache = ConnCache { last_method: None };
    on_message(&mut cache, &frame);
    assert_eq!(cache.last_method, Some("eth_getBlockByNumber"));
    let t = [1u8, 2, 3];
    let ev = merge(&t, "Transfer");
    assert_eq!(ev.topic, &[1, 2, 3]);
    assert_eq!(ev.label, "Transfer");
    let h = LogHandler { tag: "indexer".to_string() };
    assert_eq!(h.name(), "indexer");
}

#[test]
fn strategies_recipes() {
    let v = split_frame(b"HDR:001BODY:payload", 7).unwrap();
    assert_eq!(v.header, b"HDR:001");
    assert_eq!(v.body, b"BODY:payload");
    assert!(split_frame(b"abc", 4).is_none());
    let sum = with_arena(|bump| {
        let tmp: &mut [i64] = bump.alloc_slice_fill_copy(3, 0);
        tmp.copy_from_slice(&[10, 20, 30]);
        tmp.iter().sum::<i64>()
    });
    assert_eq!(sum, 60);
    let owned = normalize_id(Cow::Borrowed(b"ORD-123"));
    assert!(matches!(owned, Cow::Owned(_)));
    assert_eq!(&*owned, b"ORD-123");
    assert_eq!(&*promote(b"wire").bytes, b"wire");
    let mut interner = Interner::new();
    let a = interner.intern("BTC-USDT");
    let b = interner.intern("ETH-USDT");
    let c = interner.intern("BTC-USDT");
    assert_eq!((a, b, c), (0, 1, 0));
    assert_eq!(interner.resolve(b), "ETH-USDT");
    let committed = commit(parse_draft("pending"));
    assert_eq!(committed.field, "pending");
    let mut cache = Cache::new();
    cache.insert(1, "hello");
    cache.insert(2, "world");
    cache.insert(1, "again");
    assert_eq!(cache.get(1), Some("again"));
    assert_eq!(cache.get(2), Some("world"));
    assert_eq!(cache.get(3), None);
}

#[test]
fn decode_tx_layout() {
    let mut raw = vec![0u8; 68 + 4];
    raw[..32].fill(0xAB);
    raw[32..52].fill(0xCD);
    raw[52..68].copy_from_slice(&1_000_000_000_000_000_000u128.to_be_bytes());
    raw[68..].copy_from_slice(&[0xA9, 0x05, 0x9C, 0xBB]);
    let tx = decode_tx(&raw).unwrap();
    assert_eq!(tx.hash, [0xAB; 32]);
    assert_eq!(tx.to, Some([0xCD; 20]));
    assert_eq!(tx.value_wei, 1_000_000_000_000_000_000);
    assert_eq!(tx.input, &[0xA9, 0x05, 0x9C, 0xBB]);
    let pooled = PooledTx::promote(tx, &raw);
    assert_eq!(pooled.hash, [0xAB; 32]);
    assert_eq!(pooled.raw.len(), 72);
    assert_eq!(decode_tx(&raw[..67]).err(), Some("too short"));
}

#[test]
fn parse_log_layout() {
    let mut raw = Vec::new();
    raw.extend_from_slice(&[0xEE; 20]);
    raw.push(32);
    raw.extend_from_slice(&[0xDE; 32]);
    raw.extend_from_slice(b"indexed_payload");
    let log = parse_log(&raw).unwrap();
    assert_eq!(log.address, [0xEE; 20]);
    assert_eq!(log.topic0.map(|t| t.len()), Some(32));
    assert_eq!(log.data, b"indexed_payload");
    let mut no_topic = vec![0x11; 20];
    no_topic.push(0);
    no_topic.extend_from_slice(b"d");
    let l2 = parse_log(&no_topic).unwrap();
    assert!(l2.topic0.is_none());
    assert_eq!(l2.data, b"d");
    assert_eq!(parse_log(&[0u8; 20]).err(), Some("short"));
    let mut bad = vec![0u8; 20];
    bad.push(5);
    assert_eq!(parse_log(&bad).err(), Some("bad topic"));
}

#[test]
fn block_sim_keeps_owned_labels() {
    let report = simulate_block(&[("uniswap_v3_swap", 120_000), ("weth_deposit", 45_000)]);
    assert_eq!(report.total_gas, 165_000);
    assert_eq!(report.step_labels, vec!["uniswap_v3_swap".to_string(), "weth_deposit".to_string()]);
}

#[test]
fn abi_cache_reload_makes_owned() {
    let mut cache = AbiCache::from_static(r#"{"name":"transfer","type":"function"}"#);
    let snap = cache.get();
    assert!(matches!(snap, Cow::Borrowed(_)));
    assert_eq!(snap.len(), 37);
    cache.hot_reload(r#"{"updated":true}"#.to_string());
    let after = cache.get();
    assert!(matches!(after, Cow::Owned(_)));
    assert_eq!(&*after, r#"{"updated":true}"#);
}
