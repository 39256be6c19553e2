use std::marker::PhantomData;
use rust_demo::generics::basics::{add_same_unit as add_price, max, merge_sorted, wire_len, AsciiTag, Encoder, Price, RingBuf, U64Le, UsdCents};
use rust_demo::generics::hft::{
    cme_to_binance, decode, Bus, Check, Engine, FixSpec, Histogram, ItchSpec, LoggingHandler, OrderCtx, Pipeline, PositionLimit,
    Price as VenuePrice, PriceBand, SpscQueue, Strategy, TickEvent, Twap, VenueCme, Side,
};
use rust_demo::generics::pitfalls::{
    double, price_tag, run_dyn, run_static, serialize_cold, serialize_u32, serialize_u64, transform, LocalId, RuntimeBuf, Scalar,
    Scalper,
};
use rust_demo::generics::strategies::{
    add_same_unit, decode_with, write_one, Client, Double, DynScalar, LeU64Codec, Max, Meters, Min, Prod, Registry, Runner,
    Staging, StackBuffer, Tagged, Uppercase, Utf8Codec, Validate, I32,
};
use rust_demo::generics::web3::{
    encode_call, parse_hex_block_number, Address, Arbitrum, Eip1559Body, EvmIsa, EvmOp, Filter, Interpreter, MinGas,
    PendingTx, RouterWhitelist, RpcClient, SelectorIs, SolType, TxEnvelope, U256,
};

#[test]
fn max_and_merge() {
    assert_eq!(max(3, 7), 7);
    assert_eq!(max(7, 7), 7);
    assert_eq!(merge_sorted(vec![1, 4, 9], vec![2, 3, 10, 11]), vec![1, 2, 3, 4, 9, 10, 11]);
    assert_eq!(merge_sorted(vec![], vec![5]), vec![5]);
}

#[test]
fn encoders() {
    assert_eq!(U64Le(0x0102).encode(), vec![2, 1, 0, 0, 0, 0, 0, 0]);
    assert_eq!(AsciiTag("BTC").encode(), b"BTC".to_vec());
    assert_eq!(wire_len(&U64Le(5)), 8);
    assert_eq!(wire_len(&AsciiTag("ETHUSD")), 6);
}

#[test]
fn ring_buffer_evicts_oldest() {
    let mut rb: RingBuf<u32, 3> = RingBuf::new();
    assert_eq!(rb.push(1), None);
    assert_eq!(rb.push(2), None);
    assert_eq!(rb.push(3), None);
    assert_eq!(rb.push(4), Some(1));
    assert_eq!(rb.push(5), Some(2));
    assert_eq!(rb.len(), 3);
}

#[test]
fn unit_prices() {
    let a: Price<UsdCents> = Price::new(150);
    let b: Price<UsdCents> = Price::new(-20);
    assert_eq!(add_price(a, b).ticks(), 130);
    let p: VenuePrice<VenueCme> = VenuePrice::new(25);
    assert_eq!(cme_to_binance(p).raw(), 100);
}

#[test]
fn spsc_queue_fifo() {
    let mut q: SpscQueue<u32, 2> = SpscQueue::new();
    assert_eq!(q.try_push(1), Ok(()));
    assert_eq!(q.try_push(2), Ok(()));
    assert_eq!(q.try_push(3), Err(3));
    assert_eq!(q.try_pop(), Some(1));
    assert_eq!(q.try_push(4), Ok(()));
    assert_eq!(q.try_pop(), Some(2));
    assert_eq!(q.try_pop(), Some(4));
    assert_eq!(q.try_pop(), None);
    assert_eq!(q.len(), 0);
}

#[test]
fn twap_engine() {
    let mut t = Twap::new(2, 50);
    assert_eq!(t.on_tick(100), Some((Side::Buy, 50)));
    assert_eq!(t.on_tick(100), Some((Side::Buy, 50)));
    assert_eq!(t.on_tick(100), None);
    let mut e = Engine::new(Twap::new(3, 10));
    assert_eq!(e.run_ticks(&[1, 2, 3, 4, 5]), 3);
}

#[test]
fn check_pipeline_short_circuits() {
    let p = Pipeline::new((PriceBand { max_px: 100 }, PositionLimit { max_abs: 50 }));
    assert_eq!(p.run(&OrderCtx { px: 90, qty: 10, position: 30 }), Ok(()));
    assert_eq!(p.run(&OrderCtx { px: 101, qty: 100, position: 30 }), Err("price above band"));
    assert!(p.run(&OrderCtx { px: 90, qty: 30, position: 30 }).is_err());
    assert!(PriceBand { max_px: 5 }.validate(&OrderCtx { px: 5, qty: 0, position: 0 }).is_ok());
}

#[test]
fn frame_layouts() {
    let fix = decode::<FixSpec>(b"ORD42|1x0_5").unwrap();
    assert_eq!(fix.order_id, b"ORD42");
    assert_eq!(fix.price, 105);
    assert!(decode::<FixSpec>(b"nosep").is_none());
    let itch = decode::<ItchSpec>(b"AAPL\x10\x27\x00\x00").unwrap();
    assert_eq!(itch.stock, b"AAPL");
    assert_eq!(itch.shares, 10_000);
    assert!(decode::<ItchSpec>(b"A\x01\x00\x00").is_none());
}

#[test]
fn latency_histogram_first_bound() {
    let mut h: Histogram<3> = Histogram::new([10, 100, 1000]);
    for s in [5, 10, 11, 1000, 1001, 50] {
        h.record(s);
    }
    assert_eq!((h.bucket(0), h.bucket(1), h.bucket(2), h.overflow()), (2, 2, 1, 1));
    let mut bus = Bus::new(LoggingHandler);
    bus.publish(&TickEvent { px: 1 });
}

#[test]
fn generics_pitfalls_fixes() {
    assert_eq!(transform(3, |x: i32| x + 1), 4);
    assert_eq!(price_tag(42), "px=42");
    assert_eq!(run_dyn(&Scalper), 1);
    assert_eq!(run_static(&Scalper), 1);
    assert_eq!(double(21u64), 441);
    assert_eq!(double(3i32), 9);
    let b: RuntimeBuf<u8> = RuntimeBuf::with_capacity(16);
    assert_eq!(b.capacity(), 16);
    assert_eq!(LocalId(7).display(), "id:7");
    assert_eq!(serialize_u64(1), [1, 0, 0, 0, 0, 0, 0, 0]);
    assert_eq!(serialize_u32(0x01020304), [4, 3, 2, 1]);
    assert_eq!(serialize_cold(Scalar::U32(1)), vec![1, 0, 0, 0]);
    assert_eq!(serialize_cold(Scalar::U64(1)).len(), 8);
}

#[test]
fn generics_strategies_recipes() {
    let a: Tagged<u32, Meters> = Tagged::new(3);
    let b: Tagged<u32, Meters> = Tagged::new(4);
    assert_eq!(*add_same_unit(a, b).inner(), 7);
    let mut sb: StackBuffer<u8, 2> = StackBuffer::new();
    assert!(sb.push(1));
    assert!(sb.push(2));
    assert!(!sb.push(3));
    assert_eq!(sb.len(), 2);
    let mut r = Runner::new(Double);
    assert_eq!(r.run(&[1, 2, 3]), 12);
    assert_eq!((Min(0), Max(10)).check(&5), Ok(()));
    assert_eq!((Min(0), Max(10)).check(&-1), Err("below min"));
    assert_eq!((Min(0), Max(10)).check(&11), Err("above max"));
    assert_eq!(decode_with::<LeU64Codec>(&[1, 0, 0, 0, 0, 0, 0, 0]), Some(1));
    assert_eq!(decode_with::<LeU64Codec>(&[1, 0]), None);
    assert_eq!(decode_with::<Utf8Codec>(b"hi"), Some("hi".to_string()));
    assert_eq!(decode_with::<Utf8Codec>(&[0xff]), None);
    assert_eq!(Client::<Prod> { _e: PhantomData }.config_summary(), ("ap-sg-1", 500));
    assert_eq!(Client::<Staging> { _e: PhantomData }.config_summary(), ("ap-sg-stg", 5000));
    let mut reg = Registry::new();
    reg.register(Box::new(Uppercase));
    assert_eq!(reg.run_all("abc"), vec!["ABC".to_string()]);
    let mut buf = Vec::new();
    write_one(&I32(-1), &mut buf);
    DynScalar::Str("ok".to_string()).write(&mut buf);
    DynScalar::I32(2).write(&mut buf);
    assert_eq!(buf, vec![0xff, 0xff, 0xff, 0xff, b'o', b'k', 2, 0, 0, 0]);
}

#[test]
fn abi_words_and_calls() {
    let w = U256::from_u64(0x0102);
    assert_eq!(w.0[30..], [1, 2]);
    assert_eq!(w.to_u64(), 0x0102);
    let a = Address([0x11; 20]);
    let enc = a.encode();
    assert_eq!(&enc[..12], &[0u8; 12]);
    assert_eq!(Address::decode(&enc).map(|x| x.0), Some([0x11; 20]));
    assert!(Address::decode(&enc[..31]).is_none());
    assert_eq!(Address::zero().0, [0u8; 20]);
    let call = encode_call([0xa9, 0x05, 0x9c, 0xbb], &w);
    assert_eq!(call.len(), 36);
    assert_eq!(call[35], 2);
}

#[test]
fn envelopes_and_chains() {
    let env = TxEnvelope {
        body: Eip1559Body { nonce: 0, max_fee: 10, priority_fee: 1, gas: 21_000, chain_id: 42_161 },
        signature: [0u8; 65],
    };
    assert_eq!(env.max_cost_wei(100), 2_100_000);
    assert_eq!(env.max_cost_wei(u64::MAX), u64::MAX);
    assert!(env.validate_chain(42_161).is_ok());
    assert!(env.validate_chain(1).is_err());
    assert_eq!(parse_hex_block_number("0x1b4"), Some(436));
    assert_eq!(parse_hex_block_number("0x0x10"), Some(16));
    assert_eq!(parse_hex_block_number("0x"), None);
    assert_eq!(parse_hex_block_number("0xzz"), None);
    let c: RpcClient<Arbitrum> = RpcClient::new("https://arb1");
    assert_eq!(c.chain_name(), "arbitrum");
    assert_eq!(c.handle_block_response("0xff"), Some(255));
}

#[test]
fn mempool_filters_and_interpreter() {
    let tx = PendingTx { to: [7; 20], selector: [0xa9, 0x05, 0x9c, 0xbb], gas_price: 50 };
    let f = Filter::new((MinGas(30), (RouterWhitelist([[1; 20], [7; 20]]), SelectorIs([0xa9, 0x05, 0x9c, 0xbb]))));
    assert!(f.accept(&tx));
    let strict = Filter::new((MinGas(60), SelectorIs([0xa9, 0x05, 0x9c, 0xbb])));
    assert!(!strict.accept(&tx));
    let mut vm: Interpreter<EvmIsa> = Interpreter::new();
    assert_eq!(vm.step(EvmOp::Push), Ok(()));
    assert_eq!(vm.step(EvmOp::Push), Ok(()));
    assert_eq!(vm.step(EvmOp::Add), Ok(()));
    assert_eq!(vm.peek(), Some(2));
    assert_eq!(vm.step(EvmOp::Stop), Err("halt"));
    assert_eq!(vm.step(EvmOp::Add), Err("stack underflow"));
    assert_eq!(vm.peek(), None);
    assert_eq!(u8::from(EvmOp::Add), 1);
}

#[test]
fn engine_counts_each_emitted_order() {
    let mut eng = Engine::new(Twap::new(2, 100));
    assert_eq!(eng.run_ticks(&[100, 101, 102, 103]), 2);
    assert_eq!(eng.run_ticks(&[104]), 2);
}

#[test]
fn pipeline_names_the_first_rejecting_rule() {
    let pipe = Pipeline::new((PriceBand { max_px: 105 }, PositionLimit { max_abs: 500 }));
    assert_eq!(pipe.run(&OrderCtx { px: 100, qty: 50, position: 100 }), Ok(()));
    assert_eq!(pipe.run(&OrderCtx { px: 110, qty: 50, position: 100 }), Err("price above band"));
    assert_eq!(pipe.run(&OrderCtx { px: 100, qty: 450, position: 100 }), Err("position limit"));
    assert_eq!(pipe.run(&OrderCtx { px: 110, qty: 450, position: 100 }), Err("price above band"));
}

#[test]
fn bus_and_typed_names() {
    let mut bus = Bus::new(LoggingHandler);
    bus.publish(&TickEvent { px: 7 });
    let eth: RpcClient<rust_demo::generics::web3::Ethereum> = RpcClient::new("https://eth");
    assert_eq!(eth.chain_name(), "ethereum");
}

#[test]
fn ring_and_queue_over_many_calls() {
    let mut rb: RingBuf<u32, 3> = RingBuf::new();
    for v in 1..=5 {
        rb.push(v);
    }
    assert_eq!(rb.len(), 3);
    let mut q: SpscQueue<u32, 2> = SpscQueue::new();
    let mut popped = Vec::new();
    for v in 1..=4 {
        let _ = q.try_push(v);
        if v % 2 == 0 {
            popped.extend(q.try_pop());
        }
    }
    while let Some(v) = q.try_pop() {
        popped.push(v);
    }
    assert_eq!(popped, vec![1, 2, 3]);
}
