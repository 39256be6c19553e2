use std::collections::HashMap;
use rust_demo::inline_caching::basics::{IcState, MonoIc, PolyIc, ShapeId};
use rust_demo::inline_caching::hft::{
    Band, BandIc, BookPic, FeedIc, HandlerIc, Limits, Meta, RiskIc, Signal, SignalIc, SymbolMetaCache, UpdateShape,
};
use rust_demo::inline_caching::strategies::{CacheFront, Generational, Guard, LocalityProbe, MonoCache, PolyCache};
use rust_demo::inline_caching::web3::{Backend, CallKey, CallPathIc, ChainIc, LayoutGuard, LayoutIc, SelectorIc, TokenIc, TopicIc};

#[test]
fn mono_ic_hit_returns_cached_value() {
    let mut ic = MonoIc::new();
    assert_eq!(ic.state(), IcState::Uninit);
    assert_eq!(ic.lookup(ShapeId(1), || 10), 10);
    assert_eq!(ic.lookup(ShapeId(1), || 99), 10);
    assert_eq!(ic.lookup(ShapeId(2), || 20), 20);
    assert_eq!(ic.state(), IcState::Mono);
    assert_eq!((ic.hits, ic.misses), (1, 2));
}

#[test]
fn poly_ic_goes_megamorphic() {
    let mut ic: PolyIc<2> = PolyIc::new();
    assert_eq!(ic.lookup(ShapeId(1), || 10), 10);
    assert_eq!(ic.state(), IcState::Mono);
    assert_eq!(ic.lookup(ShapeId(2), || 20), 20);
    assert_eq!(ic.state(), IcState::Poly);
    assert_eq!(ic.lookup(ShapeId(1), || 99), 10);
    assert_eq!(ic.lookup(ShapeId(3), || 30), 30);
    assert_eq!(ic.state(), IcState::Mega);
    assert_eq!(ic.lookup(ShapeId(3), || 99), 30);
    assert_eq!(ic.lookup(ShapeId(2), || 99), 20);
    assert_eq!((ic.hits, ic.misses), (3, 3));
}

#[test]
fn symbol_meta_cache() {
    let mut c = SymbolMetaCache::new(&[(1, Meta { tick_size: 1, lot_size: 100 }), (2, Meta { tick_size: 5, lot_size: 1 })]);
    assert_eq!(c.meta(2).map(|m| m.tick_size), Some(5));
    assert_eq!(c.meta(2).map(|m| m.lot_size), Some(1));
    assert!(c.meta(9).is_none());
    c.update_meta(2, Meta { tick_size: 7, lot_size: 1 });
    assert_eq!(c.meta(2).map(|m| m.tick_size), Some(7));
    assert_eq!(c.hits + c.misses, 4);
}

#[test]
fn handler_dispatch_lengths() {
    let mut h = HandlerIc::new();
    assert_eq!(h.dispatch(1, b"abc"), Some(4));
    assert_eq!(h.dispatch(2, b"abc"), Some(5));
    assert_eq!(h.dispatch(3, b"abc"), Some(3));
    assert_eq!(h.dispatch(9, b"abc"), None);
}

#[test]
fn book_paths() {
    let mut p = BookPic::new();
    assert_eq!(p.path(UpdateShape { side: 1, action: 2 }), 5);
    assert_eq!(p.path(UpdateShape { side: 1, action: 2 }), 5);
    assert_eq!(p.path(UpdateShape { side: 0, action: 1 }), 1);
    assert_eq!(p.path(UpdateShape { side: 2, action: 0 }), 6);
    assert_eq!((p.hits, p.misses), (1, 3));
}

#[test]
fn risk_limits_with_generations() {
    let mut r = RiskIc::new(&[(1, Limits { max_order: 10, max_pos: 100, gen: 0 })]);
    assert_eq!(r.limits(1).map(|l| l.max_order), Some(10));
    r.bump(1, Limits { max_order: 20, max_pos: 200, gen: 0 });
    let l = r.limits(1).unwrap();
    assert_eq!((l.max_order, l.gen), (20, 1));
    r.bump(5, Limits { max_order: 1, max_pos: 1, gen: 0 });
    assert_eq!(r.limits(5).map(|l| l.gen), Some(1));
    assert!(r.limits(6).is_none());
}

#[test]
fn feed_signal_band() {
    let mut f = FeedIc::new();
    assert_eq!(f.normalize(1, 100), Some(100));
    assert_eq!(f.normalize(2, 100), Some(400));
    assert_eq!(f.normalize(3, 100), None);
    let mut s = SignalIc::new();
    assert_eq!(s.handle(Signal::Entry), "entry");
    assert_eq!(s.handle(Signal::Hedge), "hedge");
    assert_eq!(s.handle(Signal::Cancel), "cancel");
    assert_eq!(s.handle(Signal::Exit), "exit");
    let mut table = HashMap::new();
    table.insert(1u32, Band { lo: 90, hi: 110 });
    let mut b = BandIc::new(table);
    assert!(b.accept(1, 100));
    assert!(!b.accept(1, 111));
    assert!(b.accept(2, 0));
    assert!(!b.accept(2, 1));
    b.widen(1, Band { lo: 0, hi: 200 });
    assert!(b.accept(1, 150));
    assert_eq!(b.rejects, 2);
}

#[test]
fn generic_caches() {
    let mut m: MonoCache<u32, u64> = MonoCache::new();
    assert_eq!(m.get_or_insert(1, || 10), 10);
    assert_eq!(m.get_or_insert(1, || 99), 10);
    m.invalidate();
    assert_eq!(m.get_or_insert(1, || 11), 11);
    assert_eq!((m.hits, m.misses), (1, 2));
    let mut p: PolyCache<u32, u64, 2> = PolyCache::new();
    assert_eq!(p.get_or_insert(1, || 10), 10);
    assert_eq!(p.get_or_insert(2, || 20), 20);
    assert_eq!(p.get_or_insert(3, || 30), 30);
    assert_eq!(p.get_or_insert(1, || 99), 10);
    assert_eq!(p.get_or_insert(2, || 21), 21);
    let mut front: CacheFront<u32, u64, 2> = CacheFront::new();
    assert_eq!(front.get_or_insert(1, || 1), 1);
    assert_eq!(front.get_or_insert(2, || 2), 2);
    assert_eq!(front.get_or_insert(3, || 3), 3);
    assert_eq!(front.get_or_insert(1, || 9), 1);
    let mut g: Generational<u32, u64> = Generational::new();
    assert_eq!(g.get(Guard { key: 1, gen: 1 }, || 5), 5);
    assert_eq!(g.get(Guard { key: 1, gen: 1 }, || 6), 5);
    assert_eq!(g.get(Guard { key: 1, gen: 2 }, || 7), 7);
    let mut probe: LocalityProbe<u32> = LocalityProbe::new();
    for k in [1, 1, 2, 2, 2, 3] {
        probe.observe(k);
    }
    assert_eq!((probe.same(), probe.total()), (3, 6));
}

fn word(v: u64) -> [u8; 32] {
    let mut w = [0u8; 32];
    w[24..].copy_from_slice(&v.to_be_bytes());
    w
}

#[test]
fn chain_caches() {
    let mut sel = SelectorIc::new();
    let mut swap = vec![0x38, 0xed, 0x17, 0x39];
    swap.extend_from_slice(&word(500));
    assert_eq!(sel.decode(&swap), Some(500));
    let mut approve = vec![0x09, 0x5e, 0xa7, 0xb3];
    approve.extend_from_slice(&word(1));
    approve.extend_from_slice(&word(77));
    assert_eq!(sel.decode(&approve), Some(77));
    assert_eq!(sel.decode(&approve[..40]), None);
    assert_eq!(sel.decode(&[1, 2, 3, 4]), None);
    let mut tok = TokenIc::new();
    let mut usdc = [0u8; 20];
    usdc[19] = 1;
    assert_eq!(tok.decimals(usdc), 6);
    assert_eq!(tok.decimals([2u8; 20]), 18);
    assert_eq!(tok.decimals(usdc), 6);
    assert_eq!(tok.rpc_calls, 2);
    tok.on_upgrade(usdc);
    let mut lay = LayoutIc::new();
    assert_eq!(lay.balance_slot(LayoutGuard { proxy: [1; 20], impl_gen: 1 }), 0);
    assert_eq!(lay.balance_slot(LayoutGuard { proxy: [1; 20], impl_gen: 2 }), 2);
    let mut topics = TopicIc::new();
    let mut t = [0u8; 32];
    t[0] = 0xdd;
    assert_eq!(topics.classify(t), Some(1));
    t[0] = 0xc4;
    assert_eq!(topics.classify(t), Some(3));
    t[5] = 1;
    assert_eq!(topics.classify(t), None);
    let mut calls = CallPathIc::new();
    let mut to = [0u8; 20];
    to[0] = 0x03;
    assert_eq!(calls.backend(CallKey { to, sel: [0; 4] }), Backend::UniV3Quoter);
    assert_eq!(calls.backend(CallKey { to: [0x02; 20], sel: [0; 4] }), Backend::UniV2Quoter);
    assert_eq!(calls.backend(CallKey { to: [0x09; 20], sel: [0; 4] }), Backend::GenericEvm);
    let mut chain = ChainIc::new();
    assert_eq!(chain.encode_tx(1, 5), Some(5));
    assert_eq!(chain.encode_tx(8453, 5), Some(1_000_005));
    assert_eq!(chain.encode_tx(42161, u64::MAX), Some(999_999));
    assert_eq!(chain.encode_tx(56, 5), None);
}

#[test]
fn caches_count_hits_and_misses() {
    let mut h = HandlerIc::new();
    assert_eq!(h.dispatch(1, b"ab"), Some(3));
    assert_eq!(h.dispatch(1, b"ab"), Some(3));
    assert_eq!(h.dispatch(9, b"ab"), None);
    assert_eq!(h.dispatch(1, b""), Some(1));
    assert_eq!((h.hits, h.misses), (2, 2));

    let mut p = BookPic::new();
    let a = UpdateShape { side: 0, action: 0 };
    let b = UpdateShape { side: 0, action: 1 };
    let c = UpdateShape { side: 1, action: 0 };
    p.path(a);
    p.path(b);
    p.path(b);
    p.path(c);
    p.path(b);
    assert_eq!((p.hits, p.misses), (2, 3));

    let mut chain = ChainIc::new();
    chain.encode_tx(1, 0);
    chain.encode_tx(56, 0);
    chain.encode_tx(1, 0);
    assert_eq!((chain.hits, chain.misses), (1, 2));

    let mut tok = TokenIc::new();
    let mut usdc = [0u8; 20];
    usdc[19] = 1;
    tok.decimals(usdc);
    tok.decimals(usdc);
    tok.on_upgrade(usdc);
    assert_eq!(tok.decimals(usdc), 6);
    assert_eq!((tok.rpc_calls, tok.hits), (1, 1));
}

#[test]
fn lookups_count_hits_and_misses() {
    let mut sel = SelectorIc::new();
    let mut swap = vec![0x38, 0xed, 0x17, 0x39];
    swap.extend_from_slice(&[0u8; 32]);
    for _ in 0..3 {
        sel.decode(&swap);
    }
    sel.decode(&[1, 2]);
    sel.decode(&[9, 9, 9, 9]);
    sel.decode(&swap);
    assert_eq!((sel.hits, sel.misses), (3, 2));

    let mut topics = TopicIc::new();
    let mut t = [0u8; 32];
    t[0] = 0x8c;
    topics.classify(t);
    topics.classify(t);
    topics.classify([7u8; 32]);
    topics.classify(t);
    assert_eq!((topics.hits, topics.misses), (2, 2));

    let mut f = FeedIc::new();
    f.normalize(2, 1);
    f.normalize(2, 1);
    f.normalize(5, 1);
    f.normalize(2, 1);
    assert_eq!((f.hits, f.misses), (2, 2));

    let mut calls = CallPathIc::new();
    let k = CallKey { to: [0x02; 20], sel: [1; 4] };
    calls.backend(k);
    calls.backend(k);
    calls.backend(CallKey { to: [0x02; 20], sel: [2; 4] });
    calls.backend(k);
    assert_eq!((calls.hits, calls.misses), (1, 3));

    let mut r = RiskIc::new(&[(1, Limits { max_order: 10, max_pos: 100, gen: 0 })]);
    r.limits(1);
    r.limits(1);
    r.bump(1, Limits { max_order: 20, max_pos: 200, gen: 0 });
    r.limits(1);
    r.limits(1);
    r.limits(9);
    assert_eq!((r.hits, r.misses), (2, 3));
}
