use rust_demo::interior_mutability::basics::{decode_once, Book, Metrics, OrderBook as L2Book, PendingQueue, Session, SharedConfig};
use rust_demo::interior_mutability::hft::{
    Engine, FixSession, GatewayStats, InstrumentTable, Meta, Momentum, OrderBook as HftBook, OrderRateGate, Position,
};
use rust_demo::interior_mutability::pitfalls::{BadCounter, BadEngine, Config, GoodCounter, GoodEngine};
use rust_demo::interior_mutability::strategies::{counter_step, threshold, Counter, CounterCmd, MapCache, Queue, SeqGen, ShardedCounters, Slot};
use rust_demo::interior_mutability::web3::{DecoderTable, GasOracle, Indexer, NonceTracker, PendingBlock, PendingTx, SeenCache, TxPool};

#[test]
fn session_hands_out_consecutive_numbers() {
    let mut s = Session::new();
    assert_eq!(s.next_seq(), 1);
    assert_eq!(s.next_seq(), 2);
    assert_eq!(s.next_seq(), 3);
}

#[test]
fn l2_book_best_bid_follows_deltas() {
    let mut b = Book::new();
    assert_eq!(b.best_bid(), None);
    b.apply_delta(100, 5);
    b.apply_delta(101, 3);
    b.apply_delta(99, 7);
    assert_eq!(b.best_bid(), Some(101));
    b.apply_delta(101, 0);
    assert_eq!(b.best_bid(), Some(100));
    b.apply_delta(100, 9);
    assert_eq!(b.best_bid(), Some(100));

    let mut ob = L2Book::new();
    ob.on_l2(50, 1);
    ob.on_l2(52, 1);
    assert_eq!(ob.snapshot_best(), Some(52));
    ob.on_l2(52, 0);
    ob.on_l2(50, 0);
    assert_eq!(ob.snapshot_best(), None);
}

#[test]
fn metrics_config_and_queue() {
    let mut m = Metrics::new();
    m.record_fill();
    m.record_fill();
    assert_eq!(m.snapshot(), (2, 0));
    let mut c = SharedConfig::new(5);
    assert_eq!(c.tick_size(), 5);
    c.set_tick(10);
    assert_eq!(c.tick_size(), 10);
    let mut q = PendingQueue::new();
    q.push(1);
    q.push(2);
    assert_eq!(q.len(), 2);
    assert_eq!(decode_once(&[1, 2, 3]), 3);
}

#[test]
fn hft_book_sides_and_update_count() {
    let mut b = HftBook::new();
    b.on_l2(true, 100, 1);
    b.on_l2(false, 105, 1);
    b.on_l2(true, 102, 2);
    assert_eq!(b.best_bid(), Some(102));
    assert_eq!(b.updates, 3);
    b.on_l2(true, 102, 0);
    assert_eq!(b.best_bid(), Some(100));
}

#[test]
fn fix_session_gap_triggers_resend() {
    let mut s = FixSession::new();
    assert_eq!(s.next_out(), 1);
    assert_eq!(s.next_out(), 2);
    assert!(s.on_inbound(1));
    assert!(!s.on_inbound(5));
    assert_eq!(s.resends, 1);
    assert!(s.on_inbound(2));
    assert!(s.on_inbound(1));
}

#[test]
fn engine_dispatches_to_every_strategy() {
    let mut e = Engine::new();
    e.register(Box::new(Momentum { last: 0 }));
    e.register(Box::new(Momentum { last: 0 }));
    assert_eq!(e.count(), 2);
    e.dispatch(100);
    e.dispatch(101);
    assert_eq!(e.ticks, 2);
    assert_eq!(e.count(), 2);
}

#[test]
fn position_limit_and_rate_gate() {
    let mut p = Position::new();
    p.on_fill(10);
    p.on_fill(-25);
    assert_eq!(p.net_pos(), -15);
    assert_eq!(p.version, 2);
    assert!(p.within_limit(15));
    assert!(!p.within_limit(14));

    let mut g = OrderRateGate::new(2);
    assert!(g.try_acquire());
    assert!(g.try_acquire());
    assert!(!g.try_acquire());
    g.maybe_advance_window(500, 1000);
    assert!(!g.try_acquire());
    g.maybe_advance_window(1000, 1000);
    assert!(g.try_acquire());
}

#[test]
fn instrument_table_and_gateway_stats() {
    let entries = [(1u32, Meta { tick: 1, lot: 100 }), (2u32, Meta { tick: 5, lot: 10 }), (1u32, Meta { tick: 2, lot: 50 })];
    let mut t = InstrumentTable::new(&entries);
    assert_eq!(t.meta(1).map(|m| (m.tick, m.lot)), Some((2, 50)));
    assert_eq!(t.meta(2).map(|m| m.tick), Some(5));
    assert!(t.meta(3).is_none());
    t.upsert(3, Meta { tick: 7, lot: 1 });
    assert_eq!(t.meta(3).map(|m| m.tick), Some(7));

    let mut g = GatewayStats::new();
    g.record_sent();
    g.record_sent();
    g.record_ack();
    g.record_reject();
    assert_eq!(g.snapshot(), (2, 1, 1));
}

#[test]
fn interior_pitfalls_engines_and_counters() {
    let mut bad = BadEngine::new(vec![7]);
    bad.bad_dispatch();
    let mut good = GoodEngine::new(vec![7]);
    assert_eq!(good.good_dispatch(), vec![7, 1]);
    assert_eq!(good.good_dispatch(), vec![7, 1, 1]);
    let mut bc = BadCounter::new(1);
    bc.bad_inc_twice_racy();
    let mut gc = GoodCounter::new(u64::MAX);
    gc.good_inc();
    assert_eq!(gc.get(), 0);
    gc.good_inc();
    assert_eq!(gc.get(), 1);
    let mut cfg = Config::new(3);
    cfg.publish(9);
    assert_eq!(cfg.read(), 9);
}

#[test]
fn interior_strategies_cells_and_queues() {
    let mut g = SeqGen::new();
    assert_eq!(g.next(), 0);
    assert_eq!(g.next(), 1);
    let slot = Slot::new(10u64);
    let (slot, old) = slot.with_mut(|v| (v + 5, v));
    assert_eq!(old, 10);
    assert_eq!(slot.with_ref(|v| *v), 15);
    let mut c = Counter::new();
    c.inc();
    c.inc();
    assert_eq!(c.get(), 2);
    let mut m: MapCache<u64, u64> = MapCache::new();
    assert_eq!(m.get(1), None);
    m.insert(1, 10);
    m.insert(1, 11);
    assert_eq!(m.get(1), Some(11));
    let mut q: Queue<u32> = Queue::new();
    assert_eq!(q.pop(), None);
    q.push(1);
    q.push(2);
    assert_eq!(q.pop(), Some(2));
    assert_eq!(q.pop(), Some(1));
    assert_eq!(threshold(), 1_000_000);
    assert_eq!(counter_step(4, CounterCmd::Inc), (5, None));
    assert_eq!(counter_step(4, CounterCmd::Get), (4, Some(4)));
}

#[test]
fn sharded_counters_sum_all_shards() {
    let mut s = ShardedCounters::new(4);
    assert_eq!(s.total(), 0);
    s.inc(1);
    s.inc(5);
    s.inc(2);
    s.inc(7);
    assert_eq!(s.total(), 4);
}

#[test]
fn seen_cache_dedups_and_resets_at_capacity() {
    let mut c = SeenCache::new(2);
    assert!(c.check_and_insert([1; 32]));
    assert!(!c.check_and_insert([1; 32]));
    assert!(c.check_and_insert([2; 32]));
    assert_eq!((c.hits, c.inserts), (1, 2));
    // full: the next fresh hash clears the cache first
    assert!(c.check_and_insert([3; 32]));
    assert!(c.check_and_insert([1; 32]));
    assert!(!c.check_and_insert([3; 32]));
}

#[test]
fn nonce_tracker_and_decoder_table() {
    let mut n = NonceTracker::new(7);
    assert_eq!(n.take(), 7);
    assert_eq!(n.take(), 8);
    n.resync(3);
    assert_eq!(n.take(), 3);
    assert_eq!(n.resyncs, 1);

    let mut d = DecoderTable::new();
    assert_eq!(d.decoder_id([1; 20]), None);
    d.register([1; 20], 4);
    d.register([2; 20], 5);
    d.register([1; 20], 6);
    assert_eq!(d.decoder_id([1; 20]), Some(6));
    assert_eq!(d.decoder_id([2; 20]), Some(5));
}

#[test]
fn indexer_finalizes_and_rolls_back() {
    let mut ix = Indexer::new();
    for n in 1..=5u64 {
        ix.on_new_head(PendingBlock { num: n, hash: [n as u8; 32] });
    }
    assert_eq!(ix.pending_len(), 5);
    ix.finalize_through(2);
    assert_eq!(ix.pending_len(), 3);
    ix.rollback_to(3);
    assert_eq!(ix.pending_len(), 1);
}

#[test]
fn gas_oracle_and_tx_pool() {
    let mut g = GasOracle::new(10, 1);
    assert_eq!(g.quote(), (10, 1));
    g.publish(12, 2);
    assert_eq!(g.quote(), (12, 2));
    assert_eq!(g.updates, 1);

    let mut p = TxPool::new();
    for i in 0..5u64 {
        p.submit(PendingTx { hash: [i as u8; 32], nonce: i });
    }
    let first = p.drain_ready(2);
    assert_eq!(first.iter().map(|t| t.nonce).collect::<Vec<_>>(), vec![0, 1]);
    assert_eq!(p.len(), 3);
    let rest = p.drain_ready(10);
    assert_eq!(rest.iter().map(|t| t.nonce).collect::<Vec<_>>(), vec![2, 3, 4]);
    assert_eq!(p.len(), 0);
}
