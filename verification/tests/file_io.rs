use rust_demo::file_io::basics::{
    buffered_line_reads, random_read_nth, read_loop, sequential_sum, tail_from_offset, unbuffered_byte_reads, FsyncPolicy,
    JournalWriter,
};
use rust_demo::file_io::hft::{apply_config_text, replay_wal, replay_wal_checked, trim_whitespace, AofCounters, Durability, RiskConfig, SpillCounter, State as WalState, TapeView};
use rust_demo::file_io::linux_kernel_io::aio::{aligned_len, demo_payload, BLOCK};
use rust_demo::file_io::pitfalls::{
    bad_count, bad_join, bad_journal, classify, components, good_count, good_handler, good_join, good_journal,
    good_line_count, WriteResult, READER_CAPACITY,
};
use rust_demo::file_io::strategies::{
    accept_new, count_nonempty_lines, get_record, list, replay, stride_records, FsyncMode, Journal, Metrics, PartitionLayout,
    State as SumState,
};
use rust_demo::file_io::web3::{
    checksum, decode_header, encode_header, ChainEndpoint, ConfigStore, EventKey, EventLog, Manifest, PinEntry,
    SnapshotHeader,
};
use std::collections::hash_map::DefaultHasher;
use std::hash::{Hash, Hasher};

fn tick_bytes(ticks: &[(u64, i64)]) -> Vec<u8> {
    let mut v = Vec::new();
    for (s, p) in ticks {
        v.extend_from_slice(&s.to_le_bytes());
        v.extend_from_slice(&p.to_le_bytes());
    }
    v
}

#[test]
fn basic_reads() {
    assert_eq!(sequential_sum(&[1, 2, 250]), 253);
    assert_eq!(random_read_nth(&[10, 11, 12, 13, 14], 2, 2), Some(14));
    assert_eq!(random_read_nth(&[10, 11, 12, 13, 14], 2, 3), None);
    assert_eq!(random_read_nth(&[1], usize::MAX, 2), None);
    assert_eq!(unbuffered_byte_reads(b"abc"), 3);
    assert_eq!(buffered_line_reads(b"a\nb\nc"), 3);
    assert_eq!(buffered_line_reads(b"a\n\xff\nc"), 1);
    assert_eq!(buffered_line_reads(b""), 0);
    let t = read_loop(&tick_bytes(&[(1, 100), (2, -5)]));
    assert_eq!(t.len(), 2);
    assert_eq!((t[1].seq, t[1].px), (2, -5));
    assert_eq!(tail_from_offset(b"header|body", 7), b"body");
}

#[test]
fn journal_fsync_policies() {
    let mut every2 = JournalWriter::new(FsyncPolicy::EveryN(2));
    for _ in 0..5 {
        every2.append(b"r");
    }
    assert_eq!(every2.records, 5);
    assert_eq!(every2.fsync_calls, 2);
    let mut always = JournalWriter::new(FsyncPolicy::Always);
    always.append(b"x");
    always.append(b"y");
    assert_eq!(always.fsync_calls, 2);
    let mut os = JournalWriter::new(FsyncPolicy::OsDefault);
    os.append(b"x");
    assert_eq!(os.fsync_calls, 0);
}

#[test]
fn tape_view_reads_records() {
    let bytes = tick_bytes(&[(7, 100), (8, 101), (9, 99)]);
    let mut with_tail = bytes.clone();
    with_tail.push(0);
    let tape = TapeView::open(&with_tail);
    assert_eq!(tape.len(), 3);
    assert_eq!(tape.get(1).map(|t| (t.seq, t.px)), Some((8, 101)));
    assert!(tape.get(3).is_none());
    assert_eq!(tape.iter().iter().map(|t| t.px).collect::<Vec<_>>(), vec![100, 101, 99]);
}

#[test]
fn aof_and_spill_counters() {
    let mut aof = AofCounters::new(Durability::Batch(3));
    assert!(!aof.on_append());
    assert!(!aof.on_append());
    assert!(aof.on_append());
    aof.on_synced();
    assert_eq!((aof.records, aof.fsyncs), (3, 1));
    let mut per = AofCounters::new(Durability::PerRecord);
    assert!(per.on_append());
    let mut sp = SpillCounter::new();
    sp.spilled(12);
    sp.spilled(12);
    assert_eq!((sp.seg_id, sp.spilled_bytes), (2, 24));
    assert_eq!(sp.segment_name(), "spill_000002.seg");
    for id in [0u64, 9, 123_456, 999_999, 1_000_000, u64::MAX] {
        let c = SpillCounter { seg_id: id, spilled_bytes: 0 };
        assert_eq!(c.segment_name(), format!("spill_{:06}.seg", id));
    }
}

#[test]
fn wal_replay_sums_deltas() {
    let st = replay_wal(b"1,10\n2,-3\r\n", WalState::default());
    assert_eq!((st.position, st.last_seq), (7, 2));
    let empty = replay_wal(b"", WalState { position: 5, last_seq: 9 });
    assert_eq!((empty.position, empty.last_seq), (5, 9));
}

#[test]
fn risk_config_reload() {
    assert_eq!(trim_whitespace(b"  2,2000000\n"), b"2,2000000");
    let mut cfg = RiskConfig { version: 1, max_notional: 1_000_000 };
    assert!(apply_config_text(&mut cfg, b"2,2000000\n"));
    assert_eq!((cfg.version, cfg.max_notional), (2, 2_000_000));
    assert!(!apply_config_text(&mut cfg, b"1,5"));
    assert_eq!((cfg.version, cfg.max_notional), (2, 2_000_000));
    assert!(apply_config_text(&mut cfg, b" 2,-7 "));
    assert_eq!(cfg.max_notional, -7);
    // whitespace beyond ASCII is trimmed as `str::trim` trims it
    let text = "\u{3000}\u{a0}3,42\u{2029}\u{85}\t";
    assert_eq!(trim_whitespace(text.as_bytes()), text.trim().as_bytes());
    assert!(apply_config_text(&mut cfg, text.as_bytes()));
    assert_eq!((cfg.version, cfg.max_notional), (3, 42));
    assert!(apply_config_text(&mut cfg, "4,5,é".as_bytes()));
    assert_eq!((cfg.version, cfg.max_notional), (4, 5));
    for t in ["", " ", "\u{2000}\u{200a}x\u{202f}", "a\u{205f}b", "\u{1680}\u{1680}", "é\u{a0}", "\u{1c}x"] {
        assert_eq!(trim_whitespace(t.as_bytes()), t.trim().as_bytes(), "{:?}", t);
    }
}

#[test]
fn aio_alignment() {
    assert_eq!(aligned_len(1, BLOCK), 4096);
    assert_eq!(aligned_len(4096, BLOCK), 4096);
    assert_eq!(aligned_len(4097, BLOCK), 8192);
    assert_eq!(aligned_len(0, BLOCK), 0);
    let p = demo_payload(300);
    assert_eq!(p.len(), 300);
    assert_eq!((p[0], p[250], p[251], p[299]), (0, 250, 0, 48));
}

#[test]
fn pitfalls_counts_and_journals() {
    assert_eq!(good_line_count(b"a\nb\r\nc"), 3);
    assert_eq!(good_line_count(b"a\n"), 1);
    assert_eq!(bad_count(b"12345"), 5);
    let big = vec![0u8; 10_000];
    assert_eq!(good_count(&big), READER_CAPACITY);
    assert_eq!(good_count(b"abc"), 3);
    let mut out = Vec::new();
    bad_journal(&mut out, "r1");
    good_journal(&mut out, "r2");
    assert_eq!(out, b"r1\nr2\n");
}

#[test]
fn path_traversal_is_refused() {
    assert_eq!(bad_join(b"/data/indexer", b"../../etc/passwd"), b"/data/indexer/../../etc/passwd".to_vec());
    assert_eq!(good_join(b"/data/indexer", b"../../etc/passwd"), None);
    assert_eq!(good_join(b"/data/indexer", b"2024/./log.txt"), Some(b"/data/indexer/2024/log.txt".to_vec()));
    assert_eq!(good_join(b"/data/indexer", b"/etc/passwd"), None);
    assert_eq!(good_join(b"/data/indexer", b"a/../b"), Some(b"/data/indexer/b".to_vec()));
    let cs = components(b"/a//b/./c");
    assert_eq!(cs, vec![b"/".to_vec(), b"a".to_vec(), b"b".to_vec(), b"c".to_vec()]);
}

#[test]
fn disk_full_handling() {
    assert_eq!(classify(Some(28)), WriteResult::DiskFull);
    assert_eq!(classify(Some(5)), WriteResult::Other);
    assert_eq!(classify(None), WriteResult::Other);
    assert_eq!(good_handler(WriteResult::DiskFull), "停写 + 告警 + 只读降级 + 清理旧分片");
    assert_eq!(good_handler(WriteResult::Written), "继续");
}

#[test]
fn strategies_helpers() {
    assert_eq!(stride_records(&[0u8; 10], 4), 2);
    assert_eq!(get_record(b"aabbcc", 2, 1), Some(&b"bb"[..]));
    assert_eq!(get_record(b"aabbcc", 2, 3), None);
    assert_eq!(count_nonempty_lines(b"a\n\n  \nb\n\xff\n"), 3);
    let mut j = Journal::new(FsyncMode::Every(3));
    for _ in 0..7 {
        j.append();
    }
    assert_eq!((j.entries, j.fsyncs), (7, 2));
    let layout = PartitionLayout { root: b"/data/ticks".to_vec() };
    assert_eq!(layout.tick_path("2024-01-02", "AAPL"), b"/data/ticks/2024-01-02/AAPL.bin".to_vec());
    assert_eq!(layout.offset_path("AAPL"), b"/data/ticks/AAPL.offset".to_vec());
    let st = replay(&["+5", "-2", "+10"], SumState::default());
    assert_eq!(st.value, 13);
    assert!(accept_new(1, 2));
    assert!(!accept_new(2, 2));
    let mut m = Metrics::default();
    m.record_write(100, 7);
    m.record_write(28, 9);
    assert_eq!((m.bytes_written, m.fsync_latency_us), (128, 9));
    assert_eq!(list().len(), 4);
}

#[test]
fn abi_checksum_is_the_default_hasher_hash() {
    let abi = r#"[{"type":"function","name":"transfer"}]"#;
    let mut h = DefaultHasher::new();
    abi.hash(&mut h);
    assert_eq!(checksum(abi), h.finish());
    assert_ne!(checksum(abi), checksum("[]"));
    assert_eq!(checksum(""), checksum(""));
}

#[test]
fn event_log_dedup() {
    let mut log = EventLog::open(b"100,0,Transfer\n100,1,Approval\n");
    assert!(!log.insert_key(EventKey { block: 100, log_index: 1 }));
    assert!(log.insert_key(EventKey { block: 101, log_index: 0 }));
    assert!(!log.insert_key(EventKey { block: 101, log_index: 0 }));
    log.mark_written();
    assert_eq!(log.written, 1);
}

#[test]
fn snapshot_header_roundtrip() {
    let h = SnapshotHeader { block: 19_000_000, state_root: [0xab; 32], data_offset: 48 };
    let b = encode_header(&h);
    assert_eq!(b.len(), 48);
    assert_eq!(&b[..8], &19_000_000u64.to_le_bytes());
    let back = decode_header(&b);
    assert_eq!((back.block, back.state_root, back.data_offset), (19_000_000, [0xab; 32], 48));
}

#[test]
fn manifest_roundtrip() {
    let m = Manifest {
        version: 3,
        pins: vec![
            PinEntry { cid: "bafy1".to_string(), label: "abi".to_string() },
            PinEntry { cid: "bafy2".to_string(), label: "snapshot".to_string() },
        ],
    };
    let text = m.serialize();
    assert_eq!(text, b"v3\nbafy1:abi\nbafy2:snapshot".to_vec());
    let back = Manifest::parse(std::str::from_utf8(&text).unwrap()).unwrap();
    assert_eq!(back.version, 3);
    assert_eq!(back.pins.len(), 2);
    assert_eq!(back.pins[1].label, "snapshot");
    assert!(Manifest::parse("x3").is_none());
}

#[test]
fn chain_config_heaviest_first() {
    let store = ConfigStore::from_text(b"1,https://a,10\n1,https://b,50\n137,https://p,5\n1,https://c,50\n");
    assert_eq!(store.best_endpoint(1), Some("https://b"));
    let urls: Vec<&str> = store.chains[&1].endpoints.iter().map(|e: &ChainEndpoint| e.url.as_str()).collect();
    assert_eq!(urls, vec!["https://b", "https://c", "https://a"]);
    assert_eq!(store.best_endpoint(137), Some("https://p"));
    assert_eq!(store.best_endpoint(5), None);
}

#[test]
fn wal_checked_replay_refuses_bad_logs() {
    let st = replay_wal_checked(b"1,10\n2,-3\n", WalState::default()).unwrap();
    assert_eq!((st.position, st.last_seq), (7, 2));
    let missing = replay_wal_checked(b"", WalState { position: 4, last_seq: 1 }).unwrap();
    assert_eq!((missing.position, missing.last_seq), (4, 1));
    assert!(replay_wal_checked(b"1,x\n", WalState::default()).is_none());
    assert!(replay_wal_checked(b"1\n", WalState::default()).is_none());
    assert!(replay_wal_checked(b"1,1\n", WalState { position: i64::MAX, last_seq: 0 }).is_none());
}

#[test]
fn journal_counts_after_many_appends() {
    let mut w = JournalWriter::new(FsyncPolicy::EveryN(3));
    for _ in 0..7 {
        assert!(w.pending_records() < 3);
        w.append(b"x");
    }
    assert_eq!((w.records, w.fsync_calls, w.pending_records()), (7, 2, 1));
    assert!(!w.fsync_due_next());
    w.append(b"x");
    assert!(w.fsync_due_next());
    let mut j = Journal::new(FsyncMode::Every(5));
    for _ in 0..12 {
        j.append();
    }
    assert_eq!((j.entries, j.fsyncs, j.pending_entries()), (12, 2, 2));
    assert!(!j.sync_due_next());
}
