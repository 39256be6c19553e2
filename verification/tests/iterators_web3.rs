use rust_demo::iterators::web3::{
    keccak_like, merkle_proof, merkle_root, novel_txs, pack_block, simulate, transfers, Bloom, Head,
    KMerge, Log, PendingTx, Pool, B256, BLOCK_GAS_LIMIT, TRANSFER_TOPIC0,
};

fn node(l: &B256, r: &B256) -> B256 {
    let mut buf = [0u8; 64];
    buf[..32].copy_from_slice(l);
    buf[32..].copy_from_slice(r);
    keccak_like(&buf)
}

#[test]
fn keccak_like_separates_inputs() {
    let a = keccak_like(&[1u8]);
    let b = keccak_like(&[2u8]);
    assert_ne!(a, b);
    assert_eq!(a, keccak_like(&[1u8]));
    assert_ne!(keccak_like(&[]), [0u8; 32]);
}

#[test]
fn merkle_root_of_nothing_is_zero() {
    assert_eq!(merkle_root(&[]), [0u8; 32]);
}

#[test]
fn merkle_root_single_and_pairs() {
    let l: Vec<B256> = (0u8..3).map(|i| keccak_like(&[i])).collect();
    assert_eq!(merkle_root(&l[..1]), l[0]);
    assert_eq!(merkle_root(&l[..2]), node(&l[0], &l[1]));
    // odd layer: the last node pairs with itself
    let expected = node(&node(&l[0], &l[1]), &node(&l[2], &l[2]));
    assert_eq!(merkle_root(&l), expected);
}

#[test]
fn merkle_proof_leads_back_to_root() {
    let leaves: Vec<B256> = (0u8..7).map(|i| keccak_like(&[i])).collect();
    let root = merkle_root(&leaves);
    for idx in 0..leaves.len() {
        let proof = merkle_proof(&leaves, idx);
        assert_eq!(proof.len(), 3);
        let mut h = leaves[idx];
        let mut i = idx;
        for sib in &proof {
            h = if i % 2 == 0 { node(&h, sib) } else { node(sib, &h) };
            i /= 2;
        }
        assert_eq!(h, root);
    }
}

fn topic_for(a: &[u8; 20]) -> B256 {
    let mut t = [0u8; 32];
    t[12..].copy_from_slice(a);
    t
}

#[test]
fn transfers_keep_watched_transfer_events() {
    let me = [0xab; 20];
    let other = [0xcd; 20];
    let token = [0xee; 20];
    let mut data = vec![0u8; 32];
    data[28] = 0x03;
    data[29] = 0xe8;
    let logs = vec![
        Log { address: token, topics: vec![TRANSFER_TOPIC0, topic_for(&me), topic_for(&other)], data: data.clone(), block_number: 100 },
        Log { address: token, topics: vec![[0xaa; 32], topic_for(&me), topic_for(&other)], data: data.clone(), block_number: 101 },
        Log { address: token, topics: vec![TRANSFER_TOPIC0, [0x11; 32], [0x22; 32]], data: data.clone(), block_number: 102 },
        Log { address: token, topics: vec![TRANSFER_TOPIC0, topic_for(&other), topic_for(&me)], data: vec![0u8; 31], block_number: 103 },
    ];
    let txs = transfers(&logs, &me);
    assert_eq!(txs.len(), 1);
    assert_eq!(txs[0].block, 100);
    assert_eq!(txs[0].value, 0x03e8_0000);
    assert_eq!(txs[0].from, me);
    assert_eq!(txs[0].to, other);
    assert_eq!(txs[0].token, token);
}

#[test]
fn swap_moves_reserves() {
    let mut p = Pool { reserve_in: 1_000, reserve_out: 1_000 };
    let out = p.swap_in_for_out(100);
    // 100 * 997 * 1000 / (1000 * 1000 + 100 * 997) = 90.66 -> 90
    assert_eq!(out, 90);
    assert_eq!(p.reserve_in, 1_100);
    assert_eq!(p.reserve_out, 910);
}

#[test]
fn sandwich_profit_matches_step_by_step_swaps() {
    let start = Pool { reserve_in: 1_000_000_000, reserve_out: 1_000_000_000 };
    let mut p = start;
    let got = p.swap_in_for_out(50_000_000);
    let _ = p.swap_in_for_out(200_000_000);
    let mut rev = Pool { reserve_in: p.reserve_out, reserve_out: p.reserve_in };
    let got_in = rev.swap_in_for_out(got);
    let expected = got_in as i128 - 50_000_000i128;
    assert_eq!(simulate(start, 50_000_000, 200_000_000), expected);
    assert!(expected > 0);
}

#[test]
fn pack_block_orders_by_price_and_respects_limit() {
    let pool = vec![
        PendingTx { hash: 1, gas: 21_000, gas_price: 100 },
        PendingTx { hash: 2, gas: 12_000_000, gas_price: 200 },
        PendingTx { hash: 3, gas: 12_000_000, gas_price: 150 },
        PendingTx { hash: 4, gas: 8_000_000, gas_price: 50 },
        PendingTx { hash: 5, gas: 5_000_000, gas_price: 90 },
    ];
    let block = pack_block(pool);
    let hashes: Vec<u64> = block.iter().map(|t| t.hash).collect();
    assert_eq!(hashes, vec![2, 3, 1, 5]);
    let gas: u64 = block.iter().map(|t| t.gas).sum();
    assert!(gas <= BLOCK_GAS_LIMIT);
}

#[test]
fn pack_block_stops_at_first_overflow() {
    let pool = vec![
        PendingTx { hash: 1, gas: BLOCK_GAS_LIMIT, gas_price: 10 },
        PendingTx { hash: 2, gas: 1, gas_price: 5 },
    ];
    let block = pack_block(pool);
    assert_eq!(block.len(), 1);
    assert_eq!(block[0].hash, 1);
    assert!(pack_block(vec![PendingTx { hash: 9, gas: u64::MAX, gas_price: 1 }]).is_empty());
}

#[test]
fn kmerge_yields_heads_by_timestamp() {
    let eth = vec![
        Head { chain_id: 1, block_number: 100, timestamp: 1000 },
        Head { chain_id: 1, block_number: 101, timestamp: 1012 },
    ];
    let arb = vec![
        Head { chain_id: 42161, block_number: 500, timestamp: 1003 },
        Head { chain_id: 42161, block_number: 501, timestamp: 1004 },
        Head { chain_id: 42161, block_number: 502, timestamp: 1015 },
    ];
    let op = vec![Head { chain_id: 10, block_number: 700, timestamp: 1010 }];
    let mut m = KMerge::new(vec![eth, arb, op]);
    let mut ts = Vec::new();
    while let Some(h) = m.next() {
        ts.push((h.chain_id, h.timestamp));
    }
    assert_eq!(ts, vec![(1, 1000), (42161, 1003), (42161, 1004), (10, 1010), (1, 1012), (42161, 1015)]);
}

#[test]
fn kmerge_tie_goes_to_first_stream() {
    let a = vec![Head { chain_id: 1, block_number: 1, timestamp: 5 }];
    let b = vec![Head { chain_id: 2, block_number: 1, timestamp: 5 }];
    let mut m = KMerge::new(vec![a, b]);
    assert_eq!(m.next().unwrap().chain_id, 1);
    assert_eq!(m.next().unwrap().chain_id, 2);
    assert!(m.next().is_none());
}

#[test]
fn bloom_inserted_is_contained() {
    let mut bloom = Bloom::new(16, 4);
    assert!(!bloom.contains(42));
    bloom.insert(42);
    assert!(bloom.contains(42));
    let zero_probe = Bloom::new(0, 0);
    assert!(zero_probe.contains(7));
}

#[test]
fn novel_txs_drops_repeats() {
    let mut bloom = Bloom::new(1024, 4);
    let first_in: Vec<u64> = (0..10u64).chain(0..3).collect();
    let first = novel_txs(&first_in, &mut bloom);
    assert_eq!(first, (0..10u64).collect::<Vec<_>>());
    let second_in: Vec<u64> = (0..15u64).collect();
    let second = novel_txs(&second_in, &mut bloom);
    assert_eq!(second, (10..15u64).collect::<Vec<_>>());
}
