use rust_demo::bytes::{arr_eq, find_sep, read_be, read_be_u128, read_le, take20, take32};
use rust_demo::decimal::{find_comma, find_newline, line_slice, parse_i64, parse_u64, two_fields};
use rust_demo::merkle_patricia::{bytes_eq, MerklePatriciaTrie, Nibbles};
use rust_demo::mev_simulator::{simulate_one, simulate_one_checked, Bundle, MEVSearcher, Transaction, WorldState};
use rust_demo::orderbook::{OrderBook, Side};
use rust_demo::text::{str_eq, tagged_i64, tagged_u64};
use sha3::{Digest, Keccak256};

#[test]
fn decimal_parsing_matches_std_parse() {
    for s in ["0", "42", "+7", "18446744073709551615", "18446744073709551616", "", "+", "-1", "1a", " 1"] {
        assert_eq!(parse_u64(s.as_bytes()), s.parse::<u64>().ok(), "u64 {:?}", s);
    }
    for s in ["0", "-0", "-42", "+42", "9223372036854775807", "-9223372036854775808", "9223372036854775808", "-", "--1", "x"] {
        assert_eq!(parse_i64(s.as_bytes()), s.parse::<i64>().ok(), "i64 {:?}", s);
    }
}

#[test]
fn lines_and_fields() {
    let s = b"ab\r\ncd\nef";
    let e = find_newline(s, 0);
    assert_eq!(e, 3);
    assert_eq!(line_slice(s, 0, e), b"ab");
    let e2 = find_newline(s, 4);
    assert_eq!(line_slice(s, 4, e2), b"cd");
    assert_eq!(find_newline(s, 7), 9);
    assert_eq!(find_comma(b"a,b", 0), 1);
    assert_eq!(two_fields(b"x,y,z"), (&b"x"[..], Some(&b"y"[..])));
    assert_eq!(two_fields(b"solo"), (&b"solo"[..], None));
}

#[test]
fn byte_readers() {
    let b = [0x01, 0x02, 0x03, 0x04, 0x05];
    assert_eq!(read_le(&b, 0, 4), 0x0403_0201);
    assert_eq!(read_be(&b, 1, 4), 0x0203_0405);
    let mut w = [0u8; 40];
    w[15] = 1;
    w[39] = 9;
    assert_eq!(read_be_u128(&w, 0), 1);
    assert_eq!(take32(&w, 8)[31], 9);
    assert_eq!(take20(&w, 20)[19], 9);
    assert!(arr_eq(&[1u8, 2], &[1, 2]));
    assert!(!arr_eq(&[1u8, 2], &[1, 3]));
    assert_eq!(find_sep(b"k=v|x", b'|', 0), 3);
    assert_eq!(find_sep(b"k=v", b'|', 0), 3);
}

#[test]
fn text_helpers() {
    assert_eq!(tagged_u64("px=", 1200), "px=1200");
    assert_eq!(tagged_i64("pnl=", -35), "pnl=-35");
    assert_eq!(tagged_i64("pnl=", 0), "pnl=0");
    for x in [0u64, 7, 10, 99, 100, 1_000_000, u64::MAX] {
        assert_eq!(tagged_u64("", x), x.to_string());
    }
    for x in [i64::MIN, -1_000_000, -10, -1, 0, 9, 10, i64::MAX] {
        assert_eq!(tagged_i64("", x), x.to_string());
    }
    assert!(str_eq("abc", "abc"));
    assert!(!str_eq("abc", "abd"));
    assert!(!str_eq("ab", "abc"));
}

#[test]
fn nibbles_split_and_prefix() {
    let n = Nibbles::from_bytes(&[0xab, 0x1f]);
    assert_eq!(n.0, vec![0xa, 0xb, 0x1, 0xf]);
    let m = Nibbles::from_bytes(&[0xab, 0x2f]);
    assert_eq!(n.common_prefix_len(&m), 2);
    let (l, r) = n.split_at(1);
    assert_eq!((l.0, r.0), (vec![0xa], vec![0xb, 0x1, 0xf]));
    assert!(bytes_eq(b"abc", b"abc"));
    assert!(!bytes_eq(b"abc", b"ab"));
}

#[test]
fn trie_root_hash_is_keccak_of_node_text() {
    let mut trie = MerklePatriciaTrie::new();
    assert_eq!(trie.root_hash(), None);
    trie.insert(b"ab", b"x".to_vec());
    let expected: [u8; 32] = Keccak256::digest(b"Leaf { key: Nibbles([6, 1, 6, 2]), value: [120] }").into();
    assert_eq!(trie.root_hash(), Some(expected));
}

#[test]
fn trie_second_insert_shadows_first_root() {
    let mut trie = MerklePatriciaTrie::new();
    trie.insert(b"ab", b"1".to_vec());
    trie.insert(b"cd", b"2".to_vec());
    assert_eq!(trie.get(b"cd"), Some(b"2".to_vec()));
    assert_eq!(trie.get(b"ab"), None);
    assert!(trie.root_hash().is_some());
}

#[test]
fn mev_transactions_each_kind() {
    let mut s = WorldState::new(20);
    assert_eq!(s.execute_transaction(&Transaction::Swap { token_in: 1, token_out: 2, amount_in: 100 }), Ok(40));
    let b1 = s.balance_of(1).unwrap();
    assert_eq!((b1.eth, b1.token), (1099, 400));
    assert_eq!(
        s.execute_transaction(&Transaction::Swap { token_in: 2, token_out: 1, amount_in: 1 }),
        Err("Insufficient token balance".to_string())
    );
    assert_eq!(
        s.execute_transaction(&Transaction::Swap { token_in: 9, token_out: 1, amount_in: 1 }),
        Err("Account not found".to_string())
    );
    assert_eq!(
        s.execute_transaction(&Transaction::Transfer { from: 9, to: 1, amount: 1 }),
        Err("Sender not found".to_string())
    );
    assert_eq!(s.execute_transaction(&Transaction::Transfer { from: 2, to: 4, amount: 100 }), Ok(20));
    assert_eq!(s.balance_of(4).unwrap().eth, 100);
    assert_eq!(s.execute_transaction(&Transaction::Arbitrage { path: vec![], min_profit: 0 }), Err("Empty path".to_string()));
    assert_eq!(
        s.execute_transaction(&Transaction::Arbitrage { path: vec![1, 9, 2], min_profit: 0 }),
        Err("Account not found".to_string())
    );
    assert_eq!(
        s.execute_transaction(&Transaction::Arbitrage { path: vec![3, 2], min_profit: 5000 }),
        Err("Arbitrage not profitable".to_string())
    );
    // path 3 -> 2 -> 1: the eth of accounts 3 and 2 is added to account 3
    assert_eq!(s.execute_transaction(&Transaction::Arbitrage { path: vec![3, 2, 1], min_profit: 0 }), Ok(6));
    assert_eq!(s.balance_of(3).unwrap().eth, 1000 + 1000 + 900);
}

fn swap_bundle(tag: u64) -> Bundle {
    Bundle { transactions: vec![Transaction::Swap { token_in: 1, token_out: 2, amount_in: 100 }], revert_on_fail: true, min_profit: tag }
}

#[test]
fn mev_simulate_one_and_revert() {
    let state = WorldState::new(20);
    let r = simulate_one(&state, 7, &swap_bundle(0));
    assert_eq!((r.bundle_index, r.success, r.profit, r.gas_used), (7, true, 99, 40));
    let failing = Bundle {
        transactions: vec![
            Transaction::Transfer { from: 1, to: 2, amount: 10_000 },
            Transaction::Swap { token_in: 1, token_out: 2, amount_in: 100 },
        ],
        revert_on_fail: true,
        min_profit: 0,
    };
    let r = simulate_one(&state, 0, &failing);
    assert_eq!((r.success, r.profit, r.gas_used), (false, 0, 0));
    let tolerant = Bundle { revert_on_fail: false, ..failing };
    let r = simulate_one(&state, 1, &tolerant);
    assert_eq!((r.success, r.profit, r.gas_used), (true, 99, 40));
    // the state the simulation started from is untouched
    assert_eq!(state.balance_of(1).unwrap().eth, 1000);
}

#[test]
fn mev_best_bundle_is_most_profitable() {
    let searcher = MEVSearcher::new(WorldState::new(20));
    let bundles = vec![
        Bundle { transactions: vec![Transaction::Transfer { from: 1, to: 2, amount: 100 }], revert_on_fail: true, min_profit: 1 },
        swap_bundle(2),
        Bundle { transactions: vec![Transaction::Arbitrage { path: vec![1, 2, 3], min_profit: 0 }], revert_on_fail: true, min_profit: 3 },
        swap_bundle(4),
    ];
    assert_eq!(searcher.find_best_bundle(&bundles).map(|b| b.min_profit), Some(3));
    // on a tie the later bundle wins
    let ties = vec![swap_bundle(10), swap_bundle(11)];
    assert_eq!(searcher.find_best_bundle(&ties).map(|b| b.min_profit), Some(11));
    let none = vec![Bundle { transactions: vec![Transaction::Transfer { from: 1, to: 2, amount: 5 }], revert_on_fail: true, min_profit: 0 }];
    assert!(searcher.find_best_bundle(&none).is_none());
}

#[test]
fn mev_checked_simulation_refuses_overflow() {
    let searcher = MEVSearcher::new(WorldState::new(20));
    let bundles = vec![swap_bundle(0), swap_bundle(1)];
    let results = searcher.simulate_bundles_checked(&bundles).expect("in range");
    assert_eq!(results.len(), 2);
    assert_eq!((results[1].bundle_index, results[1].success, results[1].profit, results[1].gas_used), (1, true, 99, 40));
    let r = simulate_one_checked(&searcher.state, 5, &swap_bundle(0)).expect("in range");
    assert_eq!((r.bundle_index, r.success, r.profit, r.gas_used), (5, true, 99, 40));
    // at this gas price the gas figure of a transfer of 100 overflows
    let dear = MEVSearcher::new(WorldState::new(u64::MAX));
    let transfer = Transaction::Transfer { from: 1, to: 2, amount: 100 };
    assert!(!dear.state.fits(&transfer));
    assert!(dear.state.fits(&Transaction::Transfer { from: 9, to: 2, amount: 100 }));
    assert!(dear.state.fits(&Transaction::Transfer { from: 1, to: 2, amount: 0 }));
    let b = Bundle { transactions: vec![transfer], revert_on_fail: true, min_profit: 0 };
    assert!(simulate_one_checked(&dear.state, 0, &b).is_none());
    assert!(dear.simulate_bundles_checked(&[swap_bundle(0), b]).is_none());
    assert!(!dear.state.fits(&Transaction::Swap { token_in: 1, token_out: 2, amount_in: 100 }));
    assert!(searcher.state.fits(&Transaction::Arbitrage { path: vec![1, 2, 3], min_profit: 0 }));
}

#[test]
fn orderbook_market_orders_and_volume() {
    let mut book = OrderBook::new();
    book.limit_order(101, 5, Side::Sell);
    book.limit_order(100, 5, Side::Sell);
    assert_eq!(book.get_best_prices().1, 100);
    // a market buy prices against what the asks hold, cheapest first
    assert_eq!(book.market_order(8, Side::Buy), (8, 803));
    assert_eq!(book.get_total_volume(), 0);
    // a crossing limit buy trades at the resting price
    book.limit_order(102, 3, Side::Buy);
    assert_eq!(book.get_total_volume(), 300);
    book.limit_order(99, 10, Side::Buy);
    // a market sell fills against the bids
    let (filled, value) = book.market_order(4, Side::Sell);
    assert_eq!((filled, value), (4, 0));
    assert_eq!(book.get_total_volume(), 300 + 4 * 99);
}
