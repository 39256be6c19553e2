use rust_demo::ffi::web3::sign_compact_stub;
use rust_demo::file_io::linux_kernel_io::data_path;
use rust_demo::merkle_patricia::{Account, MerklePatriciaTrie, StateDB};
use rust_demo::mev_simulator::{Bundle, MEVSearcher, Transaction, WorldState};
use rust_demo::orderbook::{OrderBook, Side};

#[test]
fn dual_out_propagates_msg_hint() {
    let sig = sign_compact_stub(&[9u8, 8, 7]).unwrap();
    assert_eq!(sig[0], 3);
    assert_eq!(sig[1], 9);
}

#[test]
fn data_path_profiles_non_empty() {
    assert_eq!(data_path::profiles().len(), 5);
}

#[test]
fn test_basic_order() {
    let mut book = OrderBook::new();
    let id = book.limit_order(100, 10, Side::Buy);
    assert!(id > 0);
}

#[test]
fn test_best_prices() {
    let mut book = OrderBook::new();
    book.limit_order(100, 10, Side::Buy);
    book.limit_order(101, 10, Side::Sell);
    let (bid, ask) = book.get_best_prices();
    assert_eq!(bid, 100);
    assert_eq!(ask, 101);
}

#[test]
fn test_market_order() {
    let mut book = OrderBook::new();
    book.limit_order(100, 10, Side::Sell);
    let (filled, value) = book.market_order(5, Side::Buy);
    assert_eq!(filled, 5);
    assert_eq!(value, 500);
}

#[test]
fn test_trie_insert_get() {
    let mut trie = MerklePatriciaTrie::new();
    trie.insert(b"test_key", b"test_value".to_vec());
    assert_eq!(trie.get(b"test_key"), Some(b"test_value".to_vec()));
}

#[test]
fn test_state_db() {
    let mut db = StateDB::new();
    let addr = vec![0x12, 0x34];
    let acc = Account { nonce: 1, balance: 100, storage_root: [0u8; 32], code_hash: [0u8; 32] };
    db.update_account(&addr, acc.clone());
    assert_eq!(db.get_account(&addr).unwrap().nonce, 1);
}

#[test]
fn test_transfer_success() {
    let mut state = WorldState::new(20);
    let tx = Transaction::Transfer { from: 1, to: 2, amount: 100 };
    assert!(state.execute_transaction(&tx).is_ok());
    assert_eq!(state.balance_of(1).unwrap().eth, 900);
    assert_eq!(state.balance_of(2).unwrap().eth, 1100);
}

#[test]
fn test_transfer_insufficient() {
    let mut state = WorldState::new(20);
    let tx = Transaction::Transfer { from: 1, to: 2, amount: 10000 };
    assert!(state.execute_transaction(&tx).is_err());
}

#[test]
fn test_parallel_simulation() {
    let state = WorldState::new(20);
    let searcher = MEVSearcher::new(state);
    let bundles = vec![Bundle {
        transactions: vec![Transaction::Transfer { from: 1, to: 2, amount: 100 }],
        revert_on_fail: true,
        min_profit: 0,
    }];
    let results = searcher.simulate_bundles_parallel(&bundles);
    assert_eq!(results.len(), 1);
    assert!(results[0].success);
}
