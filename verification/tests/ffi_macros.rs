use std::collections::HashMap;
use std::time::Duration;
use rust_demo::ffi::hft::{unpack_outcome, unpack_precheck, vendor_scratch_words_for, VendorRc};
use rust_demo::ffi::pitfalls::borrow_for_one_call;
use rust_demo::ffi::strategies::{deadline_verdict, ffi_with_deadline};
use rust_demo::ffi::web3::sign_compact_stub;
use rust_demo::macros::{
    dispatch, erc20_transfer, match_quote, notional, Approval, LatGuard, NewOrderSingle, Notional, Price, Qty,
    Transfer, VmError, SELECTORS,
};

#[test]
fn vendor_codes() {
    assert_eq!(VendorRc::from_i32(0), Some(VendorRc::Success));
    assert_eq!(VendorRc::from_i32(-1), Some(VendorRc::NullPointer));
    assert_eq!(VendorRc::from_i32(-2), Some(VendorRc::BadAlignment));
    assert_eq!(VendorRc::from_i32(-3), Some(VendorRc::BufferTooSmall));
    assert_eq!(VendorRc::from_i32(7), None);
    assert_eq!(unpack_outcome(0, 3), Ok(3));
    assert_eq!(unpack_outcome(-3, 0), Err(VendorRc::BufferTooSmall));
    assert_eq!(unpack_outcome(42, 0), Err(VendorRc::UnexpectedVendorReturn));
}

#[test]
fn scratch_sizing() {
    assert_eq!(vendor_scratch_words_for(24), Some(3));
    assert_eq!(vendor_scratch_words_for(25), None);
    assert_eq!(unpack_precheck(24, 8), Ok(3));
    assert_eq!(unpack_precheck(24, 1), Err(VendorRc::BufferTooSmall));
    assert_eq!(unpack_precheck(7, 8), Err(VendorRc::BadAlignment));
    let mut scratch = [5u64, 6, 7, 8];
    assert_eq!(borrow_for_one_call(&mut scratch, 3), &[5, 6, 7]);
}

#[test]
fn deadline() {
    assert_eq!(deadline_verdict(5, 10, 42), Ok(42));
    assert_eq!(deadline_verdict(10, 10, 1), Ok(1));
    assert_eq!(deadline_verdict(11, 10, 1), Err("ffi exceeded deadline (wall-clock heuristic)"));
    assert_eq!(ffi_with_deadline(Duration::from_secs(1), || 42), Ok(42));
    assert_eq!(
        ffi_with_deadline(Duration::from_nanos(0), || {
            let mut acc = 0u64;
            for i in 0..200_000u64 {
                acc = std::hint::black_box(acc.wrapping_add(i));
            }
            acc.min(1)
        }),
        Err("ffi exceeded deadline (wall-clock heuristic)")
    );
}

#[test]
fn signing_stub_pattern() {
    let sig = sign_compact_stub(b"hello rollup").unwrap();
    assert_eq!(sig[0], 12);
    assert_eq!(sig[1], b'h');
    assert_eq!(sig[2..8], [2, 3, 4, 5, 6, 7]);
    assert_eq!(sig[63], 63);
    let empty = sign_compact_stub(&[]).unwrap();
    assert_eq!((empty[0], empty[1]), (0, 0));
    let long = vec![1u8; 300];
    assert_eq!(sign_compact_stub(&long).unwrap()[0], 44);
}

#[test]
fn lat_guard_keeps_label() {
    let g = LatGuard::new("outer_scope");
    assert_eq!(g.label(), "outer_scope");
    let _ = g.elapsed_ns();
}

#[test]
fn parse_fix_fields() {
    let order = NewOrderSingle::parse_fix(b"35=68|11=99887766|54=1|38=500|44=102500|59=0");
    assert_eq!(order.msg_type, Some(68));
    assert_eq!(order.cl_ord_id, Some(99887766));
    assert_eq!(order.side, Some(1));
    assert_eq!(order.order_qty, Some(500));
    assert_eq!(order.price, Some(102500));
    assert_eq!(order.time_in_force, Some(0));
    let odd = NewOrderSingle::parse_fix(b"54=300|11=x|99=1|nokv|44=7=8|59=+2");
    assert_eq!(odd.side, None);
    assert_eq!(odd.cl_ord_id, None);
    assert_eq!(odd.price, None);
    assert_eq!(odd.time_in_force, Some(2));
    assert_eq!(NewOrderSingle::parse_fix(b""), NewOrderSingle::default());
}

#[test]
fn money_newtypes() {
    let p = Price::new(102_500);
    let q = Qty::new(500);
    let n = notional(p, q);
    assert_eq!(n.raw(), 51_250_000);
    assert_eq!(p.to_string(), "Price(102500)");
    assert_eq!(q.to_string(), "Qty(500)");
    assert_eq!(n.to_string(), "Notional(51250000)");
    assert_eq!((p + Price::new(5)).raw(), 102_505);
    assert_eq!((q - Qty::new(100)).raw(), 400);
    assert_eq!((Notional::new(3) + Notional::zero()).raw(), 3);
}

#[test]
fn quote_classes() {
    let bid = Price::new(100_000);
    let ask = Price::new(100_100);
    assert_eq!(match_quote(bid, ask, Price::new(99_500)), "CROSS_BID");
    assert_eq!(match_quote(bid, ask, Price::new(100_050)), "QUOTE");
    assert_eq!(match_quote(bid, ask, Price::new(100_200)), "CROSS_ASK");
    assert_eq!(match_quote(bid, ask, Price::new(100_100)), "CROSS_ASK");
    assert_eq!(match_quote(bid, ask, Price::new(100_000)), "CROSS_BID");
}

#[test]
fn erc20_transfer_moves_and_reverts() {
    let mut ledger = HashMap::new();
    ledger.insert(1u64, 1_000u64);
    assert_eq!(erc20_transfer(&mut ledger, 1, 2, 400), Ok(()));
    assert_eq!(ledger[&1], 600);
    assert_eq!(ledger[&2], 400);
    assert_eq!(erc20_transfer(&mut ledger, 1, 2, 999_999), Err(VmError::InsufficientBalance));
    assert_eq!(ledger[&1], 600);
    assert_eq!(erc20_transfer(&mut ledger, 0, 2, 1), Err(VmError::Unauthorized));
    assert_eq!(erc20_transfer(&mut ledger, 1, 1, 100), Ok(()));
    assert_eq!(ledger[&1], 600);
    assert_eq!(erc20_transfer(&mut ledger, 9, 1, 0), Ok(()));
    assert_eq!(ledger[&9], 0);
}

#[test]
fn selector_dispatch() {
    assert_eq!(SELECTORS.len(), 3);
    for (i, (sel, _)) in SELECTORS.iter().enumerate() {
        assert_eq!(dispatch(*sel, &[]), Ok(vec![i as u8 + 1]));
    }
    assert_eq!(dispatch(0xdead_beef, &[]), Err(VmError::Unauthorized));
}

#[test]
fn events_as_json() {
    let ev = Transfer { from: 1, to: 2, value: 400 };
    assert_eq!(ev.to_json(), r#"{"from":"1","to":"2","value":"400"}"#);
    let ev2 = Approval { owner: 1, spender: 3, value: 100 };
    assert_eq!(ev2.to_json(), r#"{"owner":"1","spender":"3","value":"100"}"#);
}
