use rust_demo::file_io::web3::{event_line, head_for, head_text, retain_safe};

#[test]
fn head_hash_is_padded_hex() {
    let h = head_for(255);
    assert_eq!(h.block, 255);
    assert_eq!(h.hash.len(), 66);
    assert!(h.hash.starts_with("0x"));
    assert!(h.hash.ends_with("00ff"));
    assert_eq!(head_text(&h), format!("255,0x{:064x}", 255));
    for b in [0u64, 0xabcdef, u64::MAX] {
        assert_eq!(head_for(b).hash, format!("0x{:064x}", b));
    }
}

#[test]
fn reorg_drops_lines_above_safe_block() {
    let mut lines = vec![event_line(100, "ev1"), event_line(101, "ev2"), event_line(102, "ev3")];
    assert_eq!(lines[0], "100,ev1");
    let dropped = retain_safe(&mut lines, 100);
    assert_eq!(dropped, 2);
    assert_eq!(lines, vec!["100,ev1".to_string()]);
    assert_eq!(retain_safe(&mut lines, 50), 1);
    assert!(lines.is_empty());
}
