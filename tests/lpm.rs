use rfw::lpm::{lpm_key, InsertError, PrefixTable, MAX_PREFIXES};

#[test]
fn key_is_network_byte_order() {
    let k = lpm_key(0x0100_0100, 24);
    assert_eq!(k.prefix_len, 24);
    assert_eq!(k.data, [1, 0, 1, 0]);
    assert_eq!(k.data, 0x0100_0100u32.to_be_bytes());
}

#[test]
fn empty_table_covers_nothing() {
    let t = PrefixTable::new();
    assert_eq!(t.len(), 0);
    assert!(!t.contains_addr(0x0101_0101));
    assert!(!t.contains_addr(0));
}

#[test]
fn host_inside_prefix_hits() {
    let mut t = PrefixTable::new();
    assert_eq!(t.insert(0x0100_0100, 24), Ok(()));
    assert!(t.contains_addr(0x0100_012a));
    assert!(t.contains_addr(0x0100_0100));
    assert!(t.contains_addr(0x0100_01ff));
    assert!(!t.contains_addr(0x0100_0201));
}

#[test]
fn other_prefix_covers_outside_host() {
    let mut t = PrefixTable::new();
    t.insert(0x0100_0100, 24).unwrap();
    assert!(!t.contains_addr(0x0900_0001));
    t.insert(0x0900_0000, 8).unwrap();
    assert!(t.contains_addr(0x0900_0001));
}

#[test]
fn zero_prefix_covers_all() {
    let mut t = PrefixTable::new();
    t.insert(0x1234_5678, 0).unwrap();
    assert!(t.contains_addr(0xffff_ffff));
    assert!(t.contains_addr(0));
}

#[test]
fn duplicate_is_refused() {
    let mut t = PrefixTable::new();
    assert_eq!(t.insert(0x0100_0100, 24), Ok(()));
    assert_eq!(t.insert(0x0100_0105, 24), Err(InsertError::Duplicate));
    assert_eq!(t.len(), 1);
    assert_eq!(t.insert(0x0100_0100, 23), Ok(()));
    assert_eq!(t.len(), 2);
}

#[test]
fn full_table_refuses() {
    let mut t = PrefixTable::new();
    for i in 0..MAX_PREFIXES as u32 {
        assert_eq!(t.insert(i << 8, 24), Ok(()));
    }
    assert_eq!(t.len(), MAX_PREFIXES);
    assert_eq!(t.insert(0xffff_ff00, 24), Err(InsertError::Full));
    assert_eq!(t.insert(0x0000_0100, 24), Err(InsertError::Duplicate));
    assert_eq!(t.len(), MAX_PREFIXES);
}

#[test]
fn load_counts_each_outcome() {
    let mut t = PrefixTable::new();
    let batch: Vec<String> = ["1.0.1.0/24", "bogus", "1.0.1.9/24", "203.0.113.0/24", "1.2.3.4/40"]
        .iter()
        .map(|s| s.to_string())
        .collect();
    let r = t.load_prefixes(&batch);
    assert_eq!(r.loaded, 2);
    assert_eq!(r.invalid, 2);
    assert_eq!(r.rejected, 1);
    assert_eq!(t.len(), 2);
    assert!(t.contains_addr(0xcb00_7107));
    let keys: Vec<([u8; 4], u32)> = t.keys().iter().map(|k| (k.data, k.prefix_len)).collect();
    assert_eq!(keys, vec![([1, 0, 1, 0], 24), ([203, 0, 113, 0], 24)]);
}

#[test]
fn load_empty_batch() {
    let mut t = PrefixTable::new();
    let r = t.load_prefixes(&Vec::new());
    assert_eq!((r.loaded, r.invalid, r.rejected), (0, 0, 0));
    assert_eq!(t.len(), 0);
}
