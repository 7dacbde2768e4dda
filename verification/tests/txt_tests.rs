use astro_dnssd::txt_codec::{decode, encode};
use astro_dnssd::{TXTHash, TXTRecord, TxtRecord, TxtRecordError};

#[test]
fn txt_creation() {
    let mut record = TXTRecord::new();
    assert_eq!(record.insert("test", Some(b"value1")), Ok(()));
    assert_eq!(record.len(), 1);
    assert_eq!(record.raw_bytes_len(), 12);
    assert_eq!(record.raw_bytes(), b"\x0Btest=value1");
    assert!(record.contains_key("test"));
    assert_eq!(record.get("test"), Some(b"value1".to_vec()));
    assert_eq!(record.insert("test2", Some(&[1u8, 2, 3])), Ok(()));
    assert_eq!(record.len(), 2);
    assert_eq!(record.raw_bytes_len(), 22);
    assert_eq!(record.raw_bytes(), b"\x0Btest=value1\x09test2=\x01\x02\x03");
    assert!(record.contains_key("test2"));
    assert_eq!(record.get("test2"), Some(vec![1u8, 2, 3]));
    assert_eq!(record.insert("test", None), Ok(()));
    assert_eq!(record.len(), 2);
    assert_eq!(record.raw_bytes_len(), 15);
    assert_eq!(record.raw_bytes(), b"\x09test2=\x01\x02\x03\x04test");
    assert_eq!(record.get("test"), None);
}

#[test]
fn round_trip_pairs() {
    let pairs: Vec<(String, Option<Vec<u8>>)> = vec![
        ("color".to_string(), Some(b"blue".to_vec())),
        ("flag".to_string(), None),
        ("empty".to_string(), Some(Vec::new())),
    ];
    let record = encode(&pairs).expect("pairs are valid and within limits");
    let decoded = decode(record.raw_bytes());
    assert_eq!(decoded, pairs);
}

#[test]
fn round_trip_binary_values() {
    let pairs: Vec<(String, Option<Vec<u8>>)> =
        vec![("bin".to_string(), Some(vec![0u8, 255, 61, 7]))];
    let record = encode(&pairs).expect("valid");
    assert_eq!(decode(record.raw_bytes()), pairs);
}

#[test]
fn encode_duplicate_key_keeps_last() {
    let pairs: Vec<(String, Option<Vec<u8>>)> = vec![
        ("k".to_string(), Some(b"one".to_vec())),
        ("k".to_string(), Some(b"two".to_vec())),
    ];
    let record = encode(&pairs).expect("valid");
    assert_eq!(
        decode(record.raw_bytes()),
        vec![("k".to_string(), Some(b"two".to_vec()))]
    );
}

#[test]
fn decode_edge_cases() {
    // An entry without `=` is a key with no value ...
    let no_value = decode(b"\x04test");
    assert_eq!(no_value, vec![("test".to_string(), None)]);
    // ... distinct from a key with an empty value (trailing `=`).
    let empty_value = decode(b"\x05test=");
    assert_eq!(empty_value, vec![("test".to_string(), Some(Vec::new()))]);
    assert_ne!(no_value, empty_value);
}

#[test]
fn decode_drops_noise() {
    // An empty key is noise; a truncated trailing fragment is dropped.
    assert_eq!(decode(b"\x01="), Vec::new());
    assert_eq!(decode(b"\x00"), Vec::new());
    assert_eq!(decode(b"\x0Ashort"), Vec::new());
    // Invalid UTF-8 in the key drops the entry, not the whole decode.
    let mixed = decode(b"\x02\xff=\x03a=b");
    assert_eq!(mixed, vec![("a".to_string(), Some(b"b".to_vec()))]);
}

#[test]
fn insert_overflow_leaves_record_unchanged() {
    let mut record = TXTRecord::new();
    // Fill the record close to its 65535-byte cap: 255 entries of 256
    // encoded bytes each.
    let value = vec![b'v'; 250];
    for i in 0..255 {
        let key = format!("k{:03}", i);
        assert_eq!(record.insert(&key, Some(&value)), Ok(()));
    }
    assert_eq!(record.raw_bytes_len(), 65280);
    let before = record.raw_bytes().to_vec();
    // One more full entry would exceed 65535 bytes in total.
    assert_eq!(
        record.insert("k-too-much", Some(&value)),
        Err(TxtRecordError::ValueTooLong)
    );
    assert_eq!(record.raw_bytes(), &before[..]);
    assert_eq!(record.len(), 255);
}

#[test]
fn insert_oversized_entry_fails() {
    let mut record = TXTRecord::new();
    let value = vec![b'x'; 255];
    assert_eq!(
        record.insert("key", Some(&value)),
        Err(TxtRecordError::ValueTooLong)
    );
    assert_eq!(record.raw_bytes_len(), 0);
    let long_key = "k".repeat(300);
    assert_eq!(
        record.insert(&long_key, Some(b"v")),
        Err(TxtRecordError::KeyTooLong)
    );
    assert_eq!(record.insert("", Some(b"v")), Err(TxtRecordError::InvalidKey));
    assert_eq!(record.insert("a=b", Some(b"v")), Err(TxtRecordError::InvalidKey));
    assert_eq!(record.insert("a\0b", Some(b"v")), Err(TxtRecordError::InvalidKey));
    assert_eq!(record.raw_bytes_len(), 0);
}

#[test]
fn lookup_after_insert_and_remove() {
    let mut record = TXTRecord::new();
    assert_eq!(record.insert("status", Some(b"open")), Ok(()));
    assert_eq!(record.get("status"), Some(b"open".to_vec()));
    assert!(record.contains_key("status"));
    record.remove("status");
    assert!(!record.contains_key("status"));
    assert_eq!(record.get("status"), None);
    assert!(record.is_empty());
}

#[test]
fn insert_overwrites_existing_key() {
    let mut record = TXTRecord::new();
    assert_eq!(record.insert("k", Some(b"first")), Ok(()));
    assert_eq!(record.insert("k", Some(b"second")), Ok(()));
    assert_eq!(record.len(), 1);
    assert_eq!(record.get("k"), Some(b"second".to_vec()));
}

#[test]
fn string_record_basics() {
    let mut record = TxtRecord::new();
    assert_eq!(record.insert("status", "open"), Ok(()));
    assert!(record.contains_key("status"));
    assert!(!record.is_empty());
    assert_eq!(record.record().raw_bytes(), b"\x0Bstatus=open");
    record.remove("status");
    assert!(!record.contains_key("status"));
    assert!(record.is_empty());
}

#[test]
fn read_only_hash_lookup() {
    let hash = TXTHash::new(b"\x0Btest=value1\x04flag".to_vec()).expect("construction succeeds");
    assert!(hash.contains("test"));
    assert!(hash.contains("flag"));
    assert!(!hash.contains("absent"));
    assert_eq!(hash.get("test"), Some(b"value1".to_vec()));
    assert_eq!(hash.get("flag"), None);
    assert_eq!(hash.get("absent"), None);
}
