use wluma::predictor::data::{Data, Entry};
use wluma::predictor::storage::{decode, encode, STORAGE_VERSION};

#[test]
fn test_roundtrip_preserves_entries() {
    let d = Data {
        entries: vec![
            Entry::new(1, Some(2), 3),
            Entry::new(4, None, 5),
            Entry::new(u64::MAX, Some(255), u64::MAX),
        ],
    };

    let bytes = encode(&d);
    let loaded = decode(&bytes).unwrap();

    assert_eq!(d.entries, loaded.entries);
}

#[test]
fn test_roundtrip_empty() {
    let d = Data::new();
    let loaded = decode(&encode(&d)).unwrap();
    assert_eq!(Vec::<Entry>::new(), loaded.entries);
}

#[test]
fn test_decode_rejects_empty_file() {
    assert!(decode(&Vec::new()).is_none());
}

#[test]
fn test_decode_rejects_unknown_version() {
    let d = Data { entries: vec![Entry::new(1, Some(2), 3)] };
    let mut bytes = encode(&d);
    bytes[0] = STORAGE_VERSION + 1;
    assert!(decode(&bytes).is_none());
}

#[test]
fn test_decode_rejects_truncated_file() {
    let d = Data { entries: vec![Entry::new(1, Some(2), 3)] };
    let mut bytes = encode(&d);
    bytes.pop();
    assert!(decode(&bytes).is_none());
}
