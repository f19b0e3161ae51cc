use actionkv::codec::{decode, encode};
use actionkv::store::ActionKV;
use actionkv::StoreError;

#[test]
fn it_works() {
    let result = 2 + 2;
    assert_eq!(result, 4);
}

#[test]
fn round_trip_single_record() {
    let rec = encode(b"key", b"value");
    assert_eq!(rec.len(), 12 + 3 + 5);
    let (kv, next) = decode(rec.as_slice(), 0).unwrap();
    assert_eq!(kv.key, b"key".to_vec());
    assert_eq!(kv.value, b"value".to_vec());
    assert_eq!(next, rec.len() as u64);
}

#[test]
fn round_trip_empty_key_and_value() {
    let rec = encode(b"", b"");
    assert_eq!(rec.len(), 12);
    let (kv, next) = decode(rec.as_slice(), 0).unwrap();
    assert!(kv.key.is_empty());
    assert!(kv.value.is_empty());
    assert_eq!(next, 12);
}

#[test]
fn get_at_reads_any_offset() {
    let mut store = ActionKV::open(Vec::new());
    store.insert(b"a", b"1");
    store.insert(b"bb", b"22");
    let kv = store.get_at(14).unwrap();
    assert_eq!(kv.key, b"bb".to_vec());
    assert_eq!(kv.value, b"22".to_vec());
}

#[test]
fn checksum_known_answer() {
    // CRC-32/ISO-HDLC of "123456789" is 0xcbf43926; it is stored
    // little-endian in the first four header bytes.
    let rec = encode(b"123456789", b"");
    assert_eq!(&rec[0..4], &[0x26, 0x39, 0xf4, 0xcb]);
}

#[test]
fn checksum_sensitivity_every_bit() {
    let rec = encode(b"ab", b"xyz");
    // Flip each single bit of the key/value payload in turn: decode must
    // report corruption every time.
    for byte in 12..rec.len() {
        for bit in 0..8 {
            let mut tampered = rec.clone();
            tampered[byte] ^= 1u8 << bit;
            match decode(tampered.as_slice(), 0) {
                Err(StoreError::Corruption { offset, stored, computed }) => {
                    assert_eq!(offset, 0);
                    assert_ne!(stored, computed);
                }
                other => panic!("expected corruption, got {:?}", other),
            }
        }
    }
}

#[test]
fn truncated_payload_detected() {
    let rec = encode(b"abc", b"defg");
    let cut = rec[..rec.len() - 1].to_vec();
    match decode(cut.as_slice(), 0) {
        Err(StoreError::Truncated { offset }) => assert_eq!(offset, 0),
        other => panic!("expected truncation, got {:?}", other),
    }
}

#[test]
fn short_buffer_is_end_of_log() {
    let store = ActionKV::open(vec![1, 2, 3]);
    assert!(matches!(store.get_at(0), Err(StoreError::EndOfLog)));
    assert!(matches!(store.get_at(99), Err(StoreError::EndOfLog)));
}

#[test]
fn last_write_wins() {
    let mut store = ActionKV::open(Vec::new());
    store.insert(b"k", b"first");
    store.insert(b"k", b"second");
    let second_offset = 12 + 1 + 5;

    // Rebuild fresh from the persisted bytes, as a new process would.
    let mut reloaded = ActionKV::open(store.log_bytes().clone());
    reloaded.load().unwrap();
    assert_eq!(reloaded.get(b"k").unwrap(), Some(b"second".to_vec()));
    assert_eq!(
        reloaded.find(b"k").unwrap(),
        Some((second_offset, b"second".to_vec()))
    );
}

#[test]
fn get_miss_is_not_an_error() {
    let mut store = ActionKV::open(Vec::new());
    store.insert(b"present", b"1");
    store.load().unwrap();
    assert_eq!(store.get(b"absent").unwrap(), None);
    assert_eq!(store.find(b"absent").unwrap(), None);
}

#[test]
fn replay_is_idempotent() {
    let mut store = ActionKV::open(Vec::new());
    store.insert(b"a", b"1");
    store.insert(b"b", b"2");
    store.insert(b"a", b"3");
    store.load().unwrap();
    let a1 = store.get(b"a").unwrap();
    let b1 = store.get(b"b").unwrap();
    store.load().unwrap();
    assert_eq!(store.get(b"a").unwrap(), a1);
    assert_eq!(store.get(b"b").unwrap(), b1);
    assert_eq!(a1, Some(b"3".to_vec()));
    assert_eq!(b1, Some(b"2".to_vec()));
}

#[test]
fn concrete_scenario_offsets_and_lookups() {
    let mut store = ActionKV::open(Vec::new());
    assert_eq!(store.len(), 0);
    store.insert(b"a", b"1");
    let len_record_a = store.len();
    assert_eq!(len_record_a, 12 + 1 + 1);
    store.insert(b"b", b"2");
    assert_eq!(store.len(), 2 * len_record_a);
    store.insert(b"a", b"3");
    let third_offset = 2 * len_record_a;

    let mut reloaded = ActionKV::open(store.log_bytes().clone());
    reloaded.load().unwrap();
    assert_eq!(reloaded.get(b"a").unwrap(), Some(b"3".to_vec()));
    assert_eq!(reloaded.get(b"b").unwrap(), Some(b"2".to_vec()));
    assert_eq!(
        reloaded.find(b"a").unwrap(),
        Some((third_offset, b"3".to_vec()))
    );
}

#[test]
fn get_before_load_misses() {
    let mut store = ActionKV::open(Vec::new());
    store.insert(b"k", b"v");
    let fresh = ActionKV::open(store.log_bytes().clone());
    // A store that has not replayed its log has an empty index.
    assert_eq!(fresh.get(b"k").unwrap(), None);
}

#[test]
fn corruption_aborts_load_and_find() {
    let mut store = ActionKV::open(Vec::new());
    store.insert(b"k", b"v");
    let mut bytes = store.log_bytes().clone();
    let last = bytes.len() - 1;
    bytes[last] ^= 0x01;
    let mut broken = ActionKV::open(bytes);
    match broken.load() {
        Err(StoreError::Corruption { offset, .. }) => assert_eq!(offset, 0),
        other => panic!("expected corruption, got {:?}", other),
    }
    match broken.find(b"k") {
        Err(StoreError::Corruption { .. }) => {}
        other => panic!("expected corruption, got {:?}", other),
    }
}

#[test]
fn update_overwrites() {
    let mut store = ActionKV::open(Vec::new());
    store.insert(b"k", b"old");
    store.update(b"k", b"new");
    store.load().unwrap();
    assert_eq!(store.get(b"k").unwrap(), Some(b"new".to_vec()));
}

#[test]
fn delete_reports_unsupported() {
    let store = ActionKV::open(Vec::new());
    assert_eq!(store.delete(b"k"), Err(StoreError::Unsupported));
}

#[test]
fn insert_but_ignore_index_leaves_index_alone() {
    let mut store = ActionKV::open(Vec::new());
    let position = store.insert_but_ignore_index(b"k", b"v");
    assert_eq!(position, 0);
    assert_eq!(store.get(b"k").unwrap(), None);
    // The record is still in the log: a replay indexes it.
    store.load().unwrap();
    assert_eq!(store.get(b"k").unwrap(), Some(b"v".to_vec()));
}

#[test]
fn snapshot_lookup_and_staleness() {
    let mut store = ActionKV::open(Vec::new());
    store.insert(b"a", b"1");
    store.insert(b"b", b"2");
    store.snapshot_index(b"+index").unwrap();
    store.insert(b"c", b"3");

    let mut reloaded = ActionKV::open(store.log_bytes().clone());
    reloaded.load().unwrap();
    // Keys inserted before the snapshot are served through it.
    assert_eq!(
        reloaded.get_via_snapshot(b"+index", b"a").unwrap(),
        Some(b"1".to_vec())
    );
    assert_eq!(
        reloaded.get_via_snapshot(b"+index", b"b").unwrap(),
        Some(b"2".to_vec())
    );
    // A key inserted after the snapshot is absent from its mapping,
    // though the live index serves it.
    assert_eq!(reloaded.get_via_snapshot(b"+index", b"c").unwrap(), None);
    assert_eq!(reloaded.get(b"c").unwrap(), Some(b"3".to_vec()));
}

#[test]
fn snapshot_without_record_misses() {
    let mut store = ActionKV::open(Vec::new());
    store.insert(b"a", b"1");
    store.load().unwrap();
    assert_eq!(store.get_via_snapshot(b"+index", b"a").unwrap(), None);
}

#[test]
fn error_descriptions() {
    assert_eq!(StoreError::EndOfLog.describe(), "end of log");
    assert_eq!(
        StoreError::Corruption { offset: 0, stored: 1, computed: 2 }.describe(),
        "data corruption encountered"
    );
}
