use esto_core::errors::ErrorKind;
use esto_core::index::{Index, RecordLink};
use esto_core::record::{Id, Record, Timestamp};
use esto_core::storage::{merge_index_value, Storage};

fn le64_bytes(v: u64) -> Vec<u8> {
    v.to_le_bytes().to_vec()
}

#[test]
fn record_encoding_has_exact_layout() {
    let record = Record {
        id: Id { hi: 1, lo: 2 },
        timestamp: Timestamp { secs: 3, nanos: 4 },
        entity_id: Id { hi: 5, lo: 6 },
        entity_type: "A".to_string(),
        event_name: "B".to_string(),
        event_data: "C".to_string(),
    };
    let mut expected: Vec<u8> = Vec::new();
    expected.extend(le64_bytes(1));
    expected.extend(le64_bytes(2));
    expected.extend(le64_bytes(3));
    expected.extend(le64_bytes(4));
    expected.extend(le64_bytes(5));
    expected.extend(le64_bytes(6));
    expected.extend(le64_bytes(1));
    expected.extend(b"A");
    expected.extend(le64_bytes(1));
    expected.extend(b"B");
    expected.extend(le64_bytes(1));
    expected.extend(b"C");
    assert_eq!(record.encode(), expected);
}

#[test]
fn record_with_empty_texts_roundtrips() {
    let record = Record::new(Id::fresh(), "", "", "");
    let decoded = Record::decode(&record.encode()).unwrap();
    assert_eq!(decoded.entity_type, "");
    assert_eq!(decoded.event_name, "");
    assert_eq!(decoded.event_data, "");
    assert_eq!(decoded.id, record.id);
    assert_eq!(record.encode().len(), 72);
}

#[test]
fn link_encoding_has_exact_layout() {
    let mut idx = Index::new();
    idx.append_record_at(Id { hi: 7, lo: 8 }, Timestamp { secs: 9, nanos: 10 });
    let mut expected: Vec<u8> = Vec::new();
    expected.extend(le64_bytes(1));
    expected.extend(le64_bytes(7));
    expected.extend(le64_bytes(8));
    expected.extend(le64_bytes(9));
    expected.extend(le64_bytes(10));
    assert_eq!(idx.encode(), expected);
}

#[test]
fn empty_index_encodes_to_count_zero() {
    let idx = Index::new();
    assert_eq!(idx.encode(), le64_bytes(0));
}

#[test]
fn record_roundtrip_preserves_every_field() {
    let record = Record::new(Id::fresh(), "Order", "Created", "{\"total\":10}");
    let decoded = Record::decode(&record.encode()).unwrap();
    assert_eq!(decoded.id, record.id);
    assert_eq!(decoded.timestamp, record.timestamp);
    assert_eq!(decoded.entity_id, record.entity_id);
    assert_eq!(decoded.entity_type, record.entity_type);
    assert_eq!(decoded.event_name, record.event_name);
    assert_eq!(decoded.event_data, record.event_data);
}

#[test]
fn record_roundtrip_keeps_non_ascii_text() {
    let record = Record::new(Id::fresh(), "catégorie", "créé", "päyload — ✓");
    let decoded = Record::decode(&record.encode()).unwrap();
    assert_eq!(decoded.entity_type, "catégorie");
    assert_eq!(decoded.event_name, "créé");
    assert_eq!(decoded.event_data, "päyload — ✓");
}

#[test]
fn links_roundtrip_keeps_order() {
    let mut idx = Index::new();
    let a = Id { hi: 10, lo: 11 };
    let b = Id { hi: 12, lo: 13 };
    let c = Id { hi: 14, lo: 15 };
    idx.append_record(a);
    idx.append_record(b);
    idx.append_record(c);
    let decoded = Index::decode(idx.id, &idx.encode()).unwrap();
    assert_eq!(decoded.records.len(), 3);
    assert_eq!(decoded.records[0].id, a);
    assert_eq!(decoded.records[1].id, b);
    assert_eq!(decoded.records[2].id, c);
    assert_eq!(decoded.records, idx.records);
}

#[test]
fn appended_timestamps_are_non_decreasing() {
    let mut idx = Index::new();
    for _ in 0..5 {
        idx.append_record(Id::fresh());
    }
    assert_eq!(idx.records.len(), 5);
    for w in idx.records.windows(2) {
        assert!(w[0].timestamp <= w[1].timestamp);
    }
}

#[test]
fn short_record_bytes_fail_with_decode_error() {
    let err = Record::decode(&[1u8, 2, 3]).unwrap_err();
    assert_eq!(err.kind, ErrorKind::Decode);
    let empty: Vec<u8> = Vec::new();
    let err = Record::decode(&empty).unwrap_err();
    assert_eq!(err.kind, ErrorKind::Decode);
}

#[test]
fn truncated_record_bytes_fail_with_decode_error() {
    let record = Record::new(Id::fresh(), "type", "name", "data");
    let encoded = record.encode();
    let err = Record::decode(&encoded[..encoded.len() - 1]).unwrap_err();
    assert_eq!(err.kind, ErrorKind::Decode);
}

#[test]
fn record_with_trailing_bytes_fails_with_decode_error() {
    let record = Record::new(Id::fresh(), "type", "name", "data");
    let mut encoded = record.encode();
    encoded.push(0);
    let err = Record::decode(&encoded).unwrap_err();
    assert_eq!(err.kind, ErrorKind::Decode);
}

#[test]
fn record_with_invalid_utf8_fails_with_decode_error() {
    let record = Record::new(Id::fresh(), "t", "n", "d");
    let mut encoded = record.encode();
    // The last byte is the one-byte event payload: make it a lone
    // continuation byte, which no UTF-8 text contains.
    let last = encoded.len() - 1;
    encoded[last] = 0x80;
    let err = Record::decode(&encoded).unwrap_err();
    assert_eq!(err.kind, ErrorKind::Decode);
}

#[test]
fn short_index_bytes_fail_with_decode_error() {
    let err = Index::decode(Id::fresh(), &[9u8]).unwrap_err();
    assert_eq!(err.kind, ErrorKind::Decode);
}

#[test]
fn index_with_wrong_count_fails_with_decode_error() {
    let mut bytes = le64_bytes(2);
    bytes.extend(vec![0u8; 32]);
    let err = Index::decode(Id::fresh(), &bytes).unwrap_err();
    assert_eq!(err.kind, ErrorKind::Decode);
}

#[test]
fn missing_entity_fails_with_not_found() {
    let storage = Storage::new().unwrap();
    let unknown = Id::fresh();
    let err = storage.get_index(unknown).unwrap_err();
    assert_eq!(err.kind, ErrorKind::NotFound);
    let err = storage.read(unknown).unwrap_err();
    assert_eq!(err.kind, ErrorKind::NotFound);
}

#[test]
fn entities_are_independent() {
    let mut storage = Storage::new().unwrap();
    let r1 = Record::new(Id::fresh(), "t1", "n1", "d1");
    let r2 = Record::new(Id::fresh(), "t2", "n2", "d2");
    assert_ne!(r1.entity_id, r2.entity_id);

    storage.write(&r1).unwrap();
    storage.write(&r2).unwrap();

    let idx1 = storage.get_index(r1.entity_id).unwrap();
    let idx2 = storage.get_index(r2.entity_id).unwrap();
    assert_eq!(idx1.records.len(), 1);
    assert_eq!(idx2.records.len(), 1);
    assert_eq!(idx1.records[0].id, r1.id);
    assert_eq!(idx2.records[0].id, r2.id);
}

#[test]
fn end_to_end_two_events_in_order() {
    let mut storage = Storage::new().unwrap();
    let entity = Id::fresh();
    let created = Record::new(entity, "Order", "Created", "{\"total\":10}");
    storage.write(&created).unwrap();
    let cancelled = Record::new(entity, "Order", "Cancelled", "{}");
    storage.write(&cancelled).unwrap();

    let recs = storage.read(entity).unwrap();
    assert_eq!(recs.len(), 2);
    let first = Record::decode(&recs[0]).unwrap();
    let second = Record::decode(&recs[1]).unwrap();
    assert_eq!(first.event_name, "Created");
    assert_eq!(second.event_name, "Cancelled");
    assert_eq!(first.event_data, "{\"total\":10}");
    assert_eq!(second.event_data, "{}");
}

#[test]
fn merge_appends_operands_in_order() {
    let key = Id { hi: 7, lo: 8 }.to_bytes();
    let op1 = Id { hi: 21, lo: 22 }.to_bytes();
    let op2 = Id { hi: 23, lo: 24 }.to_bytes();

    let first = merge_index_value(&key, None, &vec![op1]).unwrap();
    let second = merge_index_value(&key, Some(&first), &vec![op2]).unwrap();

    let idx = Index::decode(Id { hi: 7, lo: 8 }, &second).unwrap();
    assert_eq!(idx.records.len(), 2);
    assert_eq!(idx.records[0].id, Id { hi: 21, lo: 22 });
    assert_eq!(idx.records[1].id, Id { hi: 23, lo: 24 });
}

#[test]
fn merge_folds_a_batch_of_operands_in_order() {
    let entity = Id { hi: 40, lo: 41 };
    let ops = vec![
        Id { hi: 50, lo: 51 }.to_bytes(),
        Id { hi: 52, lo: 53 }.to_bytes(),
        Id { hi: 54, lo: 55 }.to_bytes(),
    ];
    let merged = merge_index_value(&entity.to_bytes(), None, &ops).unwrap();
    let idx = Index::decode(entity, &merged).unwrap();
    assert_eq!(idx.records.len(), 3);
    assert_eq!(idx.records[0].id, Id { hi: 50, lo: 51 });
    assert_eq!(idx.records[1].id, Id { hi: 52, lo: 53 });
    assert_eq!(idx.records[2].id, Id { hi: 54, lo: 55 });
}

#[test]
fn merge_rejects_malformed_operand() {
    let key = Id::fresh().to_bytes();
    let bad_operand = vec![0u8; 15];
    assert!(merge_index_value(&key, None, &vec![bad_operand]).is_none());
}

#[test]
fn merge_rejects_malformed_key() {
    let operand = Id::fresh().to_bytes();
    let bad_key = vec![0u8; 3];
    assert!(merge_index_value(&bad_key, None, &vec![operand]).is_none());
}

#[test]
fn merge_rejects_corrupt_existing_value() {
    let key = Id::fresh().to_bytes();
    let operand = Id::fresh().to_bytes();
    let corrupt = vec![1u8, 2, 3];
    assert!(merge_index_value(&key, Some(&corrupt), &vec![operand]).is_none());
}

#[test]
fn fresh_timestamps_have_nanos_in_range() {
    let record = Record::new(Id::fresh(), "t", "n", "d");
    assert!(record.timestamp.nanos < 1_000_000_000);
}

#[test]
fn record_links_compare_by_fields() {
    let l1 = RecordLink { id: Id { hi: 1, lo: 2 }, timestamp: Timestamp { secs: 3, nanos: 4 } };
    let l2 = RecordLink { id: Id { hi: 1, lo: 2 }, timestamp: Timestamp { secs: 3, nanos: 4 } };
    assert_eq!(l1, l2);
}
