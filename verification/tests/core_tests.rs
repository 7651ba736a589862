use esto_core::get_version;
use esto_core::index::Index;
use esto_core::record::{Id, Record};
use esto_core::storage::Storage;

#[test]
fn it_works() {
    assert_eq!(2 + 2, 4);
}

#[test]
fn version_is_reported() {
    assert_eq!(get_version(), "0.0.1");
}

#[test]
fn index_to_bin_to_index() {
    let i = Index::new();
    let v = i.encode();
    let new_i = Index::decode(i.id, &v).unwrap();
    assert!(i.records == new_i.records)
}

#[test]
fn index_to_bin_to_index_with_record() {
    let u = Id::fresh();

    let mut i = Index::new();
    i.append_record(u);

    let v = i.encode();
    let new_i = Index::decode(i.id, &v).unwrap();

    assert!(new_i.records.len() == 1);
    assert!(i.records.len() == new_i.records.len());
}

#[test]
fn record_to_bin_to_record() {
    let record = Record::new(Id::fresh(), "type", "name", "data");
    let encoded = record.encode();
    let new_record = Record::decode(&encoded).unwrap();
    assert!(record.entity_id == new_record.entity_id)
}

#[test]
fn can_write_a_record() {
    let mut storage = Storage::new().unwrap();
    let record = Record::new(Id::fresh(), "type", "name", "data");

    storage.write(&record).unwrap();

    let idx = storage.get_index(record.entity_id).unwrap();
    assert_eq!(idx.records.len(), 1);

    let recs = storage.read(idx.id).unwrap();
    assert_eq!(recs.len(), 1);

    let record = Record::decode(&recs[0]).unwrap();
    assert_eq!(record.entity_id, idx.id);
    assert_eq!(record.entity_type, "type");
    assert_eq!(record.event_name, "name");
    assert_eq!(record.event_data, "data");
}

#[test]
fn can_write_two_records() {
    let mut storage = Storage::new().unwrap();

    let record1 = Record::new(Id::fresh(), "type1", "name1", "data1");
    let record2 = Record::new(record1.entity_id, "type2", "name2", "data2");

    storage.write(&record1).unwrap();
    storage.write(&record2).unwrap();

    assert_eq!(record1.entity_id, record2.entity_id);

    let idx = storage.get_index(record1.entity_id).unwrap();
    assert_eq!(idx.records.len(), 2);
    assert_eq!(idx.records[0].id, record1.id);
    assert_eq!(idx.records[1].id, record2.id);
    // Check timestamps
    assert!(idx.records[0].timestamp < idx.records[1].timestamp);

    let recs = storage.read(idx.id).unwrap();
    assert_eq!(recs.len(), 2);

    let mut record = Record::decode(&recs[0]).unwrap();
    assert_eq!(record.entity_id, idx.id);
    assert_eq!(record.entity_type, "type1");
    assert_eq!(record.event_name, "name1");
    assert_eq!(record.event_data, "data1");

    record = Record::decode(&recs[1]).unwrap();
    assert_eq!(record.entity_id, idx.id);
    assert_eq!(record.entity_type, "type2");
    assert_eq!(record.event_name, "name2");
    assert_eq!(record.event_data, "data2");
}
