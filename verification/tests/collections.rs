use sync_ingest::field_map::FieldMap;
use sync_ingest::order::sort_by_timestamp;
use sync_ingest::timestamps::DeviceTimestamps;
use sync_ingest::transaction::{
    handle_crdt_create_and_updates, handle_crdt_deletion, handle_crdt_updates, TRANSACTION_TIMEOUT_MS,
};
use sync_ingest::types::{CRDTOperationData, CompressedCRDTOperation, DevicePubId, NTP64};

fn update(time: u64, field: &str, value: i64) -> CompressedCRDTOperation {
    CompressedCRDTOperation {
        timestamp: NTP64(time),
        data: CRDTOperationData::Update { field: field.to_string(), value: rmpv::Value::from(value) },
    }
}

fn sorted(times: &[u64]) -> Vec<(u64, i64)> {
    let ops = times.iter().enumerate().map(|(i, time)| update(*time, "n", i as i64)).collect();
    sort_by_timestamp(ops)
        .into_iter()
        .map(|op| match op.data {
            CRDTOperationData::Update { value, .. } => (op.timestamp.0, value.as_i64().unwrap()),
            _ => panic!("not an update"),
        })
        .collect()
}

#[test]
fn sorting_keeps_operations_of_one_time_as_they_stand() {
    assert_eq!(sorted(&[]), vec![]);
    assert_eq!(sorted(&[4]), vec![(4, 0)]);
    assert_eq!(
        sorted(&[5, 1, 5, 3, 1, 5, 2]),
        vec![(1, 1), (1, 4), (2, 6), (3, 3), (5, 0), (5, 2), (5, 5)]
    );
}

#[test]
fn sorting_agrees_with_the_standard_library() {
    let mut seed: u64 = 12345;
    let mut times: Vec<u64> = Vec::new();
    for _ in 0..500 {
        seed = seed.wrapping_mul(6364136223846793005).wrapping_add(1442695040888963407);
        times.push((seed >> 33) % 50);
    }
    let mut expected: Vec<(u64, i64)> =
        times.iter().enumerate().map(|(i, time)| (*time, i as i64)).collect();
    expected.sort_by_key(|pair| pair.0);
    assert_eq!(sorted(&times), expected);
}

#[test]
fn arrival_order_makes_no_difference() {
    let times = |pairs: Vec<(u64, i64)>| pairs.into_iter().map(|pair| pair.0).collect::<Vec<u64>>();
    assert_eq!(times(sorted(&[3, 1, 2])), times(sorted(&[2, 3, 1])));
}

#[test]
fn fields_are_walked_in_the_order_of_their_names() {
    let names = ["b", "", "a\u{e9}", "a", "\u{1f600}", "ab", "\u{ffff}", "Z"];
    let mut map: FieldMap<usize> = FieldMap::new();
    let mut tree = std::collections::BTreeMap::new();
    for (i, name) in names.iter().enumerate() {
        map.insert(name.to_string(), i);
        tree.insert(name.to_string(), i);
    }
    assert_eq!(map.len(), names.len());
    assert_eq!(map.at(0).0, "");
    assert_eq!(map.at(1), (&"Z".to_string(), &7));
    assert_eq!(map.into_entries(), tree.into_iter().collect::<Vec<_>>());
}

#[test]
fn fields_can_be_replaced_and_removed() {
    let mut map: FieldMap<i32> = FieldMap::new();
    let name = "name".to_string();
    assert_eq!(map.get(&name), None);
    map.insert(name.clone(), 1);
    map.insert_if_absent(name.clone(), 2);
    assert_eq!(map.get(&name), Some(&1));
    map.insert(name.clone(), 3);
    assert_eq!(map.get(&name), Some(&3));
    assert_eq!(map.len(), 1);
    map.insert_if_absent("size".to_string(), 4);
    map.remove(&"other".to_string());
    assert_eq!(map.len(), 2);
    map.remove(&name);
    assert_eq!(map.into_entries(), vec![("size".to_string(), 4)]);
}

#[test]
fn known_timestamps_do_not_go_back() {
    let a = DevicePubId { uuid: 1 };
    let b = DevicePubId { uuid: 2 };
    let mut timestamps = DeviceTimestamps::new();
    assert!(timestamps.pairs().is_empty());
    timestamps.advance(a, NTP64(7));
    timestamps.advance(b, NTP64(0));
    timestamps.advance(a, NTP64(6));
    assert_eq!(timestamps.get(a), Some(NTP64(7)));
    assert_eq!(timestamps.get(b), Some(NTP64(0)));
    timestamps.advance(a, NTP64(9));
    let mut pairs = timestamps.pairs();
    pairs.sort();
    assert_eq!(pairs, vec![(a, NTP64(9)), (b, NTP64(0))]);
}

#[test]
fn updates_without_a_creation_can_be_collapsed() {
    let device = DevicePubId { uuid: 3 };
    let ops = vec![update(1, "x", 10), update(2, "x", 20), update(3, "y", 30)];
    let transaction =
        handle_crdt_create_and_updates(device, 2, rmpv::Value::Nil, ops, NTP64(77));
    let mut expected = FieldMap::new();
    expected.insert("x".to_string(), rmpv::Value::from(10));
    expected.insert("y".to_string(), rmpv::Value::from(30));
    assert_eq!(transaction.apply.data, CRDTOperationData::Create(expected));
    assert_eq!(transaction.apply.timestamp, NTP64(77));
    assert_eq!(
        transaction.log.iter().map(|op| op.timestamp.0).collect::<Vec<u64>>(),
        vec![3, 2, 1]
    );
}

#[test]
fn a_batch_equals_its_fields_one_by_one() {
    let device = DevicePubId { uuid: 3 };
    let names = ["a", "b", "c", "d"];
    let newer = vec![true, false, true, false];
    let mut data = FieldMap::new();
    for (i, name) in names.iter().enumerate() {
        data.insert(name.to_string(), (rmpv::Value::from(i as i64), NTP64(i as u64)));
    }
    let batch = handle_crdt_updates(device, 2, rmpv::Value::Nil, data, newer.clone());
    let mut single = Vec::new();
    for (i, name) in names.iter().enumerate() {
        let mut data = FieldMap::new();
        data.insert(name.to_string(), (rmpv::Value::from(i as i64), NTP64(i as u64)));
        single.extend(handle_crdt_updates(device, 2, rmpv::Value::Nil, data, vec![newer[i]]).log);
    }
    assert_eq!(batch.log, single);
    assert_eq!(batch.apply.timestamp, NTP64(0));
}

#[test]
fn a_deletion_is_applied_and_kept() {
    let device = DevicePubId { uuid: 3 };
    let transaction = handle_crdt_deletion(device, 2, rmpv::Value::from(true), NTP64(5));
    assert_eq!(transaction.log, vec![transaction.apply]);
    assert_eq!(TRANSACTION_TIMEOUT_MS, 30 * 1000);
}
