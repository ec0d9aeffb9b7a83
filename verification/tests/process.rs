use sync_ingest::clock::{clock_id_of, new_clock, update_clock};
use sync_ingest::error::IngestError;
use sync_ingest::process::{
    conclude, plan, plan_lookups, process_crdt_operations, stored_timestamp, to_write, Outcome, Plan,
    RecordOperations, Step,
};
use sync_ingest::timestamps::DeviceTimestamps;
use sync_ingest::types::{
    CRDTOperation, CRDTOperationData, CompressedCRDTOperation, DevicePubId, NTP64, OperationKind, Query,
};
use sync_ingest::field_map::FieldMap;
use std::time::Duration;

const NOON: u64 = 1_000 << 32;

fn noon() -> uhlc::NTP64 {
    uhlc::NTP64(NOON)
}

fn clock() -> uhlc::HLC {
    uhlc::HLCBuilder::new().with_clock(noon).with_max_delta(Duration::from_secs(1)).build()
}

fn device(uuid: u128) -> DevicePubId {
    DevicePubId { uuid }
}

fn fields(entries: &[(&str, i64)]) -> FieldMap<rmpv::Value> {
    let mut res = FieldMap::new();
    for (field, value) in entries {
        res.insert(field.to_string(), rmpv::Value::from(*value));
    }
    res
}

fn create(time: u64, entries: &[(&str, i64)]) -> CompressedCRDTOperation {
    CompressedCRDTOperation {
        timestamp: NTP64(time),
        data: CRDTOperationData::Create(fields(entries)),
    }
}

fn update(time: u64, field: &str, value: i64) -> CompressedCRDTOperation {
    CompressedCRDTOperation { timestamp: NTP64(time), data: update_data(field, value) }
}

fn update_data(field: &str, value: i64) -> CRDTOperationData {
    CRDTOperationData::Update { field: field.to_string(), value: rmpv::Value::from(value) }
}

fn delete(time: u64) -> CompressedCRDTOperation {
    CompressedCRDTOperation { timestamp: NTP64(time), data: CRDTOperationData::Delete }
}

fn record(ops: Vec<CompressedCRDTOperation>) -> RecordOperations {
    RecordOperations { device_pub_id: device(9), model: 6, record_id: rmpv::Value::from("ab"), ops }
}

fn operation(time: u64, data: CRDTOperationData) -> CRDTOperation {
    CRDTOperation {
        device_pub_id: device(9),
        timestamp: NTP64(time),
        model_id: 6,
        record_id: rmpv::Value::from("ab"),
        data,
    }
}

fn query(kind: OperationKind, newer_than: Option<i64>) -> Query {
    Query { model: 6, record_id: vec![0xa2, b'a', b'b'], kind, newer_than }
}

fn planned(ops: Vec<CompressedCRDTOperation>) -> Plan {
    process_crdt_operations(&mut clock(), record(ops)).unwrap()
}

#[test]
fn the_last_deletion_overrides_all_else() {
    let plan = planned(vec![
        update(8, "name", 1),
        delete(5),
        create(7, &[("name", 2)]),
        delete(3),
    ]);
    assert_eq!(plan.device_pub_id, device(9));
    assert_eq!(plan.new_timestamp, NTP64(8));
    match plan.step {
        Step::Write(transaction) => {
            assert_eq!(transaction.apply, operation(5, CRDTOperationData::Delete));
            assert_eq!(transaction.log, vec![operation(5, CRDTOperationData::Delete)]);
        }
        _ => panic!("not a deletion"),
    }
}

#[test]
fn a_creation_is_written_unless_the_record_was_deleted() {
    let ops = || {
        vec![
            update(9, "size", 90),
            update(2, "name", 20),
            create(4, &[("name", 1), ("note", 2), ("size", 3)]),
            create(1, &[("old", 1)]),
            update(6, "size", 60),
        ]
    };
    match planned(ops()).step {
        Step::FindDelete { query: asked, creation } => {
            assert_eq!(asked, query(OperationKind::Delete, None));
            assert!(creation.resolve(true).is_none());
        }
        _ => panic!("not a creation"),
    }
    let plan = planned(ops());
    assert_eq!(plan.new_timestamp, NTP64(9));
    match plan.step {
        Step::FindDelete { creation, .. } => {
            let transaction = creation.resolve(false).unwrap();
            assert_eq!(
                transaction.apply,
                operation(
                    4,
                    CRDTOperationData::Create(fields(&[("name", 1), ("note", 2), ("size", 60)]))
                )
            );
            assert_eq!(
                transaction.log,
                vec![
                    operation(9, update_data("size", 90)),
                    operation(6, update_data("size", 60)),
                    operation(
                        4,
                        CRDTOperationData::Create(fields(&[("name", 1), ("note", 2), ("size", 3)]))
                    ),
                ]
            );
        }
        _ => panic!("not a creation"),
    }
}

#[test]
fn updates_are_batched_by_field() {
    let ops = || vec![update(7, "size", 70), update(3, "name", 30), update(5, "size", 50)];
    let plan = planned(ops());
    assert_eq!(plan.new_timestamp, NTP64(7));
    match plan.step {
        Step::FindCreateAndUpdates { create, newer, updates } => {
            assert_eq!(create, query(OperationKind::Create, None));
            assert_eq!(
                newer,
                vec![
                    query(OperationKind::Update("name".to_string()), Some(3)),
                    query(OperationKind::Update("size".to_string()), Some(5)),
                ]
            );
            let transaction = updates.resolve(true, vec![false, false]).unwrap();
            assert_eq!(
                transaction.apply,
                operation(0, CRDTOperationData::Create(fields(&[("size", 50), ("name", 30)])))
            );
            assert_eq!(
                transaction.log,
                vec![operation(3, update_data("name", 30)), operation(5, update_data("size", 50))]
            );
        }
        _ => panic!("not updates"),
    }
}

#[test]
fn superseded_updates_are_dropped() {
    let ops = || vec![update(7, "size", 70), update(3, "name", 30), update(5, "kind", 50)];
    let resolved = |created: bool, newer: Vec<bool>| match planned(ops()).step {
        Step::FindCreateAndUpdates { updates, .. } => updates.resolve(created, newer),
        _ => panic!("not updates"),
    };
    assert!(resolved(false, vec![false, false, false]).is_none());
    let transaction = resolved(true, vec![false, true, false]).unwrap();
    assert_eq!(
        transaction.apply,
        operation(0, CRDTOperationData::Create(fields(&[("kind", 50), ("size", 70)])))
    );
    assert_eq!(
        transaction.log,
        vec![operation(5, update_data("kind", 50)), operation(7, update_data("size", 70))]
    );
    let transaction = resolved(true, vec![true, true, true]).unwrap();
    assert_eq!(transaction.apply, operation(0, CRDTOperationData::Create(fields(&[]))));
    assert!(transaction.log.is_empty());
    let transaction = resolved(true, vec![true]).unwrap();
    assert_eq!(transaction.log.len(), 2);
    let transaction = resolved(true, vec![false, false, false, true]).unwrap();
    assert_eq!(transaction.log.len(), 3);
}

#[test]
fn an_unknown_model_is_reported() {
    match planned(vec![delete(1)]).step {
        Step::Write(transaction) => {
            assert!(transaction.require_model(true).is_ok());
            assert!(matches!(
                transaction.require_model(false),
                Err(IngestError::InvalidModelId(6))
            ));
        }
        _ => panic!("not a deletion"),
    }
}

#[test]
fn an_encoding_failure_is_reported() {
    let failure = || rmp_serde::encode::Error::UnknownLength;
    assert!(matches!(
        plan_lookups(record(vec![update(1, "name", 1)]), Err(failure())),
        Err(IngestError::Serialization(rmp_serde::encode::Error::UnknownLength))
    ));
    match plan_lookups(record(vec![create(1, &[])]), Ok(vec![1, 2, 3])) {
        Ok(Step::FindDelete { query, .. }) => assert_eq!(query.record_id, vec![1, 2, 3]),
        _ => panic!("not a creation"),
    }
}

#[test]
fn a_refusal_of_the_clock_is_reported() {
    assert!(matches!(
        plan(Err("late".to_string()), record(vec![delete(1)])),
        Err(IngestError::ClockDrift(reason)) if reason == "late"
    ));
    let ahead = NOON + (1 << 32);
    assert!(process_crdt_operations(&mut clock(), record(vec![delete(ahead)])).is_ok());
    assert!(matches!(
        process_crdt_operations(&mut clock(), record(vec![delete(ahead + 1), delete(1)])),
        Err(IngestError::ClockDrift(_))
    ));
}

#[test]
fn the_clock_moves_past_the_newest_operation() {
    let mut clock = clock();
    let ahead = NOON + (1 << 31);
    process_crdt_operations(&mut clock, record(vec![delete(ahead), delete(4)])).unwrap();
    // It now stands one past the newest operation, and gives out the time after that.
    assert_eq!(clock.new_timestamp().get_time().as_u64(), ahead + 2);
    process_crdt_operations(&mut clock, record(vec![delete(4)])).unwrap();
    assert_eq!(clock.new_timestamp().get_time().as_u64(), ahead + 4);
}

#[test]
fn the_clock_stays_where_it_is_when_it_refuses() {
    let mut clock = clock();
    let ahead = NOON + (1 << 31);
    update_clock(&mut clock, device(1), NTP64(ahead)).unwrap();
    assert!(update_clock(&mut clock, device(1), NTP64(NOON * 2)).is_err());
    assert_eq!(clock.new_timestamp().get_time().as_u64(), ahead + 2);
}

#[test]
fn the_clock_is_told_who_reached_the_time() {
    let sender = device(0xa1a2a3a4_b1b2_c1c2_d1d2_d3d4d5d6d7d8);
    assert_eq!(clock_id_of(sender), 0xd8d7d6d5d4d3d2d1c2c1b2b1a4a3a2a1);
    assert_eq!(clock_id_of(device(0)), 0);
    assert_eq!(clock_id_of(device(1)), 1 << 120);
    let reason = update_clock(&mut clock(), sender, NTP64(NOON * 2)).unwrap_err();
    assert!(reason.contains("d8d7d6d5d4d3d2d1c2c1b2b1a4a3a2a1"));
    assert!(update_clock(&mut clock(), sender, NTP64(0)).is_ok());
}

#[test]
fn a_new_clock_bears_the_identifier_of_its_device() {
    let owner = device(0xa1a2a3a4_b1b2_c1c2_d1d2_d3d4d5d6d7d8);
    let mut clock = new_clock(owner);
    assert_eq!(
        clock.get_id().to_le_bytes(),
        0xd8d7d6d5d4d3d2d1c2c1b2b1a4a3a2a1u128.to_le_bytes()
    );
    assert!(update_clock(&mut clock, device(1), NTP64(1)).is_ok());
    assert!(process_crdt_operations(&mut clock, record(vec![delete(2)])).is_ok());
    let first = *clock.new_timestamp().get_time();
    update_clock(&mut clock, device(1), NTP64(first.as_u64() + 1)).unwrap();
    assert!(clock.new_timestamp().get_time().as_u64() > first.as_u64() + 1);
}

#[test]
fn timestamps_are_stored_as_signed_numbers() {
    assert_eq!(stored_timestamp(NTP64(0)), 0);
    assert_eq!(stored_timestamp(NTP64(7)), 7);
    assert_eq!(stored_timestamp(NTP64(0x7fff_ffff_ffff_ffff)), i64::MAX);
    assert_eq!(stored_timestamp(NTP64(0x8000_0000_0000_0000)), i64::MIN);
    assert_eq!(stored_timestamp(NTP64(u64::MAX)), -1);
}

#[test]
fn ignored_operations_leave_the_timestamps() {
    let mut timestamps = DeviceTimestamps::new();
    match planned(vec![create(4, &[("name", 1)])]).step {
        Step::FindDelete { creation, .. } => {
            let outcome = to_write(creation.resolve(true)).unwrap_err();
            assert_eq!(outcome, Outcome::Ignored);
            conclude(&mut timestamps, device(9), NTP64(4), outcome);
        }
        _ => panic!("not a creation"),
    }
    assert_eq!(timestamps.get(device(9)), None);
    match planned(vec![create(4, &[("name", 1)])]).step {
        Step::FindDelete { creation, .. } => {
            let transaction = to_write(creation.resolve(false)).unwrap();
            assert_eq!(transaction.apply.timestamp, NTP64(4));
            assert_eq!(transaction.log.len(), 1);
        }
        _ => panic!("not a creation"),
    }
}

#[test]
fn only_written_operations_count() {
    let mut timestamps = DeviceTimestamps::new();
    conclude(&mut timestamps, device(1), NTP64(5), Outcome::Ignored);
    conclude(&mut timestamps, device(1), NTP64(5), Outcome::Failed);
    assert_eq!(timestamps.get(device(1)), None);
    conclude(&mut timestamps, device(1), NTP64(5), Outcome::Written);
    assert_eq!(timestamps.get(device(1)), Some(NTP64(5)));
    conclude(&mut timestamps, device(1), NTP64(3), Outcome::Written);
    assert_eq!(timestamps.get(device(1)), Some(NTP64(5)));
    conclude(&mut timestamps, device(1), NTP64(8), Outcome::Written);
    assert_eq!(timestamps.get(device(1)), Some(NTP64(8)));
    assert_eq!(timestamps.get(device(2)), None);
}
