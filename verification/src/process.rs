//! Deciding what becomes of the operations on one record.
use vstd::prelude::*;

use crate::clock::{told, update_clock};
use crate::error::IngestError;
use crate::field_map::{listing, FieldMap};
use crate::order::{all_until, by_time, in_time_order, last_by_time_is_newest, sort_by_timestamp};
use crate::outside::{encode_value, encoded_value, last_time, max_delta};
use crate::timestamps::{advanced, DeviceTimestamps};
use crate::transaction::{
    creation, deletion, first_updates, handle_crdt_create_and_updates, handle_crdt_deletion,
    handle_crdt_updates, latest_create, latest_create_is_the_last, no_delete, since_create, updates,
    Transaction, TransactionView,
};
use crate::types::{
    CRDTOperationData, CompressedCRDTOperation, DataView, DevicePubId, KindView, ModelId, NTP64,
    OperationKind, OperationView, Query, QueryView, RecordId,
};

verus! {

/// Operations of one device on one record.
#[derive(Debug, PartialEq)]
pub struct RecordOperations {
    pub device_pub_id: DevicePubId,
    pub model: ModelId,
    pub record_id: RecordId,
    pub ops: Vec<CompressedCRDTOperation>,
}

/// The timestamp of the last deletion among `ops`.
pub open spec fn latest_delete(ops: Seq<CompressedCRDTOperation>) -> Option<NTP64>
    decreases ops.len(),
{
    if ops.len() == 0 {
        None
    } else if ops.last().data is Delete {
        Some(ops.last().timestamp)
    } else {
        latest_delete(ops.drop_last())
    }
}

/// `latest_delete` finds a deletion exactly where there is one, and in operations in time order
/// no deletion is newer than the one it finds.
pub proof fn latest_delete_is_the_newest(ops: Seq<CompressedCRDTOperation>)
    ensures
        latest_delete(ops) is None <==> no_delete(ops),
        match latest_delete(ops) {
            Some(time) => {
                &&& exists|i: int| 0 <= i < ops.len() && (#[trigger] ops[i]).data is Delete && ops[i].timestamp == time
                &&& in_time_order(ops) ==> forall|i: int|
                    0 <= i < ops.len() && (#[trigger] ops[i]).data is Delete ==> ops[i].timestamp.0 <= time.0
            },
            None => true,
        },
    decreases ops.len(),
{
    if ops.len() > 0 {
        let init = ops.drop_last();
        latest_delete_is_the_newest(init);
        if ops.last().data is Delete {
            assert(ops[ops.len() - 1].data is Delete);
        } else {
            assert forall|i: int| 0 <= i < ops.len() && (#[trigger] ops[i]).data is Delete implies i
                < init.len() && init[i] == ops[i] by {
            }
            assert forall|i: int| 0 <= i < init.len() implies init[i] == #[trigger] ops[i] by {
            }
            if latest_delete(ops) is Some {
                let i = choose|i: int|
                    0 <= i < init.len() && (#[trigger] init[i]).data is Delete && init[i].timestamp
                        == latest_delete(init)->0;
                assert(ops[i].data is Delete);
            } else {
                assert(no_delete(ops));
            }
        }
    }
}

/// Whether `time` is of the lower half of all timestamps.
pub open spec fn in_lower_half(time: NTP64) -> bool {
    time.0 < 0x8000_0000_0000_0000
}

/// The table holds timestamps as signed numbers: those of the upper half come out negative.
pub open spec fn stored(time: NTP64) -> int {
    if in_lower_half(time) {
        time.0 as int
    } else {
        time.0 - 0x1_0000_0000_0000_0000
    }
}

/// How the table holds `time`.
pub fn stored_timestamp(time: NTP64) -> (res: i64)
    ensures
        res == stored(time),
{
    let bits: u64 = time.0;
    assert((bits as i64) == (if bits < 0x8000_0000_0000_0000 {
        bits as int
    } else {
        bits - 0x1_0000_0000_0000_0000
    })) by (bit_vector);
    #[verifier::truncate]
    let res: i64 = bits as i64;
    res
}

/// Different timestamps are stored differently, and those of the same half in their order.
pub proof fn stored_timestamps_are_faithful(a: NTP64, b: NTP64)
    ensures
        stored(a) == stored(b) ==> a == b,
        in_lower_half(a) == in_lower_half(b) ==> (stored(a) < stored(b) <==> a.0 < b.0),
{
}

/// Asks for the newest operation of one kind on a record, or for one newer than given.
pub open spec fn query(
    model: ModelId,
    record_id: Seq<u8>,
    kind: KindView,
    newer_than: Option<int>,
) -> QueryView {
    QueryView { model: model as int, record_id, kind, newer_than }
}

/// A creation that is written unless the record turns out to have been deleted.
#[derive(Debug)]
pub struct PendingCreation {
    device_pub_id: DevicePubId,
    model_id: ModelId,
    record_id: RecordId,
    ops: Vec<CompressedCRDTOperation>,
    timestamp: NTP64,
}

/// Updates that are written if the record turns out to have been created.
#[derive(Debug)]
pub struct PendingUpdates {
    device_pub_id: DevicePubId,
    model_id: ModelId,
    record_id: RecordId,
    data: FieldMap<(rmpv::Value, NTP64)>,
}

/// The mathematical content of [`PendingCreation`].
#[verifier::ext_equal]
pub ghost struct PendingCreationView {
    pub device_pub_id: DevicePubId,
    pub model_id: ModelId,
    pub record_id: RecordId,
    pub ops: Seq<CompressedCRDTOperation>,
    pub timestamp: NTP64,
}

/// The mathematical content of [`PendingUpdates`].
#[verifier::ext_equal]
pub ghost struct PendingUpdatesView {
    pub device_pub_id: DevicePubId,
    pub model_id: ModelId,
    pub record_id: RecordId,
    pub data: Map<Seq<char>, (rmpv::Value, NTP64)>,
}

impl View for PendingCreation {
    type V = PendingCreationView;

    closed spec fn view(&self) -> PendingCreationView {
        PendingCreationView {
            device_pub_id: self.device_pub_id,
            model_id: self.model_id,
            record_id: self.record_id,
            ops: self.ops@,
            timestamp: self.timestamp,
        }
    }
}

impl View for PendingUpdates {
    type V = PendingUpdatesView;

    closed spec fn view(&self) -> PendingUpdatesView {
        PendingUpdatesView {
            device_pub_id: self.device_pub_id,
            model_id: self.model_id,
            record_id: self.record_id,
            data: self.data@,
        }
    }
}

impl PendingCreation {
    #[verifier::type_invariant]
    spec fn well_formed(self) -> bool {
        no_delete(since_create(self.ops@))
    }

    /// Goes on once it is known whether the table holds a deletion of the record: then the
    /// operations are ignored.
    pub fn resolve(self, deleted: bool) -> (res: Option<Transaction>)
        ensures
            match res {
                Some(transaction) => !deleted && transaction@ == creation(
                    self@.device_pub_id,
                    self@.model_id,
                    self@.record_id,
                    self@.ops,
                    self@.timestamp,
                ),
                None => deleted,
            },
    {
        proof {
            use_type_invariant(&self);
        }
        if deleted {
            return None;
        }
        Some(
            handle_crdt_create_and_updates(
                self.device_pub_id,
                self.model_id,
                self.record_id,
                self.ops,
                self.timestamp,
            ),
        )
    }
}

impl PendingUpdates {
    /// Goes on once it is known whether the table holds a creation of the record, and of each
    /// field whether it holds a newer update. Without a creation the updates are ignored.
    pub fn resolve(self, created: bool, newer: Vec<bool>) -> (res: Option<Transaction>)
        ensures
            match res {
                Some(transaction) => created && transaction@ == updates(
                    self@.device_pub_id,
                    self@.model_id,
                    self@.record_id,
                    self@.data,
                    newer@,
                ),
                None => !created,
            },
    {
        if !created {
            return None;
        }
        Some(
            handle_crdt_updates(self.device_pub_id, self.model_id, self.record_id, self.data, newer),
        )
    }
}

/// What to do next with the operations on a record.
#[derive(Debug)]
pub enum Step {
    /// Write this.
    Write(Transaction),
    /// Look for a deletion of the record, then resolve the creation.
    FindDelete { query: Query, creation: PendingCreation },
    /// Look for a creation of the record and for newer updates, then resolve the updates.
    FindCreateAndUpdates { create: Query, newer: Vec<Query>, updates: PendingUpdates },
}

/// What to do with the operations on a record, and the newest timestamp among them.
#[derive(Debug)]
pub struct Plan {
    pub device_pub_id: DevicePubId,
    pub new_timestamp: NTP64,
    pub step: Step,
}

/// The mathematical content of [`Step`].
#[verifier::ext_equal]
pub ghost enum StepView {
    Write(TransactionView),
    FindDelete { query: QueryView, creation: PendingCreationView },
    FindCreateAndUpdates { create: QueryView, newer: Seq<QueryView>, updates: PendingUpdatesView },
}

/// The mathematical content of [`Plan`].
#[verifier::ext_equal]
pub ghost struct PlanView {
    pub device_pub_id: DevicePubId,
    pub new_timestamp: NTP64,
    pub step: StepView,
}

impl View for Step {
    type V = StepView;

    open spec fn view(&self) -> StepView {
        match *self {
            Step::Write(transaction) => StepView::Write(transaction@),
            Step::FindDelete { query, creation } => StepView::FindDelete {
                query: query@,
                creation: creation@,
            },
            Step::FindCreateAndUpdates { create, newer, updates } => StepView::FindCreateAndUpdates {
                create: create@,
                newer: newer@.map_values(|query: Query| query@),
                updates: updates@,
            },
        }
    }
}

impl View for Plan {
    type V = PlanView;

    open spec fn view(&self) -> PlanView {
        PlanView {
            device_pub_id: self.device_pub_id,
            new_timestamp: self.new_timestamp,
            step: self.step@,
        }
    }
}

/// What to look up for operations without a deletion, the record's identifier having the
/// encoding `encoding`: with a creation among them, an earlier deletion; for updates alone, the
/// creation, and of each field a newer update.
pub open spec fn lookup_step(
    device_pub_id: DevicePubId,
    model_id: ModelId,
    record_id: RecordId,
    ops: Seq<CompressedCRDTOperation>,
    encoding: Seq<u8>,
) -> StepView {
    match latest_create(ops) {
        Some(i) => StepView::FindDelete {
            query: query(model_id, encoding, KindView::Delete, None),
            creation: PendingCreationView {
                device_pub_id,
                model_id,
                record_id,
                ops,
                timestamp: ops[i].timestamp,
            },
        },
        None => {
            let data = first_updates(ops);
            StepView::FindCreateAndUpdates {
                create: query(model_id, encoding, KindView::Create, None),
                newer: listing(data).map_values(
                    |name: Seq<char>|
                        query(model_id, encoding, KindView::Update(name), Some(stored(data[name].1))),
                ),
                updates: PendingUpdatesView { device_pub_id, model_id, record_id, data },
            }
        },
    }
}

/// What to do with `ops`, in time order: a deletion among them overrides all else and is written
/// at once; other operations need a look at the table, by the record's encoded identifier.
pub open spec fn planned_step(
    device_pub_id: DevicePubId,
    model_id: ModelId,
    record_id: RecordId,
    ops: Seq<CompressedCRDTOperation>,
    encoding: Seq<u8>,
) -> StepView {
    match latest_delete(ops) {
        Some(time) => StepView::Write(deletion(device_pub_id, model_id, record_id, time)),
        None => lookup_step(device_pub_id, model_id, record_id, ops, encoding),
    }
}

/// The plan for `ops`, in time order.
pub open spec fn planned(
    device_pub_id: DevicePubId,
    model_id: ModelId,
    record_id: RecordId,
    ops: Seq<CompressedCRDTOperation>,
    encoding: Seq<u8>,
) -> PlanView {
    PlanView {
        device_pub_id,
        new_timestamp: ops.last().timestamp,
        step: planned_step(device_pub_id, model_id, record_id, ops, encoding),
    }
}

/// The timestamp of the last deletion among `ops`, where there is one.
fn find_latest_delete(ops: &Vec<CompressedCRDTOperation>) -> (res: Option<NTP64>)
    ensures
        res == latest_delete(ops@),
{
    let mut i: usize = ops.len();
    assert(ops@.take(i as int) =~= ops@);
    while i > 0
        invariant
            i <= ops@.len(),
            latest_delete(ops@.take(i as int)) == latest_delete(ops@),
        decreases i,
    {
        assert(ops@.take(i as int).drop_last() =~= ops@.take(i - 1));
        assert(ops@.take(i as int).last() == ops@[i - 1]);
        i = i - 1;
        if matches!(ops[i].data, CRDTOperationData::Delete) {
            return Some(ops[i].timestamp);
        }
    }
    None
}

/// The timestamp of the last creation among `ops`, where there is one.
fn find_latest_create(ops: &Vec<CompressedCRDTOperation>) -> (res: Option<NTP64>)
    ensures
        res == match latest_create(ops@) {
            Some(i) => Some(ops@[i].timestamp),
            None => None,
        },
{
    let mut i: usize = ops.len();
    assert(ops@.take(i as int) =~= ops@);
    while i > 0
        invariant
            i <= ops@.len(),
            latest_create(ops@.take(i as int)) == latest_create(ops@),
        decreases i,
    {
        assert(ops@.take(i as int).drop_last() =~= ops@.take(i - 1));
        assert(ops@.take(i as int).last() == ops@[i - 1]);
        i = i - 1;
        if matches!(ops[i].data, CRDTOperationData::Create(_)) {
            return Some(ops[i].timestamp);
        }
    }
    None
}

/// Gathers updates by their fields.
fn collect_updates(ops: Vec<CompressedCRDTOperation>) -> (res: FieldMap<(rmpv::Value, NTP64)>)
    requires
        forall|i: int| 0 <= i < ops@.len() ==> (#[trigger] ops@[i]).data is Update,
    ensures
        res@ == first_updates(ops@),
{
    let ghost all = ops@;
    let mut ops = ops;
    let mut data: FieldMap<(rmpv::Value, NTP64)> = FieldMap::new();
    assert(all.skip(all.len() as int) =~= Seq::empty());
    assert(all.take(all.len() as int) =~= all);
    while ops.len() > 0
        invariant
            forall|i: int| 0 <= i < all.len() ==> (#[trigger] all[i]).data is Update,
            ops@.len() <= all.len(),
            ops@ == all.take(ops@.len() as int),
            data@ == first_updates(all.skip(ops@.len() as int)),
        decreases ops@.len(),
    {
        let ghost k = ops@.len() - 1;
        if let Some(op) = ops.pop() {
            proof {
                assert(op == all[k]);
                assert(ops@ =~= all.take(k));
                assert(all.skip(k).drop_first() =~= all.skip(k + 1));
                assert(all.skip(k)[0] == op);
            }
            if let CRDTOperationData::Update { field, value } = op.data {
                data.insert(field, (value, op.timestamp));
            }
        }
    }
    assert(all.skip(0) =~= all);
    data
}

/// Decides what to look up for operations that hold no deletion, given what encoding the
/// record's identifier yielded.
pub fn plan_lookups(
    record: RecordOperations,
    encoding: Result<Vec<u8>, rmp_serde::encode::Error>,
) -> (res: Result<Step, IngestError>)
    requires
        no_delete(record.ops@),
    ensures
        match encoding {
            Ok(bytes) => res is Ok && res->Ok_0@ == lookup_step(
                record.device_pub_id,
                record.model,
                record.record_id,
                record.ops@,
                bytes@,
            ),
            Err(error) => res == Err::<Step, _>(IngestError::Serialization(error)),
        },
{
    let bytes = match encoding {
        Ok(bytes) => bytes,
        Err(error) => {
            return Err(IngestError::Serialization(error));
        },
    };
    proof {
        latest_create_is_the_last(record.ops@);
    }
    if let Some(timestamp) = find_latest_create(&record.ops) {
        let query = Query {
            model: record.model as i32,
            record_id: bytes,
            kind: OperationKind::Delete,
            newer_than: None,
        };
        let creation = PendingCreation {
            device_pub_id: record.device_pub_id,
            model_id: record.model,
            record_id: record.record_id,
            ops: record.ops,
            timestamp,
        };
        return Ok(Step::FindDelete { query, creation });
    }
    let data = collect_updates(record.ops);
    let ghost names = listing(data@);
    let mut newer: Vec<Query> = Vec::new();
    let n = data.len();
    let mut i: usize = 0;
    while i < n
        invariant
            names == listing(data@),
            n == names.len(),
            i <= n,
            newer@.len() == i,
            forall|j: int|
                0 <= j < i ==> (#[trigger] newer@[j])@ == query(
                    record.model,
                    bytes@,
                    KindView::Update(names[j]),
                    Some(stored(data@[names[j]].1)),
                ),
        decreases n - i,
    {
        let (field, update) = data.at(i);
        let copy = bytes.clone();
        assert(copy@ =~= bytes@);
        newer.push(Query {
            model: record.model as i32,
            record_id: copy,
            kind: OperationKind::Update(field.clone()),
            newer_than: Some(stored_timestamp(update.1)),
        });
        i = i + 1;
    }
    let create = Query {
        model: record.model as i32,
        record_id: bytes,
        kind: OperationKind::Create,
        newer_than: None,
    };
    let updates = PendingUpdates {
        device_pub_id: record.device_pub_id,
        model_id: record.model,
        record_id: record.record_id,
        data,
    };
    let res = Step::FindCreateAndUpdates { create, newer, updates };
    proof {
        assert(res@->newer =~= lookup_step(
            record.device_pub_id,
            record.model,
            record.record_id,
            record.ops@,
            bytes@,
        )->newer);
    }
    Ok(res)
}

/// Decides what becomes of the operations on a record, in the order in which they stand, given
/// what came of telling the clock of the newest of them. A deletion always gets a plan; where
/// there is none, the record's identifier is encoded, which may fail.
pub fn plan(updated: Result<(), String>, record: RecordOperations) -> (res: Result<Plan, IngestError>)
    requires
        record.ops@.len() > 0,
    ensures
        match updated {
            Err(reason) => res == Err::<Plan, _>(IngestError::ClockDrift(reason)),
            Ok(()) => match res {
                Ok(plan) => plan@ == planned(
                    record.device_pub_id,
                    record.model,
                    record.record_id,
                    record.ops@,
                    encoded_value(record.record_id),
                ),
                Err(error) => error is Serialization && latest_delete(record.ops@) is None,
            },
        },
{
    match updated {
        Ok(()) => {},
        Err(reason) => {
            return Err(IngestError::ClockDrift(reason));
        },
    }
    let device_pub_id = record.device_pub_id;
    let new_timestamp = record.ops[record.ops.len() - 1].timestamp;
    let step = if let Some(time) = find_latest_delete(&record.ops) {
        Step::Write(handle_crdt_deletion(device_pub_id, record.model, record.record_id, time))
    } else {
        proof {
            latest_delete_is_the_newest(record.ops@);
        }
        let encoding = encode_value(&record.record_id);
        match plan_lookups(record, encoding) {
            Ok(step) => step,
            Err(error) => {
                return Err(error);
            },
        }
    };
    Ok(Plan { device_pub_id, new_timestamp, step })
}

/// Takes up the operations on a record: puts them in order, tells `clock` of the newest, and
/// decides what becomes of them. Whether the clock refuses is its own affair, except that it
/// accepts a time no greater than the drift it tolerates.
pub fn process_crdt_operations(clock: &mut uhlc::HLC, record: RecordOperations) -> (res: Result<
    Plan,
    IngestError,
>)
    requires
        record.ops@.len() > 0,
        record.device_pub_id.uuid != 0,
        last_time(*old(clock)) < u64::MAX,
        all_until(record.ops@, (u64::MAX - 1) as u64),
    ensures
        match res {
            Ok(plan) => plan@ == planned(
                record.device_pub_id,
                record.model,
                record.record_id,
                by_time(record.ops@),
                encoded_value(record.record_id),
            ),
            Err(IngestError::Serialization(_)) => latest_delete(by_time(record.ops@)) is None,
            Err(IngestError::ClockDrift(_)) => by_time(record.ops@).last().timestamp.0 > max_delta(
                *old(clock),
            ),
            Err(IngestError::InvalidModelId(_)) => false,
        },
        told(
            *old(clock),
            *final(clock),
            record.device_pub_id,
            by_time(record.ops@).last().timestamp,
            match res {
                Err(IngestError::ClockDrift(reason)) => Some(reason@),
                _ => None,
            },
        ),
{
    proof {
        last_by_time_is_newest(record.ops@);
    }
    let ops = sort_by_timestamp(record.ops);
    let time = ops[ops.len() - 1].timestamp;
    let updated = update_clock(clock, record.device_pub_id, time);
    plan(
        updated,
        RecordOperations {
            device_pub_id: record.device_pub_id,
            model: record.model,
            record_id: record.record_id,
            ops,
        },
    )
}

/// How the operations on a record ended up.
#[derive(Clone, Copy, Debug, PartialEq, Eq, Structural)]
pub enum Outcome {
    /// They were written.
    Written,
    /// They were ignored for what the table holds already.
    Ignored,
    /// They could not be read up on or written.
    Failed,
}

/// What is to be written, once it is resolved what becomes of the operations; where nothing is,
/// they end up ignored.
pub fn to_write(resolved: Option<Transaction>) -> (res: Result<Transaction, Outcome>)
    ensures
        match resolved {
            Some(transaction) => res == Ok::<Transaction, Outcome>(transaction),
            None => res == Err::<Transaction, Outcome>(Outcome::Ignored),
        },
{
    match resolved {
        Some(transaction) => Ok(transaction),
        None => Err(Outcome::Ignored),
    }
}

/// Takes note of how far `device` has been ingested, once its operations on a record are through:
/// only where they were written.
pub fn conclude(
    timestamps: &mut DeviceTimestamps,
    device: DevicePubId,
    new_timestamp: NTP64,
    outcome: Outcome,
)
    ensures
        final(timestamps)@ == if outcome is Written {
            advanced(old(timestamps)@, device, new_timestamp)
        } else {
            old(timestamps)@
        },
{
    if matches!(outcome, Outcome::Written) {
        timestamps.advance(device, new_timestamp);
    }
}

/// A deletion overrides all else: what becomes of operations with a deletion among them is what
/// becomes of their last deletion alone, whatever the encoding of the record's identifier.
pub proof fn deletion_overrides_all_else(
    device_pub_id: DevicePubId,
    model_id: ModelId,
    record_id: RecordId,
    ops: Seq<CompressedCRDTOperation>,
    i: int,
    encoding: Seq<u8>,
    other: Seq<u8>,
)
    requires
        0 <= i < ops.len(),
        ops[i].data is Delete,
        forall|j: int| i < j < ops.len() ==> !((#[trigger] ops[j]).data is Delete),
    ensures
        planned_step(device_pub_id, model_id, record_id, ops, encoding) == planned_step(
            device_pub_id,
            model_id,
            record_id,
            seq![ops[i]],
            other,
        ),
        planned_step(device_pub_id, model_id, record_id, ops, encoding) == StepView::Write(
            deletion(device_pub_id, model_id, record_id, ops[i].timestamp),
        ),
{
    latest_delete_at(ops, i);
    latest_delete_at(seq![ops[i]], 0);
}

/// `latest_delete` gives the time of the deletion at `i`, where no other follows it.
pub(crate) proof fn latest_delete_at(ops: Seq<CompressedCRDTOperation>, i: int)
    requires
        0 <= i < ops.len(),
        ops[i].data is Delete,
        forall|j: int| i < j < ops.len() ==> !((#[trigger] ops[j]).data is Delete),
    ensures
        latest_delete(ops) == Some(ops[i].timestamp),
    decreases ops.len(),
{
    if i < ops.len() - 1 {
        assert(!(ops[ops.len() - 1].data is Delete));
        let init = ops.drop_last();
        assert forall|j: int| i < j < init.len() implies !((#[trigger] init[j]).data is Delete) by {
            assert(ops[j] == init[j]);
        }
        latest_delete_at(init, i);
    }
}

/// The timestamp that a plan takes note of is that of the newest operation, and is borne by one.
pub proof fn plan_notes_the_newest_timestamp(
    device_pub_id: DevicePubId,
    model_id: ModelId,
    record_id: RecordId,
    ops: Seq<CompressedCRDTOperation>,
    encoding: Seq<u8>,
)
    requires
        ops.len() > 0,
    ensures
        all_until(
            ops,
            planned(device_pub_id, model_id, record_id, by_time(ops), encoding).new_timestamp.0,
        ),
        exists|i: int|
            0 <= i < ops.len() && (#[trigger] ops[i]).timestamp == planned(
                device_pub_id,
                model_id,
                record_id,
                by_time(ops),
                encoding,
            ).new_timestamp,
{
    last_by_time_is_newest(ops);
}

/// The kind of an operation.
pub open spec fn kind_of(data: DataView) -> KindView {
    match data {
        DataView::Create(_) => KindView::Create,
        DataView::Update { field, .. } => KindView::Update(field),
        DataView::Delete => KindView::Delete,
    }
}

/// Whether a table that keeps `op` has an answer to `query`.
pub open spec fn answers(op: OperationView, query: QueryView) -> bool {
    &&& op.model_id == query.model
    &&& encoded_value(op.record_id) == query.record_id
    &&& kind_of(op.data) == query.kind
    &&& query.newer_than matches Some(time) ==> stored(op.timestamp) > time
}

/// A deletion is final: what was kept of it answers the question that is asked before the same
/// record is created, by whatever device; and that question is asked of every such creation.
pub proof fn deleted_records_stay_deleted(
    deleter: DevicePubId,
    creator: DevicePubId,
    model_id: ModelId,
    record_id: RecordId,
    time: NTP64,
    ops: Seq<CompressedCRDTOperation>,
)
    requires
        latest_delete(ops) is None,
        latest_create(ops) is Some,
    ensures
        ({
            let step = planned_step(creator, model_id, record_id, ops, encoded_value(record_id));
            &&& step is FindDelete
            &&& answers(deletion(deleter, model_id, record_id, time).log[0], step->query)
        }),
{
}

/// A record that was created takes updates: what was kept of its creation answers the question
/// that is asked before the same record is updated, by whatever device.
pub proof fn created_records_take_updates(
    creator: DevicePubId,
    updater: DevicePubId,
    model_id: ModelId,
    record_id: RecordId,
    created: Seq<CompressedCRDTOperation>,
    time: NTP64,
    ops: Seq<CompressedCRDTOperation>,
)
    requires
        latest_create(created) is Some,
        latest_delete(ops) is None,
        latest_create(ops) is None,
    ensures
        ({
            let step = planned_step(updater, model_id, record_id, ops, encoded_value(record_id));
            &&& step is FindCreateAndUpdates
            &&& answers(creation(creator, model_id, record_id, created, time).log.last(), step->create)
        }),
{
    latest_create_is_the_last(created);
    let c = latest_create(created)->0;
    let kept = created.skip(c);
    assert(kept.reverse()[kept.len() - 1] == created[c]);
}

/// Of each field that is updated it is asked whether a newer update is kept: one of the same
/// record and field answers exactly where it is newer, as far as the two timestamps are of the
/// same half, where stored timestamps keep their order.
pub proof fn newer_updates_prevail(
    device_pub_id: DevicePubId,
    model_id: ModelId,
    record_id: RecordId,
    ops: Seq<CompressedCRDTOperation>,
    i: int,
    kept: OperationView,
)
    requires
        latest_delete(ops) is None,
        latest_create(ops) is None,
        0 <= i < listing(first_updates(ops)).len(),
        kept.model_id == model_id,
        kept.record_id == record_id,
        kind_of(kept.data) == KindView::Update(listing(first_updates(ops))[i]),
        in_lower_half(kept.timestamp) == in_lower_half(
            first_updates(ops)[listing(first_updates(ops))[i]].1,
        ),
    ensures
        ({
            let step = planned_step(device_pub_id, model_id, record_id, ops, encoded_value(record_id));
            let data = first_updates(ops);
            &&& step is FindCreateAndUpdates
            &&& step->newer.len() == listing(data).len()
            &&& answers(kept, step->newer[i]) <==> kept.timestamp.0 > data[listing(data)[i]].1.0
        }),
{
}

} // verus!
