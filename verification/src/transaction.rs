//! What is written to the database for the operations on one record.
use vstd::prelude::*;

use crate::error::IngestError;
use crate::field_map::{
    finite_maps_are_listed, is_listing, listing, names_are_strictly_ordered, FieldMap,
};
use crate::order::in_time_order;
use crate::types::{
    CRDTOperation, CRDTOperationData, CompressedCRDTOperation, DataView, DevicePubId, ModelId, NTP64,
    OperationView, RecordId,
};

verus! {

/// How long a transaction may take, in milliseconds.
pub const TRANSACTION_TIMEOUT_MS: u64 = 30_000;

/// What is to be written at once: one operation to apply to the record, and the operations to
/// keep in the operations table.
#[derive(Debug, PartialEq)]
pub struct Transaction {
    pub apply: CRDTOperation,
    pub log: Vec<CRDTOperation>,
}

/// The mathematical content of [`Transaction`].
#[verifier::ext_equal]
pub ghost struct TransactionView {
    pub apply: OperationView,
    pub log: Seq<OperationView>,
}

impl View for Transaction {
    type V = TransactionView;

    open spec fn view(&self) -> TransactionView {
        TransactionView {
            apply: self.apply@,
            log: self.log@.map_values(|op: CRDTOperation| op@),
        }
    }
}

/// The operation `op` of `device` on a record.
pub open spec fn operation_on(
    device_pub_id: DevicePubId,
    model_id: ModelId,
    record_id: RecordId,
    op: CompressedCRDTOperation,
) -> OperationView {
    OperationView { device_pub_id, timestamp: op.timestamp, model_id, record_id, data: op.data@ }
}

/// Where the last creation among `ops` stands.
pub open spec fn latest_create(ops: Seq<CompressedCRDTOperation>) -> Option<int>
    decreases ops.len(),
{
    if ops.len() == 0 {
        None
    } else if ops.last().data is Create {
        Some(ops.len() - 1)
    } else {
        latest_create(ops.drop_last())
    }
}

/// `latest_create` finds a creation, no other follows it, and it finds one if there is one.
pub proof fn latest_create_is_the_last(ops: Seq<CompressedCRDTOperation>)
    ensures
        match latest_create(ops) {
            Some(c) => {
                &&& 0 <= c < ops.len()
                &&& ops[c].data is Create
                &&& forall|i: int| c < i < ops.len() ==> !((#[trigger] ops[i]).data is Create)
            },
            None => forall|i: int| 0 <= i < ops.len() ==> !((#[trigger] ops[i]).data is Create),
        },
    decreases ops.len(),
{
    if ops.len() > 0 {
        let init = ops.drop_last();
        latest_create_is_the_last(init);
        if !(ops.last().data is Create) {
            let start = match latest_create(init) {
                Some(c) => c + 1,
                None => 0,
            };
            assert forall|i: int| start <= i < ops.len() implies !((#[trigger] ops[i]).data is Create) by {
                if i < init.len() {
                    assert(init[i] == ops[i]);
                }
            }
        }
    }
}

/// The operations that come after the last creation: all of them where there is none.
pub open spec fn since_create(ops: Seq<CompressedCRDTOperation>) -> Seq<CompressedCRDTOperation> {
    match latest_create(ops) {
        Some(i) => ops.skip(i + 1),
        None => ops,
    }
}

/// Whether `ops` holds no deletion.
pub open spec fn no_delete(ops: Seq<CompressedCRDTOperation>) -> bool {
    forall|i: int| 0 <= i < ops.len() ==> !((#[trigger] ops[i]).data is Delete)
}

/// Each field that `ops` updates, with the value and the timestamp of its first update there.
pub open spec fn first_updates(ops: Seq<CompressedCRDTOperation>) -> Map<Seq<char>, (rmpv::Value, NTP64)>
    decreases ops.len(),
{
    if ops.len() == 0 {
        Map::empty()
    } else {
        let later = first_updates(ops.drop_first());
        match ops[0].data {
            CRDTOperationData::Update { field, value } => later.insert(field@, (value, ops[0].timestamp)),
            _ => later,
        }
    }
}

/// The fields of `data` with their values alone.
pub open spec fn values_of(data: Map<Seq<char>, (rmpv::Value, NTP64)>) -> Map<Seq<char>, rmpv::Value> {
    data.map_values(|entry: (rmpv::Value, NTP64)| entry.0)
}

/// The fields with which a record comes into being that `ops` creates and updates: those of the
/// last creation, overwritten by the updates that follow it.
pub open spec fn created_fields(ops: Seq<CompressedCRDTOperation>) -> Map<Seq<char>, rmpv::Value> {
    let updated = values_of(first_updates(since_create(ops)));
    match latest_create(ops) {
        Some(i) => ops[i].data->Create_0@.union_prefer_right(updated),
        None => updated,
    }
}

/// What is written for a deletion at `timestamp`.
pub open spec fn deletion(
    device_pub_id: DevicePubId,
    model_id: ModelId,
    record_id: RecordId,
    timestamp: NTP64,
) -> TransactionView {
    let op = OperationView { device_pub_id, timestamp, model_id, record_id, data: DataView::Delete };
    TransactionView { apply: op, log: seq![op] }
}

/// What is written for a creation at `timestamp` with the updates that follow it. The table gets
/// the newest operation first and the creation last; nothing that is older than the creation.
pub open spec fn creation(
    device_pub_id: DevicePubId,
    model_id: ModelId,
    record_id: RecordId,
    ops: Seq<CompressedCRDTOperation>,
    timestamp: NTP64,
) -> TransactionView {
    let kept = match latest_create(ops) {
        Some(i) => ops.skip(i),
        None => ops,
    };
    TransactionView {
        apply: OperationView {
            device_pub_id,
            timestamp,
            model_id,
            record_id,
            data: DataView::Create(created_fields(ops)),
        },
        log: kept.reverse().map_values(
            |op: CompressedCRDTOperation| operation_on(device_pub_id, model_id, record_id, op),
        ),
    }
}

/// The fields of `data` for which `newer` tells, in the order of their names, that the table
/// holds a newer update. Fields beyond the end of `newer` are not among them.
pub open spec fn superseded(
    data: Map<Seq<char>, (rmpv::Value, NTP64)>,
    newer: Seq<bool>,
) -> Set<Seq<char>> {
    Set::new(
        |name: Seq<char>|
            exists|i: int|
                0 <= i < listing(data).len() && i < newer.len() && #[trigger] newer[i] && listing(data)[i]
                    == name,
    )
}

/// What is written for the updates `data`: one creation that holds them all, with timestamp zero,
/// and each as an operation of its own, in the order of the names. What is superseded is left out
/// of both.
pub open spec fn updates(
    device_pub_id: DevicePubId,
    model_id: ModelId,
    record_id: RecordId,
    data: Map<Seq<char>, (rmpv::Value, NTP64)>,
    newer: Seq<bool>,
) -> TransactionView {
    let kept = data.remove_keys(superseded(data, newer));
    TransactionView {
        apply: OperationView {
            device_pub_id,
            timestamp: NTP64(0),
            model_id,
            record_id,
            data: DataView::Create(values_of(kept)),
        },
        log: listing(kept).map_values(
            |name: Seq<char>|
                OperationView {
                    device_pub_id,
                    timestamp: kept[name].1,
                    model_id,
                    record_id,
                    data: DataView::Update { field: name, value: kept[name].0 },
                },
        ),
    }
}

impl Transaction {
    /// Reports a model that the database does not know.
    pub fn require_model(&self, known: bool) -> (res: Result<(), IngestError>)
        ensures
            res == (if known {
                Ok(())
            } else {
                Err(IngestError::InvalidModelId(self.apply.model_id))
            }),
    {
        if known {
            Ok(())
        } else {
            Err(IngestError::InvalidModelId(self.apply.model_id))
        }
    }
}

/// What is written for a deletion: deletes are final, so nothing is looked up first.
pub fn handle_crdt_deletion(
    device_pub_id: DevicePubId,
    model: ModelId,
    record_id: RecordId,
    timestamp: NTP64,
) -> (res: Transaction)
    ensures
        res@ == deletion(device_pub_id, model, record_id, timestamp),
{
    let apply = CRDTOperation {
        device_pub_id,
        timestamp,
        model_id: model,
        record_id: record_id.clone(),
        data: CRDTOperationData::Delete,
    };
    let mut log: Vec<CRDTOperation> = Vec::new();
    log.push(CRDTOperation {
        device_pub_id,
        timestamp,
        model_id: model,
        record_id,
        data: CRDTOperationData::Delete,
    });
    Transaction { apply, log }
}

/// The first `i + 1` names are the first `i` and one more.
proof fn taken_names(names: Seq<Seq<char>>, i: int, name: Seq<char>)
    requires
        0 <= i < names.len(),
    ensures
        names.take(i + 1).contains(name) <==> names.take(i).contains(name) || name == names[i],
{
    let more = names.take(i + 1);
    let fewer = names.take(i);
    assert(more[i] == names[i]);
    if fewer.contains(name) {
        let k = choose|k: int| 0 <= k < fewer.len() && fewer[k] == name;
        assert(more[k] == name);
    }
    if more.contains(name) && name != names[i] {
        let k = choose|k: int| 0 <= k < more.len() && more[k] == name;
        assert(fewer[k] == name);
    }
}

/// Puts the fields of a creation into `data`, except those that `data` has already.
fn fill_in(data: &mut FieldMap<rmpv::Value>, created: &FieldMap<rmpv::Value>)
    ensures
        final(data)@ == created@.union_prefer_right(old(data)@),
{
    let n = created.len();
    let ghost names = listing(created@);
    let mut i: usize = 0;
    while i < n
        invariant
            i <= n,
            n == names.len(),
            names == listing(created@),
            is_listing(names, created@),
            forall|name: Seq<char>| #[trigger]
                data@.contains_key(name) <==> old(data)@.contains_key(name) || names.take(
                    i as int,
                ).contains(name),
            forall|name: Seq<char>| #[trigger]
                data@.contains_key(name) ==> data@[name] == if old(data)@.contains_key(name) {
                    old(data)@[name]
                } else {
                    created@[name]
                },
        decreases n - i,
    {
        let (field, value) = created.at(i);
        let ghost before = data@;
        data.insert_if_absent(field.clone(), value.clone());
        proof {
            assert forall|name: Seq<char>| #[trigger] data@.contains_key(name) <==> old(
                data,
            )@.contains_key(name) || names.take(i + 1).contains(name) by {
                let _ = before.contains_key(name);
                taken_names(names, i as int, name);
            }
            assert forall|name: Seq<char>| #[trigger] data@.contains_key(name) implies data@[name] == if old(
                data,
            )@.contains_key(name) {
                old(data)@[name]
            } else {
                created@[name]
            } by {
                let _ = before.contains_key(name);
            }
        }
        i = i + 1;
    }
    proof {
        assert(names.take(i as int) =~= names);
        let expected = created@.union_prefer_right(old(data)@);
        assert forall|name: Seq<char>| data@.contains_key(name) == #[trigger] expected.contains_key(
            name,
        ) by {
            let _ = created@.contains_key(name);
        }
        assert(data@ =~= expected);
    }
}

/// What is written for a creation and the updates that follow it. The last creation counts;
/// what is older than it is dropped. A field that was updated since has the value of its first
/// update there, any other the value from the creation.
pub fn handle_crdt_create_and_updates(
    device_pub_id: DevicePubId,
    model_id: ModelId,
    record_id: RecordId,
    ops: Vec<CompressedCRDTOperation>,
    timestamp: NTP64,
) -> (res: Transaction)
    requires
        no_delete(since_create(ops@)),
    ensures
        res@ == creation(device_pub_id, model_id, record_id, ops@, timestamp),
{
    let ghost all = ops@;
    let ghost n = all.len() as int;
    let ghost to_operation = |op: CompressedCRDTOperation|
        operation_on(device_pub_id, model_id, record_id, op);
    let mut ops = ops;
    let mut data: FieldMap<rmpv::Value> = FieldMap::new();
    let mut log: Vec<CRDTOperation> = Vec::new();
    let mut found = false;
    proof {
        assert(all.skip(n) =~= Seq::empty());
        assert(all.take(n) =~= all);
        assert(data@ =~= values_of(first_updates(all.skip(n))));
        assert(log@.map_values(|op: CRDTOperation| op@) =~= all.skip(n).reverse().map_values(to_operation));
    }
    while !found && ops.len() > 0
        invariant
            n == all.len(),
            no_delete(since_create(all)),
            to_operation == (|op: CompressedCRDTOperation|
                operation_on(device_pub_id, model_id, record_id, op)),
            ops@.len() <= n,
            ops@ == all.take(ops@.len() as int),
            log@.map_values(|op: CRDTOperation| op@) == all.skip(ops@.len() as int).reverse().map_values(
                to_operation,
            ),
            !found ==> latest_create(all) == latest_create(ops@),
            !found ==> data@ == values_of(first_updates(all.skip(ops@.len() as int))),
            found ==> latest_create(all) == Some(ops@.len() as int),
            found ==> data@ == created_fields(all),
        decreases ops@.len(),
    {
        let ghost k = ops@.len() - 1;
        let ghost log_before = log@;
        let ghost data_before = data@;
        if let Some(op) = ops.pop() {
            proof {
                assert(op == all[k]);
                assert(ops@ =~= all.take(k));
                assert(all.take(k + 1).drop_last() =~= all.take(k));
                assert(all.skip(k).drop_first() =~= all.skip(k + 1));
                assert(all.skip(k)[0] == op);
                assert(all.skip(k).reverse() =~= all.skip(k + 1).reverse().push(op));
                latest_create_is_the_last(all.take(k + 1));
            }
            match &op.data {
                CRDTOperationData::Delete => {
                    proof {
                        assert(since_create(all).contains(op)) by {
                            match latest_create(all) {
                                Some(c) => {
                                    assert(all.skip(c + 1)[k - c - 1] == op);
                                },
                                None => {
                                    assert(all[k] == op);
                                },
                            }
                        }
                        assert(false);
                    }
                },
                CRDTOperationData::Create(created) => {
                    fill_in(&mut data, created);
                    found = true;
                },
                CRDTOperationData::Update { field, value } => {
                    data.insert(field.clone(), value.clone());
                    proof {
                        assert(data@ =~= values_of(first_updates(all.skip(k))));
                    }
                },
            }
            log.push(CRDTOperation {
                device_pub_id,
                timestamp: op.timestamp,
                model_id,
                record_id: record_id.clone(),
                data: op.data,
            });
            proof {
                assert(log@.map_values(|op: CRDTOperation| op@) =~= log_before.map_values(
                    |op: CRDTOperation| op@,
                ).push(log@.last()@));
                assert(all.skip(k).reverse().map_values(to_operation) =~= all.skip(
                    k + 1,
                ).reverse().map_values(to_operation).push(to_operation(op)));
            }
        }
    }
    proof {
        if !found {
            assert(all.skip(0) =~= all);
        }
    }
    let apply = CRDTOperation {
        device_pub_id,
        timestamp,
        model_id,
        record_id,
        data: CRDTOperationData::Create(data),
    };
    Transaction { apply, log }
}

/// What is written for updates alone, `data` holding the fields with the values and timestamps
/// to write, and `newer` telling of each, in the order of the names, whether the table holds a
/// newer update of it: those fields are dropped.
pub fn handle_crdt_updates(
    device_pub_id: DevicePubId,
    model: ModelId,
    record_id: RecordId,
    data: FieldMap<(rmpv::Value, NTP64)>,
    newer: Vec<bool>,
) -> (res: Transaction)
    ensures
        res@ == updates(device_pub_id, model, record_id, data@, newer@),
{
    let ghost all = data@;
    let ghost names = listing(all);
    let mut data = data;
    let mut keys: Vec<String> = Vec::new();
    let n = data.len();
    let mut i: usize = 0;
    while i < n
        invariant
            data@ == all,
            names == listing(all),
            n == names.len(),
            i <= n,
            keys@.len() == i,
            forall|j: int| 0 <= j < i ==> #[trigger] keys@[j]@ == names[j],
        decreases n - i,
    {
        keys.push(data.at(i).0.clone());
        i = i + 1;
    }
    let mut i: usize = 0;
    proof {
        assert(superseded(all, newer@.take(0)) =~= Set::empty());
        assert(data@ =~= all.remove_keys(superseded(all, newer@.take(0))));
    }
    while i < n && i < newer.len()
        invariant
            names == listing(all),
            n == names.len(),
            i <= n,
            i <= newer@.len(),
            keys@.len() == n,
            forall|j: int| 0 <= j < n ==> #[trigger] keys@[j]@ == names[j],
            data@ == all.remove_keys(superseded(all, newer@.take(i as int))),
        decreases n - i,
    {
        if newer[i] {
            data.remove(&keys[i]);
        }
        proof {
            let before = superseded(all, newer@.take(i as int));
            let after = superseded(all, newer@.take(i + 1));
            let gone = names[i as int];
            assert forall|name: Seq<char>| #[trigger]
                after.contains(name) <==> before.contains(name) || (newer@[i as int] && name == gone) by {
                if before.contains(name) {
                    let j = choose|j: int|
                        0 <= j < names.len() && j < newer@.take(i as int).len() && #[trigger] newer@.take(
                            i as int,
                        )[j] && names[j] == name;
                    assert(newer@.take(i + 1)[j]);
                }
                if newer@[i as int] && name == gone {
                    assert(newer@.take(i + 1)[i as int]);
                }
                if after.contains(name) && !(newer@[i as int] && name == gone) {
                    let j = choose|j: int|
                        0 <= j < names.len() && j < newer@.take(i + 1).len() && #[trigger] newer@.take(
                            i + 1,
                        )[j] && names[j] == name;
                    assert(newer@.take(i as int)[j]);
                }
            }
            assert(data@ =~= all.remove_keys(after));
        }
        i = i + 1;
    }
    let ghost kept = data@;
    proof {
        assert(superseded(all, newer@.take(i as int)) =~= superseded(all, newer@)) by {
            assert forall|name: Seq<char>| #[trigger]
                superseded(all, newer@).contains(name) implies superseded(
                all,
                newer@.take(i as int),
            ).contains(name) by {
                let j = choose|j: int|
                    0 <= j < names.len() && j < newer@.len() && #[trigger] newer@[j] && names[j] == name;
                assert(newer@.take(i as int)[j]);
            }
            assert forall|name: Seq<char>| #[trigger]
                superseded(all, newer@.take(i as int)).contains(name) implies superseded(
                all,
                newer@,
            ).contains(name) by {
                let j = choose|j: int|
                    0 <= j < names.len() && j < newer@.take(i as int).len() && #[trigger] newer@.take(
                        i as int,
                    )[j] && names[j] == name;
                assert(newer@[j]);
            }
        }
    }
    let n = data.len();
    let mut fields: FieldMap<rmpv::Value> = FieldMap::new();
    let entries = data.into_entries();
    let mut i: usize = 0;
    while i < n
        invariant
            n == entries@.len(),
            i <= n,
            n == listing(kept).len(),
            is_listing(listing(kept), kept),
            forall|j: int|
                0 <= j < n ==> (#[trigger] entries@[j]).0@ == listing(kept)[j] && entries@[j].1
                    == kept[listing(kept)[j]],
            forall|name: Seq<char>| #[trigger]
                fields@.contains_key(name) <==> listing(kept).take(i as int).contains(name),
            forall|name: Seq<char>| #[trigger] fields@.contains_key(name) ==> fields@[name] == kept[name].0,
        decreases n - i,
    {
        let ghost before = fields@;
        let ghost names = listing(kept);
        fields.insert(entries[i].0.clone(), entries[i].1.0.clone());
        proof {
            assert forall|name: Seq<char>| #[trigger]
                fields@.contains_key(name) <==> names.take(i + 1).contains(name) by {
                let _ = before.contains_key(name);
                taken_names(names, i as int, name);
            }
            assert forall|name: Seq<char>| #[trigger] fields@.contains_key(name) implies fields@[name]
                == kept[name].0 by {
                let _ = before.contains_key(name);
            }
        }
        i = i + 1;
    }
    proof {
        assert(listing(kept).take(n as int) =~= listing(kept));
        assert forall|name: Seq<char>| fields@.contains_key(name) == #[trigger] values_of(
            kept,
        ).contains_key(name) by {
            let _ = kept.contains_key(name);
        }
        assert(fields@ =~= values_of(kept));
    }
    let apply = CRDTOperation {
        device_pub_id,
        timestamp: NTP64(0),
        model_id: model,
        record_id: record_id.clone(),
        data: CRDTOperationData::Create(fields),
    };
    let mut log: Vec<CRDTOperation> = Vec::new();
    for entry in it: entries.into_iter()
        invariant
            it.seq() == entries@,
            entries@.len() == listing(kept).len(),
            forall|j: int|
                0 <= j < entries@.len() ==> (#[trigger] entries@[j]).0@ == listing(kept)[j] && entries@[j].1
                    == kept[listing(kept)[j]],
            log@.len() == it.index(),
            forall|j: int|
                0 <= j < log@.len() ==> (#[trigger] log@[j])@ == (OperationView {
                    device_pub_id,
                    timestamp: kept[listing(kept)[j]].1,
                    model_id: model,
                    record_id,
                    data: DataView::Update {
                        field: listing(kept)[j],
                        value: kept[listing(kept)[j]].0,
                    },
                }),
    {
        let (field, (value, timestamp)) = entry;
        log.push(CRDTOperation {
            device_pub_id,
            timestamp,
            model_id: model,
            record_id: record_id.clone(),
            data: CRDTOperationData::Update { field, value },
        });
    }
    let res = Transaction { apply, log };
    proof {
        assert(res@.log =~= updates(device_pub_id, model, record_id, all, newer@).log);
    }
    res
}

/// Whether the operation at `i` updates the field `name`.
pub open spec fn updates_field(ops: Seq<CompressedCRDTOperation>, i: int, name: Seq<char>) -> bool {
    &&& 0 <= i < ops.len()
    &&& match ops[i].data {
        CRDTOperationData::Update { field, .. } => field@ == name,
        _ => false,
    }
}

/// An operation updates a field whether or not the first of all is counted in.
proof fn updates_field_behind(ops: Seq<CompressedCRDTOperation>, i: int, name: Seq<char>)
    requires
        0 < i < ops.len(),
    ensures
        updates_field(ops.drop_first(), i - 1, name) == updates_field(ops, i, name),
{
    assert(ops.drop_first()[i - 1] == ops[i]);
}

/// A field has an entry exactly where it is updated.
proof fn first_updates_has(ops: Seq<CompressedCRDTOperation>, name: Seq<char>)
    ensures
        first_updates(ops).contains_key(name) <==> exists|i: int| updates_field(ops, i, name),
    decreases ops.len(),
{
    if ops.len() > 0 {
        let rest = ops.drop_first();
        first_updates_has(rest, name);
        if first_updates(rest).contains_key(name) {
            let i = choose|i: int| updates_field(rest, i, name);
            updates_field_behind(ops, i + 1, name);
            assert(updates_field(ops, i + 1, name));
        } else if first_updates(ops).contains_key(name) {
            assert(updates_field(ops, 0, name));
        }
        if exists|i: int| updates_field(ops, i, name) {
            let i = choose|i: int| updates_field(ops, i, name);
            if i > 0 {
                updates_field_behind(ops, i, name);
                assert(updates_field(rest, i - 1, name));
            }
        }
    }
}

/// The entry of a field is its first update.
proof fn first_updates_at(ops: Seq<CompressedCRDTOperation>, i: int, name: Seq<char>)
    requires
        updates_field(ops, i, name),
        forall|j: int| 0 <= j < i ==> !#[trigger] updates_field(ops, j, name),
    ensures
        first_updates(ops)[name] == (ops[i].data->value, ops[i].timestamp),
    decreases ops.len(),
{
    if i > 0 {
        let rest = ops.drop_first();
        assert(!updates_field(ops, 0, name));
        updates_field_behind(ops, i, name);
        assert forall|j: int| 0 <= j < i - 1 implies !#[trigger] updates_field(rest, j, name) by {
            updates_field_behind(ops, j + 1, name);
            assert(!updates_field(ops, j + 1, name));
        }
        first_updates_at(rest, i - 1, name);
        assert(rest[i - 1] == ops[i]);
    }
}

/// Of several updates of a field the first counts; a field without an update has no entry.
pub proof fn first_update_counts(ops: Seq<CompressedCRDTOperation>, name: Seq<char>)
    ensures
        first_updates(ops).contains_key(name) <==> exists|i: int| updates_field(ops, i, name),
        forall|i: int|
            #[trigger] updates_field(ops, i, name) && (forall|j: int|
                0 <= j < i ==> !#[trigger] updates_field(ops, j, name)) ==> first_updates(ops)[name] == (
                ops[i].data->value,
                ops[i].timestamp,
            ),
{
    first_updates_has(ops, name);
    assert forall|i: int|
        #[trigger] updates_field(ops, i, name) && (forall|j: int|
            0 <= j < i ==> !#[trigger] updates_field(ops, j, name)) implies first_updates(ops)[name] == (
        ops[i].data->value,
        ops[i].timestamp,
    ) by {
        first_updates_at(ops, i, name);
    }
}

/// Updates overwrite the data of the creation before them: a field that was updated since has
/// the value of an update, any other field is as it was created.
pub proof fn updates_overwrite_the_creation(ops: Seq<CompressedCRDTOperation>, name: Seq<char>)
    ensures
        latest_create(ops) matches Some(c) ==> {
            let since = since_create(ops);
            let created = ops[c].data->Create_0@;
            if exists|i: int| updates_field(since, i, name) {
                &&& created_fields(ops).contains_key(name)
                &&& exists|i: int|
                    #[trigger] updates_field(since, i, name) && created_fields(ops)[name]
                        == since[i].data->value
            } else {
                &&& created_fields(ops).contains_key(name) <==> created.contains_key(name)
                &&& created.contains_key(name) ==> created_fields(ops)[name] == created[name]
            }
        },
{
    let since = since_create(ops);
    first_update_counts(since, name);
    if latest_create(ops) is Some && exists|i: int| updates_field(since, i, name) {
        let some = choose|i: int| updates_field(since, i, name);
        let first = first_position(since, name, some);
        assert(first_updates(since)[name].0 == since[first].data->value);
    }
}

/// Where the field `name`, which is updated at `i`, is updated first.
pub(crate) proof fn first_position(ops: Seq<CompressedCRDTOperation>, name: Seq<char>, i: int) -> (res: int)
    requires
        updates_field(ops, i, name),
    ensures
        updates_field(ops, res, name),
        forall|j: int| 0 <= j < res ==> !#[trigger] updates_field(ops, j, name),
    decreases i,
{
    if exists|j: int| 0 <= j < i && #[trigger] updates_field(ops, j, name) {
        let j = choose|j: int| 0 <= j < i && #[trigger] updates_field(ops, j, name);
        first_position(ops, name, j)
    } else {
        i
    }
}

/// Nothing that is older than the creation is kept, and the creation is.
pub proof fn creation_keeps_nothing_older(
    device_pub_id: DevicePubId,
    model_id: ModelId,
    record_id: RecordId,
    ops: Seq<CompressedCRDTOperation>,
    timestamp: NTP64,
)
    requires
        in_time_order(ops),
        latest_create(ops) is Some,
    ensures
        ({
            let c = latest_create(ops)->0;
            let log = creation(device_pub_id, model_id, record_id, ops, timestamp).log;
            &&& log.len() == ops.len() - c
            &&& log.last() == operation_on(device_pub_id, model_id, record_id, ops[c])
            &&& forall|i: int| 0 <= i < log.len() ==> (#[trigger] log[i]).timestamp.0 >= ops[c].timestamp.0
        }),
{
    latest_create_is_the_last(ops);
    let c = latest_create(ops)->0;
    let log = creation(device_pub_id, model_id, record_id, ops, timestamp).log;
    assert forall|i: int| 0 <= i < log.len() implies (#[trigger] log[i]).timestamp.0 >= ops[c].timestamp.0 by {
        assert(log[i].timestamp == ops[ops.len() - 1 - i].timestamp);
    }
}

/// What remains of the first `n` fields of `data`, taken one after another and each passed over
/// where `newer` tells of a newer update.
pub open spec fn one_by_one(
    data: Map<Seq<char>, (rmpv::Value, NTP64)>,
    newer: Seq<bool>,
    n: nat,
) -> Map<Seq<char>, (rmpv::Value, NTP64)>
    decreases n,
{
    if n == 0 {
        Map::empty()
    } else {
        let before = one_by_one(data, newer, (n - 1) as nat);
        let name = listing(data)[n - 1];
        if n - 1 < newer.len() && newer[n - 1] {
            before
        } else {
            before.insert(name, data[name])
        }
    }
}

/// Dropping the superseded fields from a batch does the same as taking the fields one by one and
/// passing over each for which there is a newer update.
pub proof fn batch_equals_one_by_one(data: Map<Seq<char>, (rmpv::Value, NTP64)>, newer: Seq<bool>)
    requires
        data.dom().finite(),
    ensures
        one_by_one(data, newer, listing(data).len()) == data.remove_keys(superseded(data, newer)),
{
    finite_maps_are_listed(data);
    let names = listing(data);
    let n = names.len();
    one_by_one_content(data, newer, n);
    let batch = data.remove_keys(superseded(data, newer));
    let single = one_by_one(data, newer, n);
    assert forall|name: Seq<char>| single.contains_key(name) == #[trigger] batch.contains_key(name) by {
        if single.contains_key(name) {
            let i = choose|i: int|
                0 <= i < n && #[trigger] names[i] == name && !(i < newer.len() && newer[i]);
            assert(names.contains(name));
            assert(data.contains_key(name));
            if superseded(data, newer).contains(name) {
                let j = choose|j: int|
                    0 <= j < names.len() && j < newer.len() && #[trigger] newer[j] && names[j] == name;
                names_are_strictly_ordered(name, name, name);
                assert(i == j);
            }
        }
        if batch.contains_key(name) {
            assert(data.contains_key(name));
            let i = choose|i: int| 0 <= i < n && names[i] == name;
            assert(!(i < newer.len() && newer[i]));
        }
    }
    assert(single =~= batch);
}

proof fn one_by_one_content(data: Map<Seq<char>, (rmpv::Value, NTP64)>, newer: Seq<bool>, n: nat)
    requires
        n <= listing(data).len(),
    ensures
        forall|name: Seq<char>| #[trigger]
            one_by_one(data, newer, n).contains_key(name) <==> exists|i: int|
                0 <= i < n && #[trigger] listing(data)[i] == name && !(i < newer.len() && newer[i]),
        forall|name: Seq<char>| #[trigger]
            one_by_one(data, newer, n).contains_key(name) ==> one_by_one(data, newer, n)[name] == data[name],
    decreases n,
{
    if n > 0 {
        let m = (n - 1) as nat;
        one_by_one_content(data, newer, m);
        let names = listing(data);
        let before = one_by_one(data, newer, m);
        assert forall|name: Seq<char>| #[trigger]
            one_by_one(data, newer, n).contains_key(name) <==> exists|i: int|
                0 <= i < n && #[trigger] names[i] == name && !(i < newer.len() && newer[i]) by {
            if one_by_one(data, newer, n).contains_key(name) {
                if before.contains_key(name) {
                    let i = choose|i: int|
                        0 <= i < m && #[trigger] names[i] == name && !(i < newer.len() && newer[i]);
                    assert(names[i] == name);
                } else {
                    assert(names[m as int] == name);
                }
            }
            if exists|i: int| 0 <= i < n && #[trigger] names[i] == name && !(i < newer.len() && newer[i]) {
                let i = choose|i: int|
                    0 <= i < n && #[trigger] names[i] == name && !(i < newer.len() && newer[i]);
                if i < m {
                    assert(before.contains_key(name));
                }
            }
        }
        assert forall|name: Seq<char>| #[trigger]
            one_by_one(data, newer, n).contains_key(name) implies one_by_one(data, newer, n)[name]
            == data[name] by {
            let _ = before.contains_key(name);
        }
    }
}

/// Of updates, exactly what is applied to the record is kept in the table: the fields are the
/// same on both sides, with the same values.
pub proof fn applied_updates_are_logged(
    device_pub_id: DevicePubId,
    model_id: ModelId,
    record_id: RecordId,
    data: Map<Seq<char>, (rmpv::Value, NTP64)>,
    newer: Seq<bool>,
)
    requires
        data.dom().finite(),
    ensures
        ({
            let written = updates(device_pub_id, model_id, record_id, data, newer);
            let fields = written.apply.data->Create_0;
            &&& forall|i: int|
                0 <= i < written.log.len() ==> (#[trigger] written.log[i]).data is Update
                    && fields.contains_key(written.log[i].data->field)
                    && fields[written.log[i].data->field] == written.log[i].data->value
            &&& forall|name: Seq<char>| #[trigger]
                fields.contains_key(name) ==> exists|i: int|
                    0 <= i < written.log.len() && (#[trigger] written.log[i]).data->field == name
        }),
{
    let kept = data.remove_keys(superseded(data, newer));
    assert(kept.dom() =~= data.dom().difference(superseded(data, newer)));
    finite_maps_are_listed(kept);
    let names = listing(kept);
    let written = updates(device_pub_id, model_id, record_id, data, newer);
    let fields = written.apply.data->Create_0;
    assert forall|i: int| 0 <= i < written.log.len() implies (#[trigger] written.log[i]).data is Update
        && fields.contains_key(written.log[i].data->field) && fields[written.log[i].data->field]
        == written.log[i].data->value by {
        assert(names.contains(names[i]));
        assert(kept.contains_key(names[i]));
    }
    assert forall|name: Seq<char>| #[trigger] fields.contains_key(name) implies exists|i: int|
        0 <= i < written.log.len() && (#[trigger] written.log[i]).data->field == name by {
        assert(kept.contains_key(name));
        let i = choose|i: int| 0 <= i < names.len() && names[i] == name;
        assert(written.log[i].data->field == name);
    }
}

} // verus!
