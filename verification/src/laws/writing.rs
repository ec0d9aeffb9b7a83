//! Laws of what is written to the database.
use vstd::prelude::*;

use crate::field_map::{listing, listings_name_each_key_once, name_before};
use crate::transaction::{
    created_fields, creation, deletion, first_position, first_update_counts, first_updates, latest_create,
    latest_create_is_the_last, no_delete, since_create, superseded, updates, updates_field, Transaction,
};
use crate::types::{
    CRDTOperation, CRDTOperationData, CompressedCRDTOperation, DevicePubId, ModelId, RecordId, NTP64,
};

verus! {

/// What is written for a deletion is the deletion, once to the record and once to the table, with
/// the device, the record and the time that were given.
pub proof fn deletions_are_applied_and_kept(
    transaction: Transaction,
    device_pub_id: DevicePubId,
    model_id: ModelId,
    record_id: RecordId,
    timestamp: NTP64,
)
    requires
        transaction@ == deletion(device_pub_id, model_id, record_id, timestamp),
    ensures
        transaction.apply == (CRDTOperation {
            device_pub_id,
            timestamp,
            model_id,
            record_id,
            data: CRDTOperationData::Delete,
        }),
        transaction.log@ == seq![transaction.apply],
{
    assert(transaction@.log.len() == 1);
    assert(transaction.log@.len() == 1);
    assert(transaction@.log[0] == transaction.log@[0]@);
    assert(transaction.log@[0] == transaction.apply);
    assert(transaction.log@ =~= seq![transaction.apply]);
}

/// What is written for a creation can be told where no deletion follows the last creation.
pub proof fn creations_take_no_later_deletion(ops: Seq<CompressedCRDTOperation>, c: int)
    requires
        -1 <= c < ops.len(),
        c >= 0 ==> ops[c].data is Create,
        forall|i: int| c < i < ops.len() ==> !((#[trigger] ops[i]).data is Create),
    ensures
        no_delete(since_create(ops)) <==> (forall|i: int|
            c < i < ops.len() ==> !((#[trigger] ops[i]).data is Delete)),
{
    let since = since_create(ops);
    last_creation_at(ops, c);
    if no_delete(since) {
        assert forall|i: int| c < i < ops.len() implies !((#[trigger] ops[i]).data is Delete) by {
            assert(since[i - c - 1] == ops[i]);
        }
    }
    if forall|i: int| c < i < ops.len() ==> !((#[trigger] ops[i]).data is Delete) {
        assert forall|k: int| 0 <= k < since.len() implies !((#[trigger] since[k]).data is Delete) by {
            assert(since[k] == ops[c + 1 + k]);
        }
    }
}

proof fn last_creation_at(ops: Seq<CompressedCRDTOperation>, c: int)
    requires
        -1 <= c < ops.len(),
        c >= 0 ==> ops[c].data is Create,
        forall|i: int| c < i < ops.len() ==> !((#[trigger] ops[i]).data is Create),
    ensures
        latest_create(ops) == if c >= 0 {
            Some(c)
        } else {
            None
        },
        since_create(ops) == ops.skip(c + 1),
{
    latest_create_is_the_last(ops);
    if let Some(found) = latest_create(ops) {
        assert(ops[found].data is Create);
    }
    assert(ops.skip(0) =~= ops);
}

/// The record gets every field that was updated after its last creation, whether or not the
/// creation names it, with the value of the first of those updates; and each other field exactly
/// where the creation names it, with the value from there. `c` is where the last creation stands,
/// or -1 where there is none.
pub proof fn creations_hold_all_the_data(
    transaction: Transaction,
    device_pub_id: DevicePubId,
    model_id: ModelId,
    record_id: RecordId,
    ops: Seq<CompressedCRDTOperation>,
    timestamp: NTP64,
    c: int,
    name: Seq<char>,
)
    requires
        transaction@ == creation(device_pub_id, model_id, record_id, ops, timestamp),
        -1 <= c < ops.len(),
        c >= 0 ==> ops[c].data is Create,
        forall|i: int| c < i < ops.len() ==> !((#[trigger] ops[i]).data is Create),
    ensures
        transaction.apply.device_pub_id == device_pub_id,
        transaction.apply.model_id == model_id,
        transaction.apply.record_id == record_id,
        transaction.apply.timestamp == timestamp,
        transaction.apply.data is Create,
        ({
            let fields = transaction.apply.data->Create_0@;
            if exists|i: int|
                c < i < ops.len() && ((#[trigger] ops[i]).data matches CRDTOperationData::Update {
                    field,
                    ..
                } && field@ == name) {
                &&& fields.contains_key(name)
                &&& exists|i: int|
                    {
                        &&& c < i < ops.len()
                        &&& (#[trigger] ops[i]).data matches CRDTOperationData::Update { field, value }
                        &&& field@ == name
                        &&& fields[name] == value
                        &&& forall|j: int|
                            c < j < i ==> ((#[trigger] ops[j]).data matches CRDTOperationData::Update {
                                field: other,
                                ..
                            } ==> other@ != name)
                    }
            } else {
                &&& fields.contains_key(name) <==> c >= 0 && ops[c].data->Create_0@.contains_key(name)
                &&& fields.contains_key(name) ==> fields[name] == ops[c].data->Create_0@[name]
            }
        }),
{
    let fields = transaction.apply.data->Create_0@;
    assert(transaction.apply@ == creation(device_pub_id, model_id, record_id, ops, timestamp).apply);
    assert(fields == created_fields(ops));
    created_field(ops, c, name);
    if exists|i: int|
        c < i < ops.len() && ((#[trigger] ops[i]).data matches CRDTOperationData::Update { field, .. }
            && field@ == name) {
        let i = choose|i: int|
            c < i < ops.len() && ((#[trigger] ops[i]).data matches CRDTOperationData::Update {
                field,
                ..
            } && field@ == name);
        let first = first_update_of(ops, c, name, i);
        assert(ops[first].data->field@ == name);
    } else {
        no_update_of(ops, c, name);
    }
}

proof fn created_field(ops: Seq<CompressedCRDTOperation>, c: int, name: Seq<char>)
    requires
        -1 <= c < ops.len(),
        c >= 0 ==> ops[c].data is Create,
        forall|i: int| c < i < ops.len() ==> !((#[trigger] ops[i]).data is Create),
    ensures
        created_fields(ops).contains_key(name) <==> first_updates(ops.skip(c + 1)).contains_key(name) || (c
            >= 0 && ops[c].data->Create_0@.contains_key(name)),
        created_fields(ops).contains_key(name) ==> created_fields(ops)[name] == if first_updates(
            ops.skip(c + 1),
        ).contains_key(name) {
            first_updates(ops.skip(c + 1))[name].0
        } else {
            ops[c].data->Create_0@[name]
        },
{
    last_creation_at(ops, c);
}

/// Where the field `name`, which is updated at `i`, is updated first after `c`: that update is the
/// one that counts.
pub(crate) proof fn first_update_of(ops: Seq<CompressedCRDTOperation>, c: int, name: Seq<char>, i: int) -> (res: int)
    requires
        -1 <= c < i < ops.len(),
        ops[i].data is Update,
        ops[i].data->field@ == name,
    ensures
        c < res < ops.len(),
        ops[res].data is Update,
        ops[res].data->field@ == name,
        forall|j: int|
            c < j < res ==> ((#[trigger] ops[j]).data matches CRDTOperationData::Update { field, .. }
                ==> field@ != name),
        first_updates(ops.skip(c + 1)).contains_key(name),
        first_updates(ops.skip(c + 1))[name] == (ops[res].data->value, ops[res].timestamp),
{
    let since = ops.skip(c + 1);
    assert(since[i - c - 1] == ops[i]);
    let first = first_position(since, name, i - c - 1);
    let res = c + 1 + first;
    assert(since[first] == ops[res]);
    assert(first_updates(since).contains_key(name) && first_updates(since)[name] == (
        since[first].data->value,
        since[first].timestamp,
    )) by {
        first_update_counts(since, name);
    }
    assert forall|j: int| c < j < res implies ((#[trigger] ops[j]).data matches CRDTOperationData::Update {
        field,
        ..
    } ==> field@ != name) by {
        assert(since[j - c - 1] == ops[j]);
        assert(!updates_field(since, j - c - 1, name));
    }
    res
}

/// A field that is not updated after `c` has no update that counts.
pub(crate) proof fn no_update_of(ops: Seq<CompressedCRDTOperation>, c: int, name: Seq<char>)
    requires
        -1 <= c < ops.len(),
        forall|i: int|
            c < i < ops.len() ==> ((#[trigger] ops[i]).data matches CRDTOperationData::Update { field, .. }
                ==> field@ != name),
    ensures
        !first_updates(ops.skip(c + 1)).contains_key(name),
{
    let since = ops.skip(c + 1);
    first_update_counts(since, name);
    assert forall|k: int| !#[trigger] updates_field(since, k, name) by {
        if updates_field(since, k, name) {
            assert(since[k] == ops[c + 1 + k]);
        }
    }
}

/// The table gets the last creation and each operation after it, and nothing from before it, the
/// newest first, every one with its own time and data, and with the device and the record that
/// were given. `c` is where the last creation stands, or -1 where there is none.
pub proof fn creations_are_kept_with_what_follows(
    transaction: Transaction,
    device_pub_id: DevicePubId,
    model_id: ModelId,
    record_id: RecordId,
    ops: Seq<CompressedCRDTOperation>,
    timestamp: NTP64,
    c: int,
)
    requires
        transaction@ == creation(device_pub_id, model_id, record_id, ops, timestamp),
        -1 <= c < ops.len(),
        c >= 0 ==> ops[c].data is Create,
        forall|i: int| c < i < ops.len() ==> !((#[trigger] ops[i]).data is Create),
    ensures
        transaction.log@.len() == if c >= 0 {
            ops.len() - c
        } else {
            ops.len() as int
        },
        forall|k: int|
            0 <= k < transaction.log@.len() ==> {
                let kept = #[trigger] transaction.log@[k];
                let op = ops[ops.len() - 1 - k];
                &&& kept.device_pub_id == device_pub_id
                &&& kept.model_id == model_id
                &&& kept.record_id == record_id
                &&& kept.timestamp == op.timestamp
                &&& match op.data {
                    CRDTOperationData::Create(fields) => kept.data is Create && kept.data->Create_0@
                        == fields@,
                    CRDTOperationData::Update { field, value } => kept.data is Update && kept.data->field@
                        == field@ && kept.data->value == value,
                    CRDTOperationData::Delete => kept.data is Delete,
                }
            },
{
    last_creation_at(ops, c);
    assert(transaction.log@.len() == transaction@.log.len());
    assert forall|k: int| 0 <= k < transaction.log@.len() implies {
        let kept = #[trigger] transaction.log@[k];
        let op = ops[ops.len() - 1 - k];
        &&& kept.device_pub_id == device_pub_id
        &&& kept.model_id == model_id
        &&& kept.record_id == record_id
        &&& kept.timestamp == op.timestamp
        &&& match op.data {
            CRDTOperationData::Create(fields) => kept.data is Create && kept.data->Create_0@ == fields@,
            CRDTOperationData::Update { field, value } => kept.data is Update && kept.data->field@ == field@
                && kept.data->value == value,
            CRDTOperationData::Delete => kept.data is Delete,
        }
    } by {
        let kept = transaction.log@[k];
        let op = ops[ops.len() - 1 - k];
        assert(transaction@.log[k] == kept@);
        assert(kept@.data == op.data@);
    }
}

/// The record gets a field of `data` exactly where no newer update of it is known, with the value
/// from `data`, and no other field. `newer` tells of the fields in the order of their names; what
/// it does not reach is not superseded.
pub proof fn updates_are_applied_unless_superseded(
    transaction: Transaction,
    device_pub_id: DevicePubId,
    model_id: ModelId,
    record_id: RecordId,
    data: Map<Seq<char>, (rmpv::Value, NTP64)>,
    newer: Seq<bool>,
)
    requires
        data.dom().finite(),
        transaction@ == updates(device_pub_id, model_id, record_id, data, newer),
    ensures
        transaction.apply.device_pub_id == device_pub_id,
        transaction.apply.model_id == model_id,
        transaction.apply.record_id == record_id,
        transaction.apply.timestamp == NTP64(0),
        transaction.apply.data is Create,
        forall|name: Seq<char>| #[trigger]
            transaction.apply.data->Create_0@.contains_key(name) ==> data.contains_key(name)
                && transaction.apply.data->Create_0@[name] == data[name].0,
        forall|i: int|
            0 <= i < listing(data).len() ==> (transaction.apply.data->Create_0@.contains_key(
                #[trigger] listing(data)[i],
            ) <==> !(i < newer.len() && newer[i])),
        transaction.apply.data->Create_0@.dom().finite(),
{
    listings_name_each_key_once(data);
    let names = listing(data);
    let fields = transaction.apply.data->Create_0@;
    assert forall|i: int| 0 <= i < names.len() implies (fields.contains_key(#[trigger] names[i]) <==> !(i
        < newer.len() && newer[i])) by {
        assert(names.contains(names[i]));
        assert(data.contains_key(names[i]));
        if superseded(data, newer).contains(names[i]) {
            let j = choose|j: int|
                0 <= j < names.len() && j < newer.len() && #[trigger] newer[j] && names[j] == names[i];
            assert(i == j);
        }
    }
    vstd::set_lib::lemma_set_subset_finite(data.dom(), fields.dom());
}

/// The table gets one operation for each field that the record gets, and no other: an update of
/// that field with the value and the time from `data`, and with the device and the record that
/// were given, in the order of the names.
pub proof fn updates_are_kept_with_their_times(
    transaction: Transaction,
    device_pub_id: DevicePubId,
    model_id: ModelId,
    record_id: RecordId,
    data: Map<Seq<char>, (rmpv::Value, NTP64)>,
    newer: Seq<bool>,
)
    requires
        data.dom().finite(),
        transaction@ == updates(device_pub_id, model_id, record_id, data, newer),
    ensures
        transaction.apply.data is Create,
        forall|k: int|
            0 <= k < transaction.log@.len() ==> {
                let kept = #[trigger] transaction.log@[k];
                &&& kept.device_pub_id == device_pub_id
                &&& kept.model_id == model_id
                &&& kept.record_id == record_id
                &&& kept.data is Update
                &&& data.contains_key(kept.data->field@)
                &&& kept.data->value == data[kept.data->field@].0
                &&& kept.timestamp == data[kept.data->field@].1
                &&& transaction.apply.data->Create_0@.contains_key(kept.data->field@)
            },
        forall|name: Seq<char>| #[trigger]
            transaction.apply.data->Create_0@.contains_key(name) ==> exists|k: int|
                0 <= k < transaction.log@.len() && (#[trigger] transaction.log@[k]).data->field@ == name,
        forall|j: int, k: int|
            0 <= j < k < transaction.log@.len() ==> name_before(
                (#[trigger] transaction.log@[j]).data->field@,
                (#[trigger] transaction.log@[k]).data->field@,
            ),
        transaction.log@.len() == transaction.apply.data->Create_0@.dom().len(),
{
    let kept = data.remove_keys(superseded(data, newer));
    let fields = transaction.apply.data->Create_0@;
    let names = listing(kept);
    vstd::set_lib::lemma_set_subset_finite(data.dom(), kept.dom());
    listings_name_each_key_once(kept);
    assert(fields.dom() =~= kept.dom());
    assert(transaction@.log.len() == transaction.log@.len());
    assert forall|k: int| 0 <= k < transaction.log@.len() implies {
        let op = #[trigger] transaction.log@[k];
        &&& op.device_pub_id == device_pub_id
        &&& op.model_id == model_id
        &&& op.record_id == record_id
        &&& op.data is Update
        &&& op.data->field@ == names[k]
        &&& data.contains_key(op.data->field@)
        &&& op.data->value == data[op.data->field@].0
        &&& op.timestamp == data[op.data->field@].1
        &&& fields.contains_key(op.data->field@)
    } by {
        assert(transaction@.log[k] == transaction.log@[k]@);
        assert(names.contains(names[k]));
        assert(kept.contains_key(names[k]));
    }
    assert forall|name: Seq<char>| #[trigger] fields.contains_key(name) implies exists|k: int|
        0 <= k < transaction.log@.len() && (#[trigger] transaction.log@[k]).data->field@ == name by {
        assert(names.contains(name));
        let k = choose|k: int| 0 <= k < names.len() && names[k] == name;
        assert(transaction.log@[k].data->field@ == name);
    }
}

} // verus!
