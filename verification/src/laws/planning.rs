//! Laws of the order of operations and of what is decided on them.
use vstd::prelude::*;

use crate::field_map::{listing, listings_name_each_key_once};
use crate::laws::writing::{
    creations_are_kept_with_what_follows, creations_hold_all_the_data, deletions_are_applied_and_kept,
    first_update_of, no_update_of, updates_are_applied_unless_superseded,
    updates_are_kept_with_their_times,
};
use crate::order::{at_time, by_time, by_time_is_a_stable_sort, put_in};
use crate::outside::encoded_value;
use crate::process::{
    latest_delete, latest_delete_at, latest_delete_is_the_newest, lookup_step, planned, stored, Plan, Step,
};
use crate::transaction::{
    creation, deletion, first_updates, latest_create, latest_create_is_the_last, no_delete, updates,
    Transaction,
};
use crate::types::{
    CRDTOperation, CRDTOperationData, CompressedCRDTOperation, DevicePubId, ModelId, RecordId, NTP64,
};

verus! {

/// Operations are put in the order of their times; those of one time stay as they stood; and
/// none is lost or added.
pub proof fn operations_are_sorted_stably(ops: Seq<CompressedCRDTOperation>, time: NTP64)
    ensures
        forall|i: int, j: int|
            0 <= i < j < by_time(ops).len() ==> (#[trigger] by_time(ops)[i]).timestamp.0 <= (
            #[trigger] by_time(ops)[j]).timestamp.0,
        by_time(ops).filter(|op: CompressedCRDTOperation| op.timestamp == time) == ops.filter(
            |op: CompressedCRDTOperation| op.timestamp == time,
        ),
        by_time(ops).to_multiset() == ops.to_multiset(),
        by_time(ops).len() == ops.len(),
{
    by_time_is_a_stable_sort(ops);
    at_time_filters(ops, time);
    at_time_filters(by_time(ops), time);
    assert(at_time(by_time(ops), time) == at_time(ops, time));
    by_time_keeps_all(ops);
}

proof fn at_time_filters(ops: Seq<CompressedCRDTOperation>, time: NTP64)
    ensures
        at_time(ops, time) == ops.filter(|op: CompressedCRDTOperation| op.timestamp == time),
    decreases ops.len(),
{
    reveal(Seq::filter);
    if ops.len() > 0 {
        at_time_filters(ops.drop_last(), time);
    }
}

proof fn put_in_keeps_all(ops: Seq<CompressedCRDTOperation>, op: CompressedCRDTOperation)
    ensures
        put_in(ops, op).to_multiset() == ops.to_multiset().insert(op),
    decreases ops.len(),
{
    broadcast use vstd::seq_lib::group_to_multiset_ensures;

    if ops.len() > 0 && ops.last().timestamp.0 > op.timestamp.0 {
        let init = ops.drop_last();
        put_in_keeps_all(init, op);
        assert(ops =~= init.push(ops.last()));
        assert(put_in(ops, op).to_multiset() =~= ops.to_multiset().insert(op));
    }
}

proof fn by_time_keeps_all(ops: Seq<CompressedCRDTOperation>)
    ensures
        by_time(ops).to_multiset() == ops.to_multiset(),
    decreases ops.len(),
{
    broadcast use vstd::seq_lib::group_to_multiset_ensures;

    if ops.len() > 0 {
        let init = ops.drop_last();
        by_time_keeps_all(init);
        put_in_keeps_all(by_time(init), ops.last());
        assert(ops =~= init.push(ops.last()));
    }
}

/// An operation is among the sorted ones exactly where it is among those that came in.
proof fn by_time_has(ops: Seq<CompressedCRDTOperation>, op: CompressedCRDTOperation)
    ensures
        by_time(ops).contains(op) <==> ops.contains(op),
{
    by_time_keeps_all(ops);
    by_time(ops).to_multiset_ensures();
    ops.to_multiset_ensures();
    assert(by_time(ops).contains(op) <==> by_time(ops).to_multiset().count(op) > 0);
    assert(ops.contains(op) <==> ops.to_multiset().count(op) > 0);
}

/// Timestamps are stored as the signed numbers with the same bits.
pub proof fn stored_timestamps_keep_their_bits(time: NTP64)
    ensures
        (stored(time) - time.0) % 0x1_0000_0000_0000_0000 == 0,
        i64::MIN <= stored(time) <= i64::MAX,
{
}

/// A deletion is found exactly where there is one, in whatever order the operations came in: so
/// only operations without one can fail for want of the record's encoding.
pub proof fn deletions_are_found(ops: Seq<CompressedCRDTOperation>)
    ensures
        latest_delete(ops) is None <==> (forall|i: int|
            0 <= i < ops.len() ==> !((#[trigger] ops[i]).data is Delete)),
        latest_delete(by_time(ops)) is None <==> (forall|i: int|
            0 <= i < ops.len() ==> !((#[trigger] ops[i]).data is Delete)),
        no_delete(ops) <==> (forall|i: int| 0 <= i < ops.len() ==> !((#[trigger] ops[i]).data is Delete)),
{
    let sorted = by_time(ops);
    latest_delete_is_the_newest(ops);
    latest_delete_is_the_newest(sorted);
    if !no_delete(ops) {
        let i = choose|i: int| 0 <= i < ops.len() && (#[trigger] ops[i]).data is Delete;
        by_time_has(ops, ops[i]);
        assert(ops.contains(ops[i]));
        let k = choose|k: int| 0 <= k < sorted.len() && sorted[k] == ops[i];
        assert(sorted[k].data is Delete);
    }
    if !no_delete(sorted) {
        let k = choose|k: int| 0 <= k < sorted.len() && (#[trigger] sorted[k]).data is Delete;
        by_time_has(ops, sorted[k]);
        assert(sorted.contains(sorted[k]));
        let i = choose|i: int| 0 <= i < ops.len() && ops[i] == sorted[k];
        assert(ops[i].data is Delete);
    }
}

/// Whether a deletion is among operations makes all the difference: with one, the newest of the
/// deletions is written at once. `i` is where the last deletion stands.
pub proof fn deletions_are_written_at_once(
    plan: Plan,
    device_pub_id: DevicePubId,
    model_id: ModelId,
    record_id: RecordId,
    ops: Seq<CompressedCRDTOperation>,
    encoding: Seq<u8>,
    i: int,
)
    requires
        plan@ == planned(device_pub_id, model_id, record_id, ops, encoding),
        0 <= i < ops.len(),
        ops[i].data is Delete,
        forall|j: int| i < j < ops.len() ==> !((#[trigger] ops[j]).data is Delete),
    ensures
        plan.device_pub_id == device_pub_id,
        plan.new_timestamp == ops[ops.len() - 1].timestamp,
        plan.step is Write,
        plan.step->Write_0.apply == (CRDTOperation {
            device_pub_id,
            timestamp: ops[i].timestamp,
            model_id,
            record_id,
            data: CRDTOperationData::Delete,
        }),
        plan.step->Write_0.log@ == seq![plan.step->Write_0.apply],
{
    latest_delete_at(ops, i);
    deletions_are_applied_and_kept(
        plan.step->Write_0,
        device_pub_id,
        model_id,
        record_id,
        ops[i].timestamp,
    );
}

/// Where a record is created, a deletion of it is looked up before anything is written: of the
/// model and the record that were given, whatever its time. All operations wait for the answer,
/// with the time of the last creation, which stands at `c`.
pub proof fn creations_wait_for_deletions(
    step: Step,
    device_pub_id: DevicePubId,
    model_id: ModelId,
    record_id: RecordId,
    ops: Seq<CompressedCRDTOperation>,
    encoding: Seq<u8>,
    c: int,
)
    requires
        step@ == lookup_step(device_pub_id, model_id, record_id, ops, encoding) || (step@ == planned(
            device_pub_id,
            model_id,
            record_id,
            ops,
            encoding,
        ).step && forall|i: int| 0 <= i < ops.len() ==> !((#[trigger] ops[i]).data is Delete)),
        0 <= c < ops.len(),
        ops[c].data is Create,
        forall|i: int| c < i < ops.len() ==> !((#[trigger] ops[i]).data is Create),
    ensures
        step is FindDelete,
        step->query.model == model_id,
        step->query.record_id@ == encoding,
        step->query.kind is Delete,
        step->query.newer_than is None,
        step->creation@.device_pub_id == device_pub_id,
        step->creation@.model_id == model_id,
        step->creation@.record_id == record_id,
        step->creation@.ops == ops,
        step->creation@.timestamp == ops[c].timestamp,
{
    latest_create_is_the_last(ops);
    latest_delete_is_the_newest(ops);
    match latest_create(ops) {
        Some(found) => {
            assert(ops[found].data is Create);
        },
        None => {
            assert(!(ops[c].data is Create));
        },
    }
}

/// Where a record is only updated, its creation is looked up, and each field waits with the value
/// and the time of the first update that names it. Fields that are not updated do not occur.
pub proof fn updates_wait_for_the_creation(
    step: Step,
    device_pub_id: DevicePubId,
    model_id: ModelId,
    record_id: RecordId,
    ops: Seq<CompressedCRDTOperation>,
    encoding: Seq<u8>,
    name: Seq<char>,
)
    requires
        step@ == lookup_step(device_pub_id, model_id, record_id, ops, encoding) || (step@ == planned(
            device_pub_id,
            model_id,
            record_id,
            ops,
            encoding,
        ).step && forall|i: int| 0 <= i < ops.len() ==> !((#[trigger] ops[i]).data is Delete)),
        forall|i: int| 0 <= i < ops.len() ==> !((#[trigger] ops[i]).data is Create),
    ensures
        step is FindCreateAndUpdates,
        step->create.model == model_id,
        step->create.record_id@ == encoding,
        step->create.kind is Create,
        step->create.newer_than is None,
        step->updates@.device_pub_id == device_pub_id,
        step->updates@.model_id == model_id,
        step->updates@.record_id == record_id,
        step->updates@.data.dom().finite(),
        step->updates@.data.contains_key(name) <==> exists|i: int|
            0 <= i < ops.len() && ((#[trigger] ops[i]).data matches CRDTOperationData::Update { field, .. }
                && field@ == name),
        step->updates@.data.contains_key(name) ==> exists|i: int|
            {
                &&& 0 <= i < ops.len()
                &&& (#[trigger] ops[i]).data matches CRDTOperationData::Update { field, value }
                &&& field@ == name
                &&& step->updates@.data[name] == (value, ops[i].timestamp)
                &&& forall|j: int|
                    0 <= j < i ==> ((#[trigger] ops[j]).data matches CRDTOperationData::Update {
                        field: other,
                        ..
                    } ==> other@ != name)
            },
{
    latest_create_is_the_last(ops);
    latest_delete_is_the_newest(ops);
    assert(latest_create(ops) is None);
    assert(step@ == lookup_step(device_pub_id, model_id, record_id, ops, encoding));
    assert(step->updates@.data == first_updates(ops));
    first_updates_are_finite(ops);
    if exists|i: int|
        0 <= i < ops.len() && ((#[trigger] ops[i]).data matches CRDTOperationData::Update { field, .. }
            && field@ == name) {
        let i = choose|i: int|
            0 <= i < ops.len() && ((#[trigger] ops[i]).data matches CRDTOperationData::Update {
                field,
                ..
            } && field@ == name);
        let first = first_update_of(ops, -1, name, i);
        assert(ops.skip(0) =~= ops);
        assert(ops[first].data->field@ == name);
    } else if ops.len() > 0 {
        no_update_of(ops, -1, name);
        assert(ops.skip(0) =~= ops);
    }
}

proof fn first_updates_are_finite(ops: Seq<CompressedCRDTOperation>)
    ensures
        first_updates(ops).dom().finite(),
    decreases ops.len(),
{
    if ops.len() > 0 {
        first_updates_are_finite(ops.drop_first());
    }
}

/// Of each field that waits to be updated, in the order of the names, it is asked whether the
/// table holds a newer update: of that field, of the model and the record that were given, and
/// newer than the update that waits.
pub proof fn newer_updates_are_looked_up(
    step: Step,
    device_pub_id: DevicePubId,
    model_id: ModelId,
    record_id: RecordId,
    ops: Seq<CompressedCRDTOperation>,
    encoding: Seq<u8>,
)
    requires
        step@ == lookup_step(device_pub_id, model_id, record_id, ops, encoding) || (step@ == planned(
            device_pub_id,
            model_id,
            record_id,
            ops,
            encoding,
        ).step && forall|i: int| 0 <= i < ops.len() ==> !((#[trigger] ops[i]).data is Delete)),
        forall|i: int| 0 <= i < ops.len() ==> !((#[trigger] ops[i]).data is Create),
    ensures
        step is FindCreateAndUpdates,
        step->newer@.len() == step->updates@.data.dom().len(),
        step->newer@.len() == listing(step->updates@.data).len(),
        forall|k: int|
            0 <= k < step->newer@.len() ==> {
                let query = #[trigger] step->newer@[k];
                let name = listing(step->updates@.data)[k];
                &&& query.model == model_id
                &&& query.record_id@ == encoding
                &&& query.kind is Update
                &&& query.kind->Update_0@ == name
                &&& query.newer_than is Some
                &&& (query.newer_than->0 - step->updates@.data[name].1.0) % 0x1_0000_0000_0000_0000 == 0
            },
{
    latest_create_is_the_last(ops);
    latest_delete_is_the_newest(ops);
    assert(latest_create(ops) is None);
    assert(step@ == lookup_step(device_pub_id, model_id, record_id, ops, encoding));
    let data = step->updates@.data;
    assert(data == first_updates(ops));
    first_updates_are_finite(ops);
    listings_name_each_key_once(data);
    let names = listing(data);
    assert(step@->newer.len() == step->newer@.len());
    assert forall|k: int| 0 <= k < step->newer@.len() implies {
        let query = #[trigger] step->newer@[k];
        &&& query.model == model_id
        &&& query.record_id@ == encoding
        &&& query.kind is Update
        &&& query.kind->Update_0@ == names[k]
        &&& query.newer_than is Some
        &&& (query.newer_than->0 - data[names[k]].1.0) % 0x1_0000_0000_0000_0000 == 0
    } by {
        let query = step->newer@[k];
        assert(step@->newer[k] == query@);
        stored_timestamps_keep_their_bits(data[names[k]].1);
    }
}

/// Which way operations go that came in in any order is settled by what is among them: with a
/// deletion, the newest deletion is written; without one but with a creation, a deletion is looked
/// up, and nothing is written before; with updates alone, the creation is looked up. The plan
/// takes note of the newest time among them, and loses no operation.
pub proof fn what_came_in_settles_the_plan(
    plan: Plan,
    device_pub_id: DevicePubId,
    model_id: ModelId,
    record_id: RecordId,
    ops: Seq<CompressedCRDTOperation>,
    encoding: Seq<u8>,
)
    requires
        plan@ == planned(device_pub_id, model_id, record_id, by_time(ops), encoding),
        ops.len() > 0,
    ensures
        plan.device_pub_id == device_pub_id,
        forall|i: int| 0 <= i < ops.len() ==> (#[trigger] ops[i]).timestamp.0 <= plan.new_timestamp.0,
        exists|i: int| 0 <= i < ops.len() && (#[trigger] ops[i]).timestamp == plan.new_timestamp,
        ({
            let deletes = exists|i: int| 0 <= i < ops.len() && (#[trigger] ops[i]).data is Delete;
            let creates = exists|i: int| 0 <= i < ops.len() && (#[trigger] ops[i]).data is Create;
            &&& plan.step is Write <==> deletes
            &&& plan.step is FindDelete <==> !deletes && creates
            &&& plan.step is FindCreateAndUpdates <==> !deletes && !creates
        }),
        plan.step matches Step::Write(transaction) ==> {
            &&& transaction.apply.data is Delete
            &&& transaction.apply.device_pub_id == device_pub_id
            &&& transaction.apply.model_id == model_id
            &&& transaction.apply.record_id == record_id
            &&& transaction.log@ == seq![transaction.apply]
            &&& forall|i: int|
                0 <= i < ops.len() && (#[trigger] ops[i]).data is Delete ==> ops[i].timestamp.0
                    <= transaction.apply.timestamp.0
            &&& exists|i: int|
                0 <= i < ops.len() && (#[trigger] ops[i]).data is Delete && ops[i].timestamp
                    == transaction.apply.timestamp
        },
        plan.step matches Step::FindDelete { query, creation } ==> {
            &&& query.model == model_id
            &&& query.record_id@ == encoding
            &&& query.kind is Delete
            &&& query.newer_than is None
            &&& creation@.device_pub_id == device_pub_id
            &&& creation@.model_id == model_id
            &&& creation@.record_id == record_id
            &&& creation@.ops.to_multiset() == ops.to_multiset()
            &&& forall|i: int, j: int|
                0 <= i < j < creation@.ops.len() ==> (#[trigger] creation@.ops[i]).timestamp.0 <= (
                #[trigger] creation@.ops[j]).timestamp.0
            &&& forall|i: int|
                0 <= i < ops.len() && (#[trigger] ops[i]).data is Create ==> ops[i].timestamp.0
                    <= creation@.timestamp.0
            &&& exists|i: int|
                0 <= i < ops.len() && (#[trigger] ops[i]).data is Create && ops[i].timestamp
                    == creation@.timestamp
        },
        plan.step matches Step::FindCreateAndUpdates { create, newer: _, updates } ==> {
            &&& create.model == model_id
            &&& create.record_id@ == encoding
            &&& create.kind is Create
            &&& create.newer_than is None
            &&& updates@.device_pub_id == device_pub_id
            &&& updates@.model_id == model_id
            &&& updates@.record_id == record_id
        },
{
    let sorted = by_time(ops);
    operations_are_sorted_stably(ops, plan.new_timestamp);
    assert forall|i: int| 0 <= i < ops.len() implies sorted.contains(#[trigger] ops[i]) by {
        by_time_has(ops, ops[i]);
        assert(ops.contains(ops[i]));
    }
    assert forall|k: int| 0 <= k < sorted.len() implies ops.contains(#[trigger] sorted[k]) by {
        by_time_has(ops, sorted[k]);
        assert(sorted.contains(sorted[k]));
    }
    let last = sorted[sorted.len() - 1];
    assert(ops.contains(last));
    assert forall|i: int| 0 <= i < ops.len() implies (#[trigger] ops[i]).timestamp.0 <= last.timestamp.0 by {
        let k = choose|k: int| 0 <= k < sorted.len() && sorted[k] == ops[i];
        assert(sorted[k].timestamp.0 <= sorted[sorted.len() - 1].timestamp.0);
    }
    let deletes = exists|i: int| 0 <= i < ops.len() && (#[trigger] ops[i]).data is Delete;
    let creates = exists|i: int| 0 <= i < ops.len() && (#[trigger] ops[i]).data is Create;
    if deletes {
        let i = choose|i: int| 0 <= i < ops.len() && (#[trigger] ops[i]).data is Delete;
        let k = choose|k: int| 0 <= k < sorted.len() && sorted[k] == ops[i];
        let d = last_deletion(sorted, k);
        deletions_are_written_at_once(plan, device_pub_id, model_id, record_id, sorted, encoding, d);
        assert(ops.contains(sorted[d]));
        assert forall|i: int| 0 <= i < ops.len() && (#[trigger] ops[i]).data is Delete implies ops[i].timestamp.0
            <= sorted[d].timestamp.0 by {
            let k = choose|k: int| 0 <= k < sorted.len() && sorted[k] == ops[i];
            assert(sorted[k].data is Delete);
            assert(k <= d);
        }
    } else {
        assert forall|k: int| 0 <= k < sorted.len() implies !((#[trigger] sorted[k]).data is Delete) by {
            assert(ops.contains(sorted[k]));
        }
        if creates {
            let i = choose|i: int| 0 <= i < ops.len() && (#[trigger] ops[i]).data is Create;
            let k = choose|k: int| 0 <= k < sorted.len() && sorted[k] == ops[i];
            let c = last_creation(sorted, k);
            creations_wait_for_deletions(
                plan.step,
                device_pub_id,
                model_id,
                record_id,
                sorted,
                encoding,
                c,
            );
            assert(ops.contains(sorted[c]));
            assert forall|i: int| 0 <= i < ops.len() && (#[trigger] ops[i]).data is Create implies ops[i].timestamp.0
                <= sorted[c].timestamp.0 by {
                let k = choose|k: int| 0 <= k < sorted.len() && sorted[k] == ops[i];
                assert(sorted[k].data is Create);
                assert(k <= c);
            }
        } else {
            assert forall|k: int| 0 <= k < sorted.len() implies !((#[trigger] sorted[k]).data is Create) by {
                assert(ops.contains(sorted[k]));
            }
            updates_wait_for_the_creation(
                plan.step,
                device_pub_id,
                model_id,
                record_id,
                sorted,
                encoding,
                Seq::empty(),
            );
        }
    }
}

proof fn last_deletion(ops: Seq<CompressedCRDTOperation>, i: int) -> (res: int)
    requires
        0 <= i < ops.len(),
        ops[i].data is Delete,
    ensures
        i <= res < ops.len(),
        ops[res].data is Delete,
        forall|j: int| res < j < ops.len() ==> !((#[trigger] ops[j]).data is Delete),
    decreases ops.len() - i,
{
    if exists|j: int| i < j < ops.len() && (#[trigger] ops[j]).data is Delete {
        let j = choose|j: int| i < j < ops.len() && (#[trigger] ops[j]).data is Delete;
        last_deletion(ops, j)
    } else {
        i
    }
}

proof fn last_creation(ops: Seq<CompressedCRDTOperation>, i: int) -> (res: int)
    requires
        0 <= i < ops.len(),
        ops[i].data is Create,
    ensures
        i <= res < ops.len(),
        ops[res].data is Create,
        forall|j: int| res < j < ops.len() ==> !((#[trigger] ops[j]).data is Create),
    decreases ops.len() - i,
{
    if exists|j: int| i < j < ops.len() && (#[trigger] ops[j]).data is Create {
        let j = choose|j: int| i < j < ops.len() && (#[trigger] ops[j]).data is Create;
        last_creation(ops, j)
    } else {
        i
    }
}

/// A deletion is final: of whatever operations another device sends that create the record without
/// deleting it, in whatever order, a deletion is looked up first, and the question is one that the
/// operation kept of the deletion answers: of its model, its record and its kind, at any time.
pub proof fn kept_deletions_stop_creations(
    transaction: Transaction,
    deleter: DevicePubId,
    time: NTP64,
    plan: Plan,
    creator: DevicePubId,
    model_id: ModelId,
    record_id: RecordId,
    ops: Seq<CompressedCRDTOperation>,
)
    requires
        transaction@ == deletion(deleter, model_id, record_id, time),
        plan@ == planned(creator, model_id, record_id, by_time(ops), encoded_value(record_id)),
        forall|i: int| 0 <= i < ops.len() ==> !((#[trigger] ops[i]).data is Delete),
        exists|i: int| 0 <= i < ops.len() && (#[trigger] ops[i]).data is Create,
    ensures
        transaction.log@.len() == 1,
        transaction.log@[0].data is Delete,
        plan.step is FindDelete,
        plan.step->query.kind is Delete,
        plan.step->query.model == transaction.log@[0].model_id,
        plan.step->query.record_id@ == encoded_value(transaction.log@[0].record_id),
        plan.step->query.newer_than is None,
{
    deletions_are_applied_and_kept(transaction, deleter, model_id, record_id, time);
    what_came_in_settles_the_plan(plan, creator, model_id, record_id, ops, encoded_value(record_id));
}

/// A record that was created takes updates: of whatever updates another device sends, in whatever
/// order, the creation is looked up first, and the question is one that an operation kept of the
/// creation answers: of its model, its record and its kind, at any time. `c` is where the last
/// creation stands.
pub proof fn kept_creations_admit_updates(
    transaction: Transaction,
    creator: DevicePubId,
    created: Seq<CompressedCRDTOperation>,
    time: NTP64,
    c: int,
    plan: Plan,
    updater: DevicePubId,
    model_id: ModelId,
    record_id: RecordId,
    ops: Seq<CompressedCRDTOperation>,
)
    requires
        transaction@ == creation(creator, model_id, record_id, created, time),
        0 <= c < created.len(),
        created[c].data is Create,
        forall|i: int| c < i < created.len() ==> !((#[trigger] created[i]).data is Create),
        plan@ == planned(updater, model_id, record_id, by_time(ops), encoded_value(record_id)),
        ops.len() > 0,
        forall|i: int| 0 <= i < ops.len() ==> (#[trigger] ops[i]).data is Update,
    ensures
        transaction.log@.len() > 0,
        ({
            let kept = transaction.log@[transaction.log@.len() - 1];
            &&& kept.data is Create
            &&& plan.step is FindCreateAndUpdates
            &&& plan.step->create.kind is Create
            &&& plan.step->create.model == kept.model_id
            &&& plan.step->create.record_id@ == encoded_value(kept.record_id)
            &&& plan.step->create.newer_than is None
        }),
{
    creations_are_kept_with_what_follows(
        transaction,
        creator,
        model_id,
        record_id,
        created,
        time,
        c,
    );
    let n = transaction.log@.len() as int;
    let kept = transaction.log@[n - 1];
    assert(created[created.len() - 1 - (n - 1)] == created[c]);
    what_came_in_settles_the_plan(plan, updater, model_id, record_id, ops, encoded_value(record_id));
}

/// Newer updates prevail: of whatever updates another device sends, in whatever order, it is asked
/// of a field that they update whether the table holds a newer update, and an update of that field
/// that was kept answers, by its model, its record, its field and its stored time, where all that
/// come in now are older; where none is older, it does not. Stored times are compared as signed
/// numbers, so the times are of one half.
pub proof fn kept_updates_prevail_where_newer(
    transaction: Transaction,
    earlier: DevicePubId,
    data: Map<Seq<char>, (rmpv::Value, NTP64)>,
    newer: Seq<bool>,
    k: int,
    plan: Plan,
    later: DevicePubId,
    model_id: ModelId,
    record_id: RecordId,
    ops: Seq<CompressedCRDTOperation>,
    i: int,
)
    requires
        data.dom().finite(),
        transaction@ == updates(earlier, model_id, record_id, data, newer),
        0 <= k < transaction.log@.len(),
        plan@ == planned(later, model_id, record_id, by_time(ops), encoded_value(record_id)),
        forall|j: int| 0 <= j < ops.len() ==> (#[trigger] ops[j]).data is Update,
        forall|j: int|
            0 <= j < ops.len() ==> ((#[trigger] ops[j]).timestamp.0 < 0x8000_0000_0000_0000
                <==> transaction.log@[k].timestamp.0 < 0x8000_0000_0000_0000),
        0 <= i < ops.len(),
        ops[i].data->field@ == transaction.log@[k].data->field@,
    ensures
        plan.step is FindCreateAndUpdates,
        exists|q: int|
            {
                let kept = transaction.log@[k];
                let query = #[trigger] plan.step->newer@[q];
                &&& 0 <= q < plan.step->newer@.len()
                &&& listing(plan.step->updates@.data)[q] == kept.data->field@
                &&& query.model == kept.model_id
                &&& query.record_id@ == encoded_value(kept.record_id)
                &&& query.kind is Update
                &&& query.kind->Update_0@ == kept.data->field@
                &&& query.newer_than is Some
                &&& (forall|j: int|
                    0 <= j < ops.len() && (#[trigger] ops[j]).data->field@ == kept.data->field@
                        ==> ops[j].timestamp.0 < kept.timestamp.0) ==> stored(kept.timestamp)
                    > query.newer_than->0
                &&& (forall|j: int|
                    0 <= j < ops.len() && (#[trigger] ops[j]).data->field@ == kept.data->field@
                        ==> ops[j].timestamp.0 >= kept.timestamp.0) ==> stored(kept.timestamp)
                    <= query.newer_than->0
            },
{
    let sorted = by_time(ops);
    let encoding = encoded_value(record_id);
    let kept = transaction.log@[k];
    let name = kept.data->field@;
    updates_are_kept_with_their_times(
        transaction,
        earlier,
        model_id,
        record_id,
        data,
        newer,
    );
    assert forall|j: int| 0 <= j < sorted.len() implies ops.contains(#[trigger] sorted[j]) by {
        by_time_has(ops, sorted[j]);
        assert(sorted.contains(sorted[j]));
    }
    assert(sorted.contains(ops[i])) by {
        by_time_has(ops, ops[i]);
        assert(ops.contains(ops[i]));
    }
    let s = choose|s: int| 0 <= s < sorted.len() && sorted[s] == ops[i];
    updates_wait_for_the_creation(plan.step, later, model_id, record_id, sorted, encoding, name);
    newer_updates_are_looked_up(plan.step, later, model_id, record_id, sorted, encoding);
    let waiting = plan.step->updates@.data;
    assert(sorted[s].data->field@ == name);
    assert(waiting.contains_key(name));
    listings_name_each_key_once(waiting);
    assert(listing(waiting).contains(name));
    let q = choose|q: int| 0 <= q < listing(waiting).len() && listing(waiting)[q] == name;
    let query = plan.step->newer@[q];
    let first = choose|f: int|
        0 <= f < sorted.len() && (#[trigger] sorted[f]).data->field@ == name && waiting[name].1
            == sorted[f].timestamp;
    assert(ops.contains(sorted[first]));
    let j = choose|j: int| 0 <= j < ops.len() && ops[j] == sorted[first];
    assert(ops[j].data->field@ == name);
    assert(waiting[name].1 == ops[j].timestamp);
    stored_timestamps_keep_their_bits(waiting[name].1);
    stored_timestamps_keep_their_bits(kept.timestamp);
    assert(query.newer_than->0 == stored(waiting[name].1));
}

/// What is written for a creation that has waited is what came in, from the newest creation on: it
/// is applied with the time of that creation, everything newer is kept, nothing older is, and
/// nothing is kept that did not come in.
pub proof fn creations_keep_what_came_in(
    plan: Plan,
    transaction: Transaction,
    device_pub_id: DevicePubId,
    model_id: ModelId,
    record_id: RecordId,
    ops: Seq<CompressedCRDTOperation>,
    encoding: Seq<u8>,
)
    requires
        plan@ == planned(device_pub_id, model_id, record_id, by_time(ops), encoding),
        ops.len() > 0,
        plan.step is FindDelete,
        transaction@ == creation(
            plan.step->creation@.device_pub_id,
            plan.step->creation@.model_id,
            plan.step->creation@.record_id,
            plan.step->creation@.ops,
            plan.step->creation@.timestamp,
        ),
    ensures
        transaction.apply.device_pub_id == device_pub_id,
        transaction.apply.model_id == model_id,
        transaction.apply.record_id == record_id,
        forall|i: int|
            0 <= i < ops.len() && (#[trigger] ops[i]).data is Create ==> ops[i].timestamp.0
                <= transaction.apply.timestamp.0,
        forall|i: int|
            0 <= i < ops.len() && (#[trigger] ops[i]).timestamp.0 > transaction.apply.timestamp.0
                ==> exists|k: int|
                0 <= k < transaction.log@.len() && (#[trigger] transaction.log@[k]).timestamp
                    == ops[i].timestamp && transaction.log@[k].data@ == ops[i].data@,
        forall|kept: CRDTOperation| #[trigger]
            transaction.log@.contains(kept) ==> kept.timestamp.0 >= transaction.apply.timestamp.0
                && exists|i: int|
                0 <= i < ops.len() && (#[trigger] ops[i]).timestamp == kept.timestamp && ops[i].data@
                    == kept.data@,
{
    let sorted = by_time(ops);
    what_came_in_settles_the_plan(plan, device_pub_id, model_id, record_id, ops, encoding);
    operations_are_sorted_stably(ops, plan.new_timestamp);
    let created = choose|i: int| 0 <= i < ops.len() && (#[trigger] ops[i]).data is Create;
    by_time_has(ops, ops[created]);
    assert(ops.contains(ops[created]));
    let s = choose|s: int| 0 <= s < sorted.len() && sorted[s] == ops[created];
    let c = last_creation(sorted, s);
    assert forall|j: int| 0 <= j < sorted.len() implies !((#[trigger] sorted[j]).data is Delete) by {
        by_time_has(ops, sorted[j]);
        assert(sorted.contains(sorted[j]));
    }
    creations_wait_for_deletions(plan.step, device_pub_id, model_id, record_id, sorted, encoding, c);
    let time = sorted[c].timestamp;
    creations_are_kept_with_what_follows(
        transaction,
        device_pub_id,
        model_id,
        record_id,
        sorted,
        time,
        c,
    );
    creations_hold_all_the_data(
        transaction,
        device_pub_id,
        model_id,
        record_id,
        sorted,
        time,
        c,
        Seq::empty(),
    );
    assert forall|i: int|
        0 <= i < ops.len() && (#[trigger] ops[i]).timestamp.0 > time.0 implies exists|k: int|
        0 <= k < transaction.log@.len() && (#[trigger] transaction.log@[k]).timestamp == ops[i].timestamp
            && transaction.log@[k].data@ == ops[i].data@ by {
        by_time_has(ops, ops[i]);
        assert(ops.contains(ops[i]));
        let j = choose|j: int| 0 <= j < sorted.len() && sorted[j] == ops[i];
        assert(j > c);
        let k = sorted.len() - 1 - j;
        assert(sorted[sorted.len() - 1 - k] == ops[i]);
        assert(transaction.log@[k].timestamp == ops[i].timestamp);
    }
    assert forall|kept: CRDTOperation| #[trigger] transaction.log@.contains(kept) implies kept.timestamp.0
        >= time.0 && exists|i: int|
        0 <= i < ops.len() && (#[trigger] ops[i]).timestamp == kept.timestamp && ops[i].data@ == kept.data@ by {
        let k = choose|k: int| 0 <= k < transaction.log@.len() && transaction.log@[k] == kept;
        let op = sorted[sorted.len() - 1 - k];
        by_time_has(ops, op);
        assert(sorted.contains(op));
        let i = choose|i: int| 0 <= i < ops.len() && ops[i] == op;
        assert(ops[i].timestamp == kept.timestamp);
        assert(c <= sorted.len() - 1 - k);
    }
}

/// What is written for updates that have waited is what came in: each is kept as it came in, and of
/// several updates of one field the oldest. Every field that was updated is kept unless a newer
/// update of it was found.
pub proof fn updates_keep_what_came_in(
    plan: Plan,
    transaction: Transaction,
    newer: Seq<bool>,
    device_pub_id: DevicePubId,
    model_id: ModelId,
    record_id: RecordId,
    ops: Seq<CompressedCRDTOperation>,
    encoding: Seq<u8>,
)
    requires
        plan@ == planned(device_pub_id, model_id, record_id, by_time(ops), encoding),
        ops.len() > 0,
        plan.step is FindCreateAndUpdates,
        transaction@ == updates(
            plan.step->updates@.device_pub_id,
            plan.step->updates@.model_id,
            plan.step->updates@.record_id,
            plan.step->updates@.data,
            newer,
        ),
    ensures
        forall|kept: CRDTOperation| #[trigger]
            transaction.log@.contains(kept) ==> {
                &&& kept.device_pub_id == device_pub_id
                &&& kept.model_id == model_id
                &&& kept.record_id == record_id
                &&& kept.data is Update
                &&& exists|i: int|
                    {
                        &&& 0 <= i < ops.len()
                        &&& (#[trigger] ops[i]).data matches CRDTOperationData::Update { field, value }
                        &&& field@ == kept.data->field@
                        &&& value == kept.data->value
                        &&& ops[i].timestamp == kept.timestamp
                    }
                &&& forall|i: int|
                    0 <= i < ops.len() && ((#[trigger] ops[i]).data matches CRDTOperationData::Update {
                        field,
                        ..
                    } && field@ == kept.data->field@) ==> ops[i].timestamp.0 >= kept.timestamp.0
            },
        (forall|q: int| 0 <= q < newer.len() ==> !#[trigger] newer[q]) ==> forall|i: int|
            0 <= i < ops.len() && (#[trigger] ops[i]).data is Update ==> exists|k: int|
                0 <= k < transaction.log@.len() && (#[trigger] transaction.log@[k]).data->field@
                    == ops[i].data->field@,
{
    let sorted = by_time(ops);
    let data = plan.step->updates@.data;
    what_came_in_settles_the_plan(plan, device_pub_id, model_id, record_id, ops, encoding);
    operations_are_sorted_stably(ops, plan.new_timestamp);
    assert forall|j: int| 0 <= j < sorted.len() implies ops.contains(#[trigger] sorted[j]) by {
        by_time_has(ops, sorted[j]);
        assert(sorted.contains(sorted[j]));
    }
    assert forall|j: int| 0 <= j < sorted.len() implies (#[trigger] sorted[j]).data is Update by {
        assert(ops.contains(sorted[j]));
    }
    updates_wait_for_the_creation(
        plan.step,
        device_pub_id,
        model_id,
        record_id,
        sorted,
        encoding,
        Seq::empty(),
    );
    updates_are_kept_with_their_times(transaction, device_pub_id, model_id, record_id, data, newer);
    updates_are_applied_unless_superseded(transaction, device_pub_id, model_id, record_id, data, newer);
    assert forall|kept: CRDTOperation| #[trigger] transaction.log@.contains(kept) implies {
        &&& kept.device_pub_id == device_pub_id
        &&& kept.model_id == model_id
        &&& kept.record_id == record_id
        &&& kept.data is Update
        &&& exists|i: int|
            {
                &&& 0 <= i < ops.len()
                &&& (#[trigger] ops[i]).data matches CRDTOperationData::Update { field, value }
                &&& field@ == kept.data->field@
                &&& value == kept.data->value
                &&& ops[i].timestamp == kept.timestamp
            }
        &&& forall|i: int|
            0 <= i < ops.len() && ((#[trigger] ops[i]).data matches CRDTOperationData::Update { field, .. }
                && field@ == kept.data->field@) ==> ops[i].timestamp.0 >= kept.timestamp.0
    } by {
        let k = choose|k: int| 0 <= k < transaction.log@.len() && transaction.log@[k] == kept;
        let name = kept.data->field@;
        updates_wait_for_the_creation(
            plan.step,
            device_pub_id,
            model_id,
            record_id,
            sorted,
            encoding,
            name,
        );
        let first = choose|f: int|
            {
                &&& 0 <= f < sorted.len()
                &&& (#[trigger] sorted[f]).data matches CRDTOperationData::Update { field, value }
                &&& field@ == name
                &&& data[name] == (value, sorted[f].timestamp)
                &&& forall|j: int|
                    0 <= j < f ==> ((#[trigger] sorted[j]).data matches CRDTOperationData::Update {
                        field: other,
                        ..
                    } ==> other@ != name)
            };
        assert(ops.contains(sorted[first]));
        let i = choose|i: int| 0 <= i < ops.len() && ops[i] == sorted[first];
        assert(ops[i].timestamp == kept.timestamp);
        assert forall|i: int|
            0 <= i < ops.len() && ((#[trigger] ops[i]).data matches CRDTOperationData::Update { field, .. }
                && field@ == name) implies ops[i].timestamp.0 >= kept.timestamp.0 by {
            by_time_has(ops, ops[i]);
            assert(ops.contains(ops[i]));
            let j = choose|j: int| 0 <= j < sorted.len() && sorted[j] == ops[i];
            assert(sorted[j].data->field@ == name);
            assert(j >= first);
        }
    }
    if forall|q: int| 0 <= q < newer.len() ==> !#[trigger] newer[q] {
        assert forall|i: int| 0 <= i < ops.len() && (#[trigger] ops[i]).data is Update implies exists|k: int|
            0 <= k < transaction.log@.len() && (#[trigger] transaction.log@[k]).data->field@
                == ops[i].data->field@ by {
            let name = ops[i].data->field@;
            by_time_has(ops, ops[i]);
            assert(ops.contains(ops[i]));
            let j = choose|j: int| 0 <= j < sorted.len() && sorted[j] == ops[i];
            assert(sorted[j].data->field@ == name);
            updates_wait_for_the_creation(
                plan.step,
                device_pub_id,
                model_id,
                record_id,
                sorted,
                encoding,
                name,
            );
            listings_name_each_key_once(data);
            assert(listing(data).contains(name));
            let q = choose|q: int| 0 <= q < listing(data).len() && listing(data)[q] == name;
            assert(transaction.apply.data->Create_0@.contains_key(listing(data)[q]));
        }
    }
}

} // verus!
